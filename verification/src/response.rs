//! RTSP responses, read line by line.

use crate::headers;
use crate::text;
use vstd::prelude::*;
use vstd::string::*;

verus! {

/// A response: its first line, its header lines with their line ends, its body.
pub struct RtspResponse {
    pub status_line: String,
    pub headers: String,
    pub body: Vec<u8>,
}

/// Whether a status line holds the code `code`.
pub open spec fn has_code(status_line: Seq<char>, code: Seq<char>) -> bool {
    text::contains(status_line, code)
}

impl RtspResponse {
    /// Whether the status line holds the code `code`.
    pub fn has_code(&self, code: &str) -> (r: bool)
        ensures
            r == has_code(self.status_line@, code@),
    {
        let line: Vec<char> = text::chars_of(self.status_line.as_str());
        let digits: Vec<char> = text::chars_of(code);
        text::contains_text(line.as_slice(), digits.as_slice())
    }
}

/// What to read next.
pub enum ReadAction {
    /// The next line, up to and with its line end; an empty text at the end of the stream.
    Line,
    /// Exactly so many bytes.
    Body(usize),
    /// Nothing: the response is complete.
    Done,
}

/// How far a response has been read.
#[derive(PartialEq, Eq, Structural, Clone, Copy)]
pub enum ReadPhase {
    Status,
    Headers,
    Body,
    Complete,
}

/// A response in the making.
#[verifier::ext_equal]
pub struct ReaderView {
    pub phase: ReadPhase,
    pub status_line: Seq<char>,
    pub headers: Seq<char>,
    pub body: Seq<u8>,
}

/// A response in the making.
pub struct ResponseReader {
    phase: ReadPhase,
    status_line: String,
    headers: String,
    body: Vec<u8>,
}

impl View for ResponseReader {
    type V = ReaderView;

    closed spec fn view(&self) -> ReaderView {
        ReaderView {
            phase: self.phase,
            status_line: self.status_line@,
            headers: self.headers@,
            body: self.body@,
        }
    }
}

/// Whether a line ends the headers: nothing but white space, or the end of the stream.
pub open spec fn is_blank(line: Seq<char>) -> bool {
    text::trim(line).len() == 0
}

/// The bytes of body that the headers ask for; none where they say nothing of it.
pub open spec fn body_length(headers: Seq<char>) -> nat {
    match headers::content_length(headers) {
        Some(n) => n,
        None => 0,
    }
}

/// The response in the making after one more line.
pub open spec fn after_line(r: ReaderView, line: Seq<char>) -> ReaderView {
    match r.phase {
        ReadPhase::Status => ReaderView {
            phase: ReadPhase::Headers,
            status_line: text::trim(line),
            ..r
        },
        ReadPhase::Headers => if !is_blank(line) {
            ReaderView { headers: r.headers + line, ..r }
        } else if body_length(r.headers) > 0 {
            ReaderView { phase: ReadPhase::Body, ..r }
        } else {
            ReaderView { phase: ReadPhase::Complete, ..r }
        },
        _ => r,
    }
}

/// The response in the making after its body, where one is due.
pub open spec fn after_body(r: ReaderView, bytes: Seq<u8>) -> ReaderView {
    if r.phase == ReadPhase::Body {
        ReaderView { phase: ReadPhase::Complete, body: bytes, ..r }
    } else {
        r
    }
}

/// The response in the making after lines, one after the other.
pub open spec fn after_lines(r: ReaderView, lines: Seq<Seq<char>>) -> ReaderView
    decreases lines.len(),
{
    if lines.len() == 0 {
        r
    } else {
        after_line(after_lines(r, lines.drop_last()), lines.last())
    }
}

/// What a reader asks for.
pub open spec fn asks_for(r: ReaderView, action: ReadAction) -> bool {
    match r.phase {
        ReadPhase::Status | ReadPhase::Headers => action is Line,
        ReadPhase::Body => action matches ReadAction::Body(n) && n == body_length(r.headers),
        ReadPhase::Complete => action is Done,
    }
}

/// Nothing read yet.
pub open spec fn unread() -> ReaderView {
    ReaderView {
        phase: ReadPhase::Status,
        status_line: Seq::empty(),
        headers: Seq::empty(),
        body: Seq::empty(),
    }
}

impl ResponseReader {
    /// A reader that has read nothing.
    pub fn new() -> (r: Self)
        ensures
            r@ == unread(),
    {
        ResponseReader {
            phase: ReadPhase::Status,
            status_line: String::new(),
            headers: String::new(),
            body: Vec::new(),
        }
    }

    /// What to read next.
    pub fn next(&self) -> (action: ReadAction)
        ensures
            asks_for(self@, action),
    {
        match self.phase {
            ReadPhase::Status => ReadAction::Line,
            ReadPhase::Headers => ReadAction::Line,
            ReadPhase::Body => match headers::parse_content_length(self.headers.as_str()) {
                Some(n) => ReadAction::Body(n),
                None => ReadAction::Body(0),
            },
            ReadPhase::Complete => ReadAction::Done,
        }
    }

    /// Takes the next line, up to and with its line end. Past the headers no line is taken.
    pub fn line(&mut self, line: &str)
        ensures
            final(self)@ == after_line(old(self)@, line@),
    {
        let all: Vec<char> = text::chars_of(line);
        let trimmed: &[char] = text::trimmed(all.as_slice());
        match self.phase {
            ReadPhase::Status => {
                self.status_line = text::string_of(trimmed);
                self.phase = ReadPhase::Headers;
            },
            ReadPhase::Headers => {
                if trimmed.len() > 0 {
                    self.headers.append(line);
                } else {
                    let announced: usize = match headers::parse_content_length(
                        self.headers.as_str(),
                    ) {
                        Some(n) => n,
                        None => 0,
                    };
                    self.phase = if announced > 0 {
                        ReadPhase::Body
                    } else {
                        ReadPhase::Complete
                    };
                }
            },
            _ => {},
        }
    }

    /// Takes the body, as long as it was announced. Where none is due nothing is taken.
    pub fn body(&mut self, bytes: Vec<u8>)
        requires
            old(self)@.phase == ReadPhase::Body ==> bytes@.len() == body_length(
                old(self)@.headers,
            ),
        ensures
            final(self)@ == after_body(old(self)@, bytes@),
    {
        if self.phase == ReadPhase::Body {
            self.body = bytes;
            self.phase = ReadPhase::Complete;
        }
    }

    /// The response.
    pub fn finish(self) -> (r: RtspResponse)
        ensures
            r.status_line@ == self@.status_line,
            r.headers@ == self@.headers,
            r.body@ == self@.body,
    {
        RtspResponse { status_line: self.status_line, headers: self.headers, body: self.body }
    }
}

/// The lines one after the other, in one text.
pub open spec fn joined(lines: Seq<Seq<char>>) -> Seq<char>
    decreases lines.len(),
{
    if lines.len() == 0 {
        Seq::empty()
    } else {
        joined(lines.drop_last()) + lines.last()
    }
}

/// A response is read as it was written: its first line without the white space around it, then
/// the header lines up to the first blank one, as they are, then as much body as they announce.
pub proof fn law_response_reads_back(
    status: Seq<char>,
    header_lines: Seq<Seq<char>>,
    blank: Seq<char>,
)
    requires
        forall|i: int| 0 <= i < header_lines.len() ==> !is_blank(#[trigger] header_lines[i]),
        is_blank(blank),
    ensures
        after_lines(unread(), (seq![status] + header_lines).push(blank)) == (ReaderView {
            phase: if body_length(joined(header_lines)) > 0 {
                ReadPhase::Body
            } else {
                ReadPhase::Complete
            },
            status_line: text::trim(status),
            headers: joined(header_lines),
            body: Seq::empty(),
        }),
{
    lemma_header_lines(status, header_lines);
    let all = (seq![status] + header_lines).push(blank);
    assert(all.drop_last() == seq![status] + header_lines);
}

/// The header lines so far, as they are.
proof fn lemma_header_lines(status: Seq<char>, header_lines: Seq<Seq<char>>)
    requires
        forall|i: int| 0 <= i < header_lines.len() ==> !is_blank(#[trigger] header_lines[i]),
    ensures
        after_lines(unread(), seq![status] + header_lines) == (ReaderView {
            phase: ReadPhase::Headers,
            status_line: text::trim(status),
            headers: joined(header_lines),
            body: Seq::empty(),
        }),
    decreases header_lines.len(),
{
    let all = seq![status] + header_lines;
    if header_lines.len() == 0 {
        assert(all.drop_last() == Seq::<Seq<char>>::empty());
        assert(after_lines(unread(), all.drop_last()) == unread());
        assert(all.last() == status);
    } else {
        lemma_header_lines(status, header_lines.drop_last());
        assert(all.drop_last() == seq![status] + header_lines.drop_last());
        assert(all.last() == header_lines.last());
        assert(!is_blank(header_lines[header_lines.len() - 1]));
    }
}

/// Once the headers have ended, no line changes what was read.
pub proof fn law_reading_ends(r: ReaderView, line: Seq<char>)
    requires
        r.phase == ReadPhase::Body || r.phase == ReadPhase::Complete,
    ensures
        after_line(r, line) == r,
{
}

/// As much body is read as the headers announce, and none where they announce none.
pub proof fn law_body_as_announced(headers: Seq<char>)
    ensures
        headers::content_length(headers) matches Some(n) ==> body_length(headers) == n,
        headers::content_length(headers) is None ==> body_length(headers) == 0,
{
}

/// A reader asks for lines until the headers have ended, then for the body that they announce, all
/// of it, and then for nothing.
pub proof fn law_reader_asks_for_what_is_due(r: ReaderView, action: ReadAction)
    requires
        asks_for(r, action),
    ensures
        r.phase == ReadPhase::Status || r.phase == ReadPhase::Headers ==> action == ReadAction::Line,
        r.phase == ReadPhase::Body ==> {
            &&& action matches ReadAction::Body(n)
            &&& headers::content_length(r.headers) matches Some(m) ==> n == m
            &&& headers::content_length(r.headers) is None ==> n == 0
        },
        r.phase == ReadPhase::Complete ==> action == ReadAction::Done,
{
}

/// A line that ends the headers has nothing in it but white space.
pub proof fn law_blank_line(line: Seq<char>)
    ensures
        is_blank(line) <==> forall|i: int| 0 <= i < line.len() ==> text::is_space(#[trigger] line[i]),
{
    text::law_trim_takes_only_space(line);
    let (i, j) = choose|i: int, j: int|
        #[trigger] text::is_trimmed(line, i, j) && text::trim(line) == line.subrange(i, j);
    if i < j {
        assert(!text::is_space(line[i]));
    }
}

/// A reader begins with nothing, at the status line.
pub proof fn law_unread()
    ensures
        unread().phase == ReadPhase::Status,
        unread().status_line.len() == 0,
        unread().headers.len() == 0,
        unread().body.len() == 0,
{
}

/// A body completes a response that waits for one, as it is; where none is due it is not taken.
pub proof fn law_body_completes(r: ReaderView, bytes: Seq<u8>)
    ensures
        r.phase != ReadPhase::Body ==> after_body(r, bytes) == r,
        r.phase == ReadPhase::Body ==> {
            &&& after_body(r, bytes).phase == ReadPhase::Complete
            &&& after_body(r, bytes).body == bytes
            &&& after_body(r, bytes).status_line == r.status_line
            &&& after_body(r, bytes).headers == r.headers
        },
{
}

} // verus!
