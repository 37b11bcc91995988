//! What a session reads from the header lines of an RTSP response.

use crate::text;
use vstd::prelude::*;
use vstd::slice::*;
use vstd::string::*;

verus! {

/// The text after the name of the first parameter in `parts` that is called `a` or `b`.
pub open spec fn param_in(parts: Seq<Seq<char>>, a: Seq<char>, b: Seq<char>) -> Option<Seq<char>>
    decreases parts.len(),
{
    if parts.len() == 0 {
        None
    } else {
        let part = text::trim(parts[0]);
        if text::starts_with(part, a) {
            Some(part.skip(a.len() as int))
        } else if text::starts_with(part, b) {
            Some(part.skip(b.len() as int))
        } else {
            param_in(parts.drop_first(), a, b)
        }
    }
}

/// The text after the name of the first parameter of a `Transport` line that is called `a` or `b`.
pub open spec fn transport_param(
    lines: Seq<Seq<char>>,
    a: Seq<char>,
    b: Seq<char>,
) -> Option<Seq<char>>
    decreases lines.len(),
{
    if lines.len() == 0 {
        None
    } else if text::starts_with_any_case(lines[0], "transport:"@) && param_in(
        text::split(lines[0], ';'),
        a,
        b,
    ) is Some {
        param_in(text::split(lines[0], ';'), a, b)
    } else {
        transport_param(lines.drop_first(), a, b)
    }
}

/// The port that the receiver takes audio on: the `server_port` of its `Transport` line, the
/// first of the two where it names a range.
pub open spec fn server_port(headers: Seq<char>) -> Option<nat> {
    match transport_param(text::lines(headers), "server_port="@, "Server_port="@) {
        None => None,
        Some(value) => text::parse_number(text::trim(text::before(value, '-')), 0xffff),
    }
}

/// The port that the receiver takes timing answers on: the `timing_port` of its `Transport` line.
pub open spec fn timing_port(headers: Seq<char>) -> Option<nat> {
    match transport_param(text::lines(headers), "timing_port="@, "Timing_port="@) {
        None => None,
        Some(value) => text::parse_number(text::trim(value), 0xffff),
    }
}

/// What a header line says: the text between its first colon and the next.
pub open spec fn field_value(line: Seq<char>) -> Seq<char> {
    text::trim(text::before(text::after(line, ':'), ':'))
}

/// The session's name in a `Session` line: what stands before any parameters.
pub open spec fn session_name(line: Seq<char>) -> Seq<char> {
    text::trim(text::before(field_value(line), ';'))
}

/// The name of the first `Session` line that has one.
pub open spec fn session_in(lines: Seq<Seq<char>>) -> Option<Seq<char>>
    decreases lines.len(),
{
    if lines.len() == 0 {
        None
    } else if text::starts_with_any_case(lines[0], "session:"@) && session_name(lines[0]).len()
        > 0 {
        Some(session_name(lines[0]))
    } else {
        session_in(lines.drop_first())
    }
}

/// The session's name in the headers.
pub open spec fn session_id(headers: Seq<char>) -> Option<Seq<char>> {
    session_in(text::lines(headers))
}

/// The length in the first `Content-Length` line, where it is a number up to `max`.
pub open spec fn length_in(lines: Seq<Seq<char>>, max: nat) -> Option<nat>
    decreases lines.len(),
{
    if lines.len() == 0 {
        None
    } else if text::starts_with_any_case(lines[0], "content-length:"@) {
        text::parse_number(field_value(lines[0]), max)
    } else {
        length_in(lines.drop_first(), max)
    }
}

/// The length of the body that the headers announce.
pub open spec fn content_length(headers: Seq<char>) -> Option<nat> {
    length_in(text::lines(headers), usize::MAX as nat)
}

/// The first line of `s`, and what follows its line end.
fn first_line(s: &[char]) -> (r: (&[char], &[char]))
    requires
        s@.len() > 0,
    ensures
        text::lines(s@) == seq![r.0@] + text::lines(r.1@),
        r.1@.len() < s@.len(),
{
    let n: usize = text::find_char(s, '\n');
    if n == s.len() {
        let rest: &[char] = slice_subrange(s, n, n);
        assert(rest@ == Seq::<char>::empty());
        assert(text::lines(s@) == seq![s@] + text::lines(rest@));
        return (s, rest);
    }
    let rest: &[char] = slice_subrange(s, n + 1, s.len());
    assert(rest@ == s@.skip(n + 1));
    let line: &[char] = slice_subrange(s, 0, n);
    assert(line@ == text::before(s@, '\n'));
    if n > 0 && s[n - 1] == '\r' {
        let shorter: &[char] = slice_subrange(s, 0, n - 1);
        assert(shorter@ == line@.drop_last());
        (shorter, rest)
    } else {
        (line, rest)
    }
}

/// The part of `s` before the first `c`.
fn part_before(s: &[char], c: char) -> (r: &[char])
    ensures
        r@ == text::before(s@, c),
{
    let n: usize = text::find_char(s, c);
    let r: &[char] = slice_subrange(s, 0, n);
    assert(r@ == s@.take(n as int));
    r
}

/// The part of `s` after the first `c`.
fn part_after(s: &[char], c: char) -> (r: &[char])
    ensures
        r@ == text::after(s@, c),
{
    let n: usize = text::find_char(s, c);
    let start: usize = if n < s.len() {
        n + 1
    } else {
        n
    };
    let r: &[char] = slice_subrange(s, start, s.len());
    assert(r@ == text::after(s@, c));
    r
}

/// What a header line says.
fn value_of(line: &[char]) -> (r: &[char])
    ensures
        r@ == field_value(line@),
{
    text::trimmed(part_before(part_after(line, ':'), ':'))
}

/// The parameter of a header line that is called `a` or `b`.
fn line_param<'a>(line: &'a [char], a: &[char], b: &[char]) -> (r: Option<&'a [char]>)
    ensures
        r is Some <==> param_in(text::split(line@, ';'), a@, b@) is Some,
        r matches Some(v) ==> param_in(text::split(line@, ';'), a@, b@) == Some(v@),
{
    let mut rest: &'a [char] = line;
    loop
        invariant
            param_in(text::split(line@, ';'), a@, b@) == param_in(
                text::split(rest@, ';'),
                a@,
                b@,
            ),
        decreases rest@.len(),
    {
        let n: usize = text::find_char(rest, ';');
        let part: &'a [char] = text::trimmed(slice_subrange(rest, 0, n));
        assert(rest@.subrange(0, n as int) == text::split(rest@, ';')[0]) by {
            assert(rest@.subrange(0, n as int) == text::before(rest@, ';'));
            if n == rest@.len() {
                assert(text::before(rest@, ';') == rest@);
            }
        }
        if text::has_prefix(part, a) {
            let value: &'a [char] = slice_subrange(part, a.len(), part.len());
            assert(value@ == part@.skip(a@.len() as int));
            return Some(value);
        }
        if text::has_prefix(part, b) {
            let value: &'a [char] = slice_subrange(part, b.len(), part.len());
            assert(value@ == part@.skip(b@.len() as int));
            return Some(value);
        }
        if n == rest.len() {
            assert(text::split(rest@, ';').drop_first() == Seq::<Seq<char>>::empty());
            assert(param_in(Seq::empty(), a@, b@) is None);
            return None;
        }
        let next: &'a [char] = slice_subrange(rest, n + 1, rest.len());
        assert(next@ == rest@.skip(n + 1));
        assert(text::split(rest@, ';').drop_first() == text::split(next@, ';'));
        rest = next;
    }
}

/// The parameter of a `Transport` line that is called `a` or `b`.
fn transport_value<'a>(headers: &'a [char], a: &[char], b: &[char]) -> (r: Option<&'a [char]>)
    ensures
        r is Some <==> transport_param(text::lines(headers@), a@, b@) is Some,
        r matches Some(v) ==> transport_param(text::lines(headers@), a@, b@) == Some(v@),
{
    let name: Vec<char> = text::chars_of("transport:");
    let mut rest: &'a [char] = headers;
    while rest.len() > 0
        invariant
            name@ == "transport:"@,
            transport_param(text::lines(headers@), a@, b@) == transport_param(
                text::lines(rest@),
                a@,
                b@,
            ),
        decreases rest@.len(),
    {
        let (line, next): (&'a [char], &'a [char]) = first_line(rest);
        assert(text::lines(rest@)[0] == line@);
        assert(text::lines(rest@).drop_first() == text::lines(next@));
        if text::has_prefix_any_case(line, name.as_slice()) {
            let value: Option<&'a [char]> = line_param(line, a, b);
            if value.is_some() {
                return value;
            }
        }
        rest = next;
    }
    None
}

/// The port that the receiver takes audio on, in the headers of its answer to SETUP.
pub fn parse_server_port(headers: &str) -> (r: Option<u16>)
    ensures
        r is Some <==> server_port(headers@) is Some,
        r matches Some(n) ==> server_port(headers@) == Some(n as nat),
{
    let all: Vec<char> = text::chars_of(headers);
    let a: Vec<char> = text::chars_of("server_port=");
    let b: Vec<char> = text::chars_of("Server_port=");
    match transport_value(all.as_slice(), a.as_slice(), b.as_slice()) {
        None => None,
        Some(value) => match text::number(text::trimmed(part_before(value, '-')), 0xffff) {
            None => None,
            Some(n) => Some(n as u16),
        },
    }
}

/// The port that the receiver takes timing answers on, in the headers of its answer to SETUP.
pub fn parse_timing_port(headers: &str) -> (r: Option<u16>)
    ensures
        r is Some <==> timing_port(headers@) is Some,
        r matches Some(n) ==> timing_port(headers@) == Some(n as nat),
{
    let all: Vec<char> = text::chars_of(headers);
    let a: Vec<char> = text::chars_of("timing_port=");
    let b: Vec<char> = text::chars_of("Timing_port=");
    match transport_value(all.as_slice(), a.as_slice(), b.as_slice()) {
        None => None,
        Some(value) => match text::number(text::trimmed(value), 0xffff) {
            None => None,
            Some(n) => Some(n as u16),
        },
    }
}

/// The session's name, in the headers of the answer to SETUP.
pub fn parse_session_id(headers: &str) -> (r: Option<String>)
    ensures
        r is Some <==> session_id(headers@) is Some,
        r matches Some(id) ==> session_id(headers@) == Some(id@),
{
    let all: Vec<char> = text::chars_of(headers);
    let name: Vec<char> = text::chars_of("session:");
    let mut rest: &[char] = all.as_slice();
    while rest.len() > 0
        invariant
            name@ == "session:"@,
            session_id(headers@) == session_in(text::lines(rest@)),
        decreases rest@.len(),
    {
        let (line, next): (&[char], &[char]) = first_line(rest);
        assert(text::lines(rest@)[0] == line@);
        assert(text::lines(rest@).drop_first() == text::lines(next@));
        if text::has_prefix_any_case(line, name.as_slice()) {
            let id: &[char] = text::trimmed(part_before(value_of(line), ';'));
            if id.len() > 0 {
                return Some(text::string_of(id));
            }
        }
        rest = next;
    }
    None
}

/// The length of the body that the headers announce.
pub fn parse_content_length(headers: &str) -> (r: Option<usize>)
    ensures
        r is Some <==> content_length(headers@) is Some,
        r matches Some(n) ==> content_length(headers@) == Some(n as nat),
{
    let all: Vec<char> = text::chars_of(headers);
    let name: Vec<char> = text::chars_of("content-length:");
    let mut rest: &[char] = all.as_slice();
    while rest.len() > 0
        invariant
            name@ == "content-length:"@,
            content_length(headers@) == length_in(text::lines(rest@), usize::MAX as nat),
        decreases rest@.len(),
    {
        let (line, next): (&[char], &[char]) = first_line(rest);
        assert(text::lines(rest@)[0] == line@);
        assert(text::lines(rest@).drop_first() == text::lines(next@));
        if text::has_prefix_any_case(line, name.as_slice()) {
            return match text::number(value_of(line), usize::MAX as u64) {
                None => None,
                Some(n) => Some(n as usize),
            };
        }
        rest = next;
    }
    None
}

/// A line with its line end is one line.
proof fn lemma_one_line(line: Seq<char>)
    requires
        !line.contains('\n'),
    ensures
        text::lines(line + "\r\n"@) == seq![line],
{
    let none = Seq::<char>::empty();
    lemma_line_before(line, none);
    assert(line + "\r\n"@ + none == line + "\r\n"@);
    assert(text::lines(none) == Seq::<Seq<char>>::empty());
    assert(seq![line] + Seq::<Seq<char>>::empty() == seq![line]);
}

/// A line with its line end, before other text, is the first of its lines.
proof fn lemma_line_before(line: Seq<char>, rest: Seq<char>)
    requires
        !line.contains('\n'),
    ensures
        text::lines(line + "\r\n"@ + rest) == seq![line] + text::lines(rest),
{
    reveal_strlit("\r\n");
    text::law_lines_end_in_newlines(line, rest);
    assert("\r\n"@ == seq!['\r', '\n']);
}

/// No line holds a line end.
proof fn lemma_lines_hold_no_end(s: Seq<char>, i: int)
    requires
        0 <= i < text::lines(s).len(),
    ensures
        !text::lines(s)[i].contains('\n'),
    decreases s.len(),
{
    text::lemma_find(s, '\n');
    let n = text::find(s, '\n');
    if n < s.len() {
        if i == 0 {
            let line = text::strip_cr(text::before(s, '\n'));
            assert forall|k: int| 0 <= k < line.len() implies line[k] != '\n' by {
                assert(line[k] == s[k]);
            }
        } else {
            lemma_lines_hold_no_end(s.skip(n + 1), i - 1);
            assert(text::lines(s)[i] == text::lines(s.skip(n + 1))[i - 1]);
        }
    }
}

/// The `Transport` lines among lines, in their order.
pub open spec fn transport_lines(lines: Seq<Seq<char>>) -> Seq<Seq<char>>
    decreases lines.len(),
{
    if lines.len() == 0 {
        Seq::empty()
    } else if text::starts_with_any_case(lines[0], "transport:"@) {
        seq![lines[0]] + transport_lines(lines.drop_first())
    } else {
        transport_lines(lines.drop_first())
    }
}

/// Lines as headers, each with its line end.
pub open spec fn as_headers(lines: Seq<Seq<char>>) -> Seq<char>
    decreases lines.len(),
{
    if lines.len() == 0 {
        Seq::empty()
    } else {
        lines[0] + "\r\n"@ + as_headers(lines.drop_first())
    }
}

/// One line more goes to the end.
pub proof fn lemma_one_line_more(lines: Seq<Seq<char>>, line: Seq<char>)
    ensures
        as_headers(lines.push(line)) == as_headers(lines) + line + "\r\n"@,
    decreases lines.len(),
{
    let all = lines.push(line);
    if lines.len() == 0 {
        assert(all.drop_first() == lines);
        assert(as_headers(lines) + line + "\r\n"@ == line + "\r\n"@ + as_headers(lines));
    } else {
        lemma_one_line_more(lines.drop_first(), line);
        assert(all.drop_first() == lines.drop_first().push(line));
        let rest = as_headers(lines.drop_first());
        assert(lines[0] + "\r\n"@ + (rest + line + "\r\n"@) == lines[0] + "\r\n"@ + rest + line
            + "\r\n"@);
    }
}

/// Lines written as headers are read as those lines.
pub proof fn law_headers_read_back(lines: Seq<Seq<char>>)
    requires
        forall|i: int| 0 <= i < lines.len() ==> !(#[trigger] lines[i]).contains('\n'),
    ensures
        text::lines(as_headers(lines)) == lines,
    decreases lines.len(),
{
    if lines.len() > 0 {
        let rest = lines.drop_first();
        assert forall|i: int| 0 <= i < rest.len() implies !(#[trigger] rest[i]).contains('\n') by {
            assert(rest[i] == lines[i + 1]);
        }
        law_headers_read_back(rest);
        lemma_line_before(lines[0], as_headers(rest));
        assert(seq![lines[0]] + rest == lines);
    }
}

/// Only `Transport` lines have parameters that count.
proof fn lemma_transport_lines(lines: Seq<Seq<char>>, a: Seq<char>, b: Seq<char>)
    requires
        forall|i: int| 0 <= i < lines.len() ==> !(#[trigger] lines[i]).contains('\n'),
    ensures
        transport_param(transport_lines(lines), a, b) == transport_param(lines, a, b),
        forall|i: int|
            0 <= i < transport_lines(lines).len() ==> !(
            #[trigger] transport_lines(lines)[i]).contains('\n'),
    decreases lines.len(),
{
    if lines.len() > 0 {
        let rest = lines.drop_first();
        assert forall|i: int| 0 <= i < rest.len() implies !(#[trigger] rest[i]).contains('\n') by {
            assert(rest[i] == lines[i + 1]);
        }
        lemma_transport_lines(rest, a, b);
        if text::starts_with_any_case(lines[0], "transport:"@) {
            let kept = transport_lines(lines);
            assert(kept.drop_first() == transport_lines(rest));
            assert forall|i: int| 0 <= i < kept.len() implies !(
            #[trigger] kept[i]).contains('\n') by {
                if i == 0 {
                    assert(kept[0] == lines[0]);
                } else {
                    assert(kept[i] == transport_lines(rest)[i - 1]);
                }
            }
        }
    }
}

/// Ports are read from `Transport` lines alone: the headers without all other lines give the same
/// ports, and headers without such a line give none.
pub proof fn law_only_transport_lines_count(headers: Seq<char>)
    ensures
        ({
            let kept = transport_lines(text::lines(headers));
            &&& text::lines(as_headers(kept)) == kept
            &&& server_port(as_headers(kept)) == server_port(headers)
            &&& timing_port(as_headers(kept)) == timing_port(headers)
            &&& kept.len() == 0 ==> server_port(headers) is None && timing_port(headers) is None
        }),
{
    let all = text::lines(headers);
    let kept = transport_lines(all);
    assert forall|i: int| 0 <= i < all.len() implies !(#[trigger] all[i]).contains('\n') by {
        lemma_lines_hold_no_end(headers, i);
    }
    lemma_transport_lines(all, "server_port="@, "Server_port="@);
    lemma_transport_lines(all, "timing_port="@, "Timing_port="@);
    law_headers_read_back(kept);
}

/// The first `server_port` that is found decides: where it is no port, none is read, whatever
/// follows.
pub proof fn law_first_server_port_decides(headers: Seq<char>, i: int)
    requires
        0 <= i < text::lines(headers).len(),
        text::starts_with_any_case(text::lines(headers)[i], "transport:"@),
        param_in(
            text::split(text::lines(headers)[i], ';'),
            "server_port="@,
            "Server_port="@,
        ) is Some,
        forall|j: int|
            0 <= j < i && text::starts_with_any_case(
                #[trigger] text::lines(headers)[j],
                "transport:"@,
            ) ==> param_in(
                text::split(text::lines(headers)[j], ';'),
                "server_port="@,
                "Server_port="@,
            ) is None,
    ensures
        server_port(headers) == text::parse_number(
            text::trim(
                text::before(
                    param_in(
                        text::split(text::lines(headers)[i], ';'),
                        "server_port="@,
                        "Server_port="@,
                    )->0,
                    '-',
                ),
            ),
            0xffff,
        ),
{
    law_first_transport_line_counts(text::lines(headers), i, "server_port="@, "Server_port="@);
}

/// The first `timing_port` that is found decides, in the same way.
pub proof fn law_first_timing_port_decides(headers: Seq<char>, i: int)
    requires
        0 <= i < text::lines(headers).len(),
        text::starts_with_any_case(text::lines(headers)[i], "transport:"@),
        param_in(
            text::split(text::lines(headers)[i], ';'),
            "timing_port="@,
            "Timing_port="@,
        ) is Some,
        forall|j: int|
            0 <= j < i && text::starts_with_any_case(
                #[trigger] text::lines(headers)[j],
                "transport:"@,
            ) ==> param_in(
                text::split(text::lines(headers)[j], ';'),
                "timing_port="@,
                "Timing_port="@,
            ) is None,
    ensures
        timing_port(headers) == text::parse_number(
            text::trim(
                param_in(
                    text::split(text::lines(headers)[i], ';'),
                    "timing_port="@,
                    "Timing_port="@,
                )->0,
            ),
            0xffff,
        ),
{
    law_first_transport_line_counts(text::lines(headers), i, "timing_port="@, "Timing_port="@);
}

/// White space goes from the end up to a character that is none.
proof fn lemma_trim_end(s: Seq<char>, k: int)
    requires
        0 < k <= s.len(),
        !text::is_space(s[k - 1]),
    ensures
        k <= text::trim_end(s).len() <= s.len(),
        text::trim_end(s) == s.take(text::trim_end(s).len() as int),
    decreases s.len(),
{
    if text::is_space(s.last()) {
        lemma_trim_end(s.drop_last(), k);
        let n = text::trim_end(s).len() as int;
        assert(s.drop_last().take(n) == s.take(n));
    } else {
        assert(s.take(s.len() as int) == s);
    }
}

/// A session's name is read from its header line, with the timeout behind it or without.
#[verifier::rlimit(50)]
pub proof fn law_session_id_reads_back(id: Seq<char>, timeout: Option<nat>)
    requires
        id.len() > 0,
        !id.contains(':'),
        !id.contains(';'),
        !id.contains('\n'),
        !text::is_space(id[0]),
        !text::is_space(id.last()),
    ensures
        session_id(
            "Session: "@ + id + match timeout {
                Some(n) => ";timeout="@ + text::decimal(n),
                None => Seq::<char>::empty(),
            } + "\r\n"@,
        ) == Some(id),
{
    reveal_strlit("Session: ");
    reveal_strlit("session:");
    reveal_strlit(";timeout=");
    let tail = match timeout {
        Some(n) => ";timeout="@ + text::decimal(n),
        None => Seq::<char>::empty(),
    };
    match timeout {
        Some(n) => text::lemma_decimal_value(n),
        None => {},
    }
    assert forall|i: int| 0 <= i < tail.len() implies tail[i] != ':' && tail[i] != '\n' by {
        if i >= 9 {
            assert(text::is_digit(text::decimal(timeout->0)[i - 9]));
        }
    }
    let line = "Session: "@ + id + tail;
    let value = id + tail;
    assert forall|i: int| 0 <= i < line.len() implies line[i] != '\n' by {
        if 9 <= i < 9 + id.len() {
            assert(id.contains(id[i - 9]));
        } else if i >= 9 + id.len() {
            assert(line[i] == tail[i - 9 - id.len()]);
        }
    }
    lemma_one_line(line);
    text::lemma_find_at(line, ':', 7);
    let rest = text::after(line, ':');
    assert(rest == seq![' '] + value);
    assert forall|i: int| 0 <= i < rest.len() implies rest[i] != ':' by {
        if 1 <= i < 1 + id.len() {
            assert(id.contains(id[i - 1]));
        } else if i >= 1 + id.len() {
            assert(rest[i] == tail[i - 1 - id.len()]);
        }
    }
    text::lemma_find_at(rest, ':', rest.len() as int);
    assert(text::before(rest, ':') == rest);
    assert(rest.drop_first() == value);
    assert(value[0] == id[0]);
    assert(text::trim_start(rest) == text::trim_start(value));
    assert(text::trim_start(value) == value);
    assert(!text::is_space(value.last())) by {
        match timeout {
            Some(n) => {
                assert(text::is_digit(text::decimal(n)[text::decimal(n).len() - 1]));
                assert(value.last() == text::decimal(n).last());
            },
            None => {
                assert(value.last() == id.last());
            },
        }
    }
    assert(field_value(line) == value);
    assert forall|i: int| 0 <= i < id.len() implies value[i] != ';' by {
        assert(id.contains(id[i]));
    }
    text::lemma_find_at(value, ';', id.len() as int);
    assert(text::before(value, ';') == id);
    assert(session_name(line) == id);
    assert(session_in(seq![line]) == Some(id));
}

/// The value of the second parameter of a `Transport` line, where it bears the name sought: it
/// begins with the digits of its number, and a hyphen is all that may follow them.
#[verifier::rlimit(50)]
proof fn lemma_transport_value(
    name: Seq<char>,
    other: Seq<char>,
    port: nat,
    tail: Seq<char>,
) -> (value: Seq<char>)
    requires
        name.len() > 1,
        other.len() > 1,
        name[1] != 'r',
        other[1] != 'r',
        forall|i: int| 0 <= i < name.len() ==> name[i] != ';' && name[i] != '\n',
        !text::is_space(name[0]),
        !tail.contains('\n'),
        tail.len() == 0 || tail[0] == ';' || tail[0] == '-',
    ensures
        transport_param(
            text::lines(
                "Transport: RTP/AVP/UDP;"@ + name + text::decimal(port) + tail + "\r\n"@,
            ),
            name,
            other,
        ) == Some(value),
        text::starts_with(value, text::decimal(port)),
        value.len() > text::decimal(port).len() ==> value[text::decimal(port).len() as int] == '-'
            && tail.len() > 0 && tail[0] == '-',
{
    reveal_strlit("Transport: RTP/AVP/UDP;");
    reveal_strlit("transport:");
    text::lemma_decimal_value(port);
    let digits = text::decimal(port);
    let head = "Transport: RTP/AVP/UDP;"@;
    let line = head + name + digits + tail;
    assert forall|i: int| 0 <= i < line.len() implies line[i] != '\n' by {
        let a = head.len();
        let b = a + name.len();
        let c = b + digits.len();
        if b <= i < c {
            assert(text::is_digit(digits[i - b]));
        } else if i >= c {
            assert(tail.contains(tail[i - c]));
            assert(line[i] == tail[i - c]);
        }
    }
    lemma_one_line(line);
    text::lemma_find_at(line, ';', 22);
    let first = text::before(line, ';');
    let rest = line.skip(23);
    assert(rest == name + digits + tail);
    assert(first.len() == 22 && first[0] == 'T' && first[1] == 'r' && first[21] == 'P');
    assert(text::trim_start(first) == first);
    assert(text::trim(first) == first);
    assert(!text::starts_with(first, name)) by {
        if text::starts_with(first, name) {
            assert(first.take(name.len() as int)[1] == 'r');
        }
    }
    assert(!text::starts_with(first, other)) by {
        if text::starts_with(first, other) {
            assert(first.take(other.len() as int)[1] == 'r');
        }
    }
    assert(text::split(line, ';') == seq![first] + text::split(rest, ';'));
    assert(text::split(line, ';').drop_first() == text::split(rest, ';'));
    let part = text::split(rest, ';')[0];
    let k = (name.len() + digits.len()) as int;
    text::lemma_find(rest, ';');
    text::lemma_find(tail, ';');
    assert forall|i: int| 0 <= i < k implies rest[i] != ';' by {
        if i >= name.len() {
            assert(text::is_digit(digits[i - name.len()]));
        }
    }
    assert(part == rest.take(text::find(rest, ';'))) by {
        if text::find(rest, ';') >= rest.len() {
            assert(rest.take(rest.len() as int) == rest);
        }
    }
    assert(text::find(rest, ';') >= k);
    assert(part[0] == name[0]);
    assert(text::trim_start(part) == part);
    assert(part[k - 1] == digits[digits.len() - 1]);
    assert(text::is_digit(digits[digits.len() - 1]));
    lemma_trim_end(part, k);
    let trimmed = text::trim(part);
    assert(trimmed.take(name.len() as int) == name);
    let value = trimmed.skip(name.len() as int);
    assert(value.take(digits.len() as int) == digits);
    if value.len() > digits.len() {
        assert(value[digits.len() as int] == rest[k]);
        assert(rest[k] == tail[0]);
    }
    assert(param_in(text::split(line, ';'), name, other) == param_in(
        text::split(rest, ';'),
        name,
        other,
    ));
    assert(text::starts_with_any_case(line, "transport:"@));
    assert(text::lines(line + "\r\n"@)[0] == line);
    value
}

/// The audio port is read from its header line, be it one port or the first of a range, and
/// whatever parameters follow.
pub proof fn law_server_port_reads_back(port: nat, tail: Seq<char>)
    requires
        port <= 0xffff,
        !tail.contains('\n'),
        tail.len() == 0 || tail[0] == ';' || tail[0] == '-',
    ensures
        server_port(
            "Transport: RTP/AVP/UDP;"@ + "server_port="@ + text::decimal(port) + tail + "\r\n"@,
        ) == Some(port),
{
    reveal_strlit("server_port=");
    reveal_strlit("Server_port=");
    let digits = text::decimal(port);
    let value = lemma_transport_value("server_port="@, "Server_port="@, port, tail);
    text::lemma_decimal_value(port);
    assert forall|i: int| 0 <= i < digits.len() implies value[i] != '-' by {
        assert(text::is_digit(digits[i]));
        assert(value.take(digits.len() as int)[i] == digits[i]);
    }
    text::lemma_find_at(value, '-', digits.len() as int);
    assert(text::before(value, '-') == digits);
    lemma_trim_digits(digits);
    text::law_decimal_reads_back(port, 0xffff);
}

/// The timing port is read from its header line, whatever parameters follow.
pub proof fn law_timing_port_reads_back(port: nat, tail: Seq<char>)
    requires
        port <= 0xffff,
        !tail.contains('\n'),
        tail.len() == 0 || tail[0] == ';',
    ensures
        timing_port(
            "Transport: RTP/AVP/UDP;"@ + "timing_port="@ + text::decimal(port) + tail + "\r\n"@,
        ) == Some(port),
{
    reveal_strlit("timing_port=");
    reveal_strlit("Timing_port=");
    let digits = text::decimal(port);
    let value = lemma_transport_value("timing_port="@, "Timing_port="@, port, tail);
    text::lemma_decimal_value(port);
    assert(value == value.take(digits.len() as int));
    lemma_trim_digits(digits);
    text::law_decimal_reads_back(port, 0xffff);
}

/// Digits have no white space around them.
proof fn lemma_trim_digits(digits: Seq<char>)
    requires
        text::all_digits(digits),
    ensures
        text::trim(digits) == digits,
{
    if digits.len() > 0 {
        assert(text::is_digit(digits[0]));
        assert(text::is_digit(digits[digits.len() - 1]));
        assert(text::trim_start(digits) == digits);
    }
}

/// The length of a body is read from its header line.
pub proof fn law_content_length_reads_back(n: nat)
    requires
        n <= usize::MAX,
    ensures
        content_length("Content-Length: "@ + text::decimal(n) + "\r\n"@) == Some(n),
{
    reveal_strlit("Content-Length: ");
    reveal_strlit("content-length:");
    text::lemma_decimal_value(n);
    let digits = text::decimal(n);
    let line = "Content-Length: "@ + digits;
    assert forall|i: int| 0 <= i < line.len() implies line[i] != '\n' by {
        if i >= 16 {
            assert(text::is_digit(digits[i - 16]));
        }
    }
    lemma_one_line(line);
    text::lemma_find_at(line, ':', 14);
    let rest = text::after(line, ':');
    assert(rest == seq![' '] + digits);
    assert forall|i: int| 0 <= i < rest.len() implies rest[i] != ':' by {
        if i >= 1 {
            assert(text::is_digit(digits[i - 1]));
        }
    }
    text::lemma_find_at(rest, ':', rest.len() as int);
    assert(text::before(rest, ':') == rest);
    assert(rest.drop_first() == digits);
    assert(text::is_digit(digits[0]));
    lemma_trim_digits(digits);
    assert(text::trim_start(digits) == digits);
    assert(text::trim_start(rest) == digits);
    assert(field_value(line) == digits);
    text::law_decimal_reads_back(n, usize::MAX as nat);
    assert(length_in(seq![line], usize::MAX as nat) == Some(n));
}

/// The first parameter with one of two names is the one that counts; what stands after the name is
/// its value. Without one there is no value.
pub proof fn law_first_parameter_counts(
    parts: Seq<Seq<char>>,
    a: Seq<char>,
    b: Seq<char>,
    i: int,
    value: Seq<char>,
)
    requires
        0 <= i <= parts.len(),
        forall|j: int|
            0 <= j < i ==> !text::starts_with(text::trim(#[trigger] parts[j]), a)
                && !text::starts_with(text::trim(parts[j]), b),
    ensures
        i == parts.len() ==> param_in(parts, a, b) is None,
        i < parts.len() && text::trim(parts[i]) == a + value ==> param_in(parts, a, b) == Some(
            value,
        ),
        i < parts.len() && text::trim(parts[i]) == b + value && !text::starts_with(b + value, a)
            ==> param_in(parts, a, b) == Some(value),
    decreases i,
{
    if i > 0 {
        let rest = parts.drop_first();
        assert forall|j: int| 0 <= j < i - 1 implies !text::starts_with(
            text::trim(#[trigger] rest[j]),
            a,
        ) && !text::starts_with(text::trim(rest[j]), b) by {
            assert(rest[j] == parts[j + 1]);
        }
        law_first_parameter_counts(rest, a, b, i - 1, value);
        assert(!text::starts_with(text::trim(parts[0]), a) && !text::starts_with(
            text::trim(parts[0]),
            b,
        ));
    } else if parts.len() > 0 {
        assert((a + value).take(a.len() as int) == a);
        assert((a + value).skip(a.len() as int) == value);
        assert((b + value).take(b.len() as int) == b);
        assert((b + value).skip(b.len() as int) == value);
    }
}

/// The first `Transport` line with a parameter is the one that counts; without one there is no
/// value.
pub proof fn law_first_transport_line_counts(
    lines: Seq<Seq<char>>,
    i: int,
    a: Seq<char>,
    b: Seq<char>,
)
    requires
        0 <= i <= lines.len(),
        forall|j: int|
            0 <= j < i && text::starts_with_any_case(#[trigger] lines[j], "transport:"@)
                ==> param_in(text::split(lines[j], ';'), a, b) is None,
    ensures
        i == lines.len() ==> transport_param(lines, a, b) is None,
        i < lines.len() && text::starts_with_any_case(lines[i], "transport:"@) && param_in(
            text::split(lines[i], ';'),
            a,
            b,
        ) is Some ==> transport_param(lines, a, b) == param_in(text::split(lines[i], ';'), a, b),
    decreases i,
{
    if i > 0 {
        let rest = lines.drop_first();
        assert forall|j: int|
            0 <= j < i - 1 && text::starts_with_any_case(#[trigger] rest[j], "transport:"@)
            implies param_in(text::split(rest[j], ';'), a, b) is None by {
            assert(rest[j] == lines[j + 1]);
        }
        law_first_transport_line_counts(rest, i - 1, a, b);
        assert(text::starts_with_any_case(lines[0], "transport:"@) ==> param_in(
            text::split(lines[0], ';'),
            a,
            b,
        ) is None);
    }
}

/// Where no `Transport` line has a port, none is read; else the first of each kind is.
pub proof fn law_ports_without_parameter(headers: Seq<char>)
    ensures
        transport_param(text::lines(headers), "server_port="@, "Server_port="@) is None
            ==> server_port(headers) is None,
        transport_param(text::lines(headers), "timing_port="@, "Timing_port="@) is None
            ==> timing_port(headers) is None,
        server_port(headers) matches Some(n) ==> n <= 65535,
        timing_port(headers) matches Some(n) ==> n <= 65535,
{
}

/// What a header line says is what stands between its first colon and the next, without white space
/// around it.
pub proof fn law_field_value(name: Seq<char>, value: Seq<char>, rest: Seq<char>)
    requires
        !name.contains(':'),
        !value.contains(':'),
        rest.len() == 0 || rest[0] == ':',
    ensures
        field_value(name + seq![':'] + value + rest) == text::trim(value),
{
    let line = name + seq![':'] + value + rest;
    assert forall|i: int| 0 <= i < name.len() implies line[i] != ':' by {
        assert(name.contains(name[i]));
    }
    text::lemma_find_at(line, ':', name.len() as int);
    let tail = text::after(line, ':');
    assert(tail == value + rest);
    assert forall|i: int| 0 <= i < value.len() implies tail[i] != ':' by {
        assert(value.contains(value[i]));
    }
    text::lemma_find_at(tail, ':', value.len() as int);
    assert(text::before(tail, ':') == value);
}

/// The session's name is what its line says before any semicolon.
pub proof fn law_session_name(line: Seq<char>, id: Seq<char>, rest: Seq<char>)
    requires
        field_value(line) == id + rest,
        !id.contains(';'),
        rest.len() == 0 || rest[0] == ';',
    ensures
        session_name(line) == text::trim(id),
{
    let value = id + rest;
    assert forall|i: int| 0 <= i < id.len() implies value[i] != ';' by {
        assert(id.contains(id[i]));
    }
    text::lemma_find_at(value, ';', id.len() as int);
    assert(text::before(value, ';') == id);
}

/// The first `Session` line with a name is the one that counts; without one there is no name.
pub proof fn law_first_session_line_counts(headers: Seq<char>, i: int)
    requires
        0 <= i <= text::lines(headers).len(),
        forall|j: int|
            0 <= j < i && text::starts_with_any_case(
                #[trigger] text::lines(headers)[j],
                "session:"@,
            ) ==> session_name(text::lines(headers)[j]).len() == 0,
    ensures
        i == text::lines(headers).len() ==> session_id(headers) is None,
        i < text::lines(headers).len() && text::starts_with_any_case(
            text::lines(headers)[i],
            "session:"@,
        ) && session_name(text::lines(headers)[i]).len() > 0 ==> session_id(headers) == Some(
            session_name(text::lines(headers)[i]),
        ),
{
    lemma_first_session(text::lines(headers), i);
}

/// The same, of lines.
proof fn lemma_first_session(lines: Seq<Seq<char>>, i: int)
    requires
        0 <= i <= lines.len(),
        forall|j: int|
            0 <= j < i && text::starts_with_any_case(#[trigger] lines[j], "session:"@)
                ==> session_name(lines[j]).len() == 0,
    ensures
        i == lines.len() ==> session_in(lines) is None,
        i < lines.len() && text::starts_with_any_case(lines[i], "session:"@) && session_name(
            lines[i],
        ).len() > 0 ==> session_in(lines) == Some(session_name(lines[i])),
    decreases i,
{
    if i > 0 {
        let rest = lines.drop_first();
        assert forall|j: int|
            0 <= j < i - 1 && text::starts_with_any_case(#[trigger] rest[j], "session:"@)
            implies session_name(rest[j]).len() == 0 by {
            assert(rest[j] == lines[j + 1]);
        }
        lemma_first_session(rest, i - 1);
        assert(text::starts_with_any_case(lines[0], "session:"@) ==> session_name(lines[0]).len()
            == 0);
    }
}

/// The first `Content-Length` line is the one that counts, be it a number or not; without one there
/// is no length.
pub proof fn law_first_content_length_counts(headers: Seq<char>, i: int)
    requires
        0 <= i <= text::lines(headers).len(),
        forall|j: int|
            0 <= j < i ==> !text::starts_with_any_case(
                #[trigger] text::lines(headers)[j],
                "content-length:"@,
            ),
    ensures
        i == text::lines(headers).len() ==> content_length(headers) is None,
        i < text::lines(headers).len() && text::starts_with_any_case(
            text::lines(headers)[i],
            "content-length:"@,
        ) ==> content_length(headers) == text::parse_number(
            field_value(text::lines(headers)[i]),
            usize::MAX as nat,
        ),
{
    lemma_first_length(text::lines(headers), i);
}

/// The same, of lines.
proof fn lemma_first_length(lines: Seq<Seq<char>>, i: int)
    requires
        0 <= i <= lines.len(),
        forall|j: int|
            0 <= j < i ==> !text::starts_with_any_case(#[trigger] lines[j], "content-length:"@),
    ensures
        i == lines.len() ==> length_in(lines, usize::MAX as nat) is None,
        i < lines.len() && text::starts_with_any_case(lines[i], "content-length:"@) ==> length_in(
            lines,
            usize::MAX as nat,
        ) == text::parse_number(field_value(lines[i]), usize::MAX as nat),
    decreases i,
{
    if i > 0 {
        let rest = lines.drop_first();
        assert forall|j: int| 0 <= j < i - 1 implies !text::starts_with_any_case(
            #[trigger] rest[j],
            "content-length:"@,
        ) by {
            assert(rest[j] == lines[j + 1]);
        }
        lemma_first_length(rest, i - 1);
        assert(!text::starts_with_any_case(lines[0], "content-length:"@));
    }
}

} // verus!
