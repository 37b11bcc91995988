//! The RTSP requests of a session, as they are written.

use crate::headers;
use crate::text;
use vstd::prelude::*;
use vstd::string::*;
use vstd::utf8::*;

verus! {

/// The bytes that a text takes.
pub open spec fn byte_len(s: Seq<char>) -> nat {
    encode_utf8(s).len()
}

/// The stream's address at the receiver.
pub open spec fn stream_url(address: Seq<char>, port: nat, ssrc: nat) -> Seq<char> {
    "rtsp://"@ + address + ":"@ + text::decimal(port) + "/"@ + text::decimal(ssrc)
}

/// OPTIONS, with a challenge for the receiver to answer.
pub open spec fn options_request(
    cseq: nat,
    client: Seq<char>,
    ssrc: nat,
    challenge: Seq<char>,
) -> Seq<char> {
    headers::as_headers(
        seq![
            "OPTIONS * RTSP/1.0"@,
            "CSeq: "@ + text::decimal(cseq),
            "User-Agent: iTunes/12.0 (Macintosh)"@,
            "Client-Instance: "@ + client,
            "DACP-ID: "@ + client,
            "Active-Remote: "@ + text::decimal(ssrc),
            "Apple-Challenge: "@ + challenge,
            Seq::empty(),
        ],
    )
}

/// OPTIONS within a session, to keep the connection open.
pub open spec fn keepalive_request(cseq: nat, session: Seq<char>) -> Seq<char> {
    headers::as_headers(
        seq![
            "OPTIONS * RTSP/1.0"@,
            "CSeq: "@ + text::decimal(cseq),
            "User-Agent: iTunes/12.0 (Macintosh)"@,
            "Session: "@ + session,
            Seq::empty(),
        ],
    )
}

/// The start of pairing; a public key of so many bytes follows.
pub open spec fn pair_setup_request(cseq: nat, key_len: nat) -> Seq<char> {
    headers::as_headers(
        seq![
            "POST /pair-setup RTSP/1.0"@,
            "CSeq: "@ + text::decimal(cseq),
            "User-Agent: OuterTune/1.0"@,
            "Content-Type: application/octet-stream"@,
            "Content-Length: "@ + text::decimal(key_len),
            Seq::empty(),
        ],
    )
}

/// The start of pairing without a PIN, for a receiver that asks for one.
pub open spec fn pin_start_request(cseq: nat) -> Seq<char> {
    headers::as_headers(
        seq![
            "POST /pair-pin-start RTSP/1.0"@,
            "CSeq: "@ + text::decimal(cseq),
            "User-Agent: OuterTune/1.0"@,
            "Content-Length: 0"@,
            Seq::empty(),
        ],
    )
}

/// The description of the audio: ALAC frames of 352 samples, 16 bits, stereo, 44100 Hz.
pub open spec fn audio_description(local_address: Seq<char>) -> Seq<char> {
    headers::as_headers(
        seq![
            "v=0"@,
            "o=iTunes 1 1 IN IP4 "@ + local_address,
            "s=iTunes"@,
            "c=IN IP4 "@ + local_address,
            "t=0 0"@,
            "m=audio 0 RTP/AVP 96"@,
            "a=rtpmap:96 AppleLossless"@,
            "a=fmtp:96 352 0 16 40 10 14 2 255 0 0 44100"@,
        ],
    )
}

/// ANNOUNCE up to its body, which takes `body_len` bytes.
pub open spec fn announce_head(
    url: Seq<char>,
    cseq: nat,
    body_len: nat,
    client: Seq<char>,
) -> Seq<char> {
    headers::as_headers(
        seq![
            "ANNOUNCE "@ + url + " RTSP/1.0"@,
            "CSeq: "@ + text::decimal(cseq),
            "Content-Type: application/sdp"@,
            "Content-Length: "@ + text::decimal(body_len),
            "User-Agent: iTunes/12.0 (Macintosh)"@,
            "Client-Instance: "@ + client,
            Seq::empty(),
        ],
    )
}

/// ANNOUNCE, with the description of the audio.
pub open spec fn announce_request(
    url: Seq<char>,
    cseq: nat,
    client: Seq<char>,
    description: Seq<char>,
) -> Seq<char> {
    announce_head(url, cseq, byte_len(description), client) + description
}

/// SETUP, with the ports that the session listens on.
pub open spec fn setup_request(
    url: Seq<char>,
    cseq: nat,
    control_port: nat,
    timing_port: nat,
    client: Seq<char>,
) -> Seq<char> {
    headers::as_headers(
        seq![
            "SETUP "@ + url + " RTSP/1.0"@,
            "CSeq: "@ + text::decimal(cseq),
            "Transport: RTP/AVP/UDP;unicast;interleaved=0-1;mode=record;control_port="@
                + text::decimal(control_port) + ";timing_port="@ + text::decimal(timing_port),
            "User-Agent: iTunes/12.0 (Macintosh)"@,
            "Client-Instance: "@ + client,
            Seq::empty(),
        ],
    )
}

/// RECORD, which starts the playback at a sequence number and a timestamp.
pub open spec fn record_request(
    url: Seq<char>,
    cseq: nat,
    seq: nat,
    timestamp: nat,
    session: Seq<char>,
) -> Seq<char> {
    headers::as_headers(
        seq![
            "RECORD "@ + url + " RTSP/1.0"@,
            "CSeq: "@ + text::decimal(cseq),
            "Range: npt=0-"@,
            "RTP-Info: url="@ + url + ";seq="@ + text::decimal(seq) + ";rtptime="@
                + text::decimal(timestamp),
            "User-Agent: iTunes/12.0 (Macintosh)"@,
            "Session: "@ + session,
            Seq::empty(),
        ],
    )
}

/// TEARDOWN, which ends the session.
pub open spec fn teardown_request(url: Seq<char>, cseq: nat, session: Seq<char>) -> Seq<char> {
    headers::as_headers(
        seq![
            "TEARDOWN "@ + url + " RTSP/1.0"@,
            "CSeq: "@ + text::decimal(cseq),
            "User-Agent: iTunes/12.0 (Macintosh)"@,
            "Session: "@ + session,
            Seq::empty(),
        ],
    )
}

/// The body of a request for a volume, which `db` gives in dB.
pub open spec fn volume_body(db: Seq<char>) -> Seq<char> {
    "volume: "@ + db + "\r\n"@
}

/// SET_PARAMETER up to its body, which takes `body_len` bytes.
pub open spec fn set_parameter_head(
    address: Seq<char>,
    port: nat,
    cseq: nat,
    body_len: nat,
) -> Seq<char> {
    headers::as_headers(
        seq![
            "SET_PARAMETER rtsp://"@ + address + ":"@ + text::decimal(port) + "/audio RTSP/1.0"@,
            "CSeq: "@ + text::decimal(cseq),
            "User-Agent: OuterTune/1.0"@,
            "Content-Type: text/parameters"@,
            "Content-Length: "@ + text::decimal(body_len),
            Seq::empty(),
        ],
    )
}

/// SET_PARAMETER, with a volume.
pub open spec fn volume_request(
    address: Seq<char>,
    port: nat,
    cseq: nat,
    db: Seq<char>,
) -> Seq<char> {
    set_parameter_head(address, port, cseq, byte_len(volume_body(db))) + volume_body(db)
}

/// The bytes that a text takes.
fn text_byte_len(s: &str) -> (r: u64)
    ensures
        r == byte_len(s@),
{
    s.as_bytes().len() as u64
}

/// A message in the making, line by line.
struct Message {
    text: String,
    lines: Ghost<Seq<Seq<char>>>,
}

impl Message {
    /// The text is made of the lines.
    spec fn wf(&self) -> bool {
        self.text@ == headers::as_headers(self.lines@)
    }

    /// A message without lines.
    fn new() -> (r: Self)
        ensures
            r.wf(),
            r.lines@ == Seq::<Seq<char>>::empty(),
    {
        Message { text: String::new(), lines: Ghost(Seq::empty()) }
    }

    /// One more line.
    fn line(&mut self, line: &str)
        requires
            old(self).wf(),
        ensures
            final(self).wf(),
            final(self).lines@ == old(self).lines@.push(line@),
    {
        self.text.append(line);
        self.text.append("\r\n");
        proof {
            headers::lemma_one_line_more(self.lines@, line@);
            self.lines@ = self.lines@.push(line@);
        }
    }

    /// One more line: a name with what separates it, and its value.
    fn field(&mut self, name: &str, value: &str)
        requires
            old(self).wf(),
        ensures
            final(self).wf(),
            final(self).lines@ == old(self).lines@.push(name@ + value@),
    {
        let mut line: String = String::from_str(name);
        line.append(value);
        self.line(line.as_str());
    }

    /// One more line: a name with what separates it, and a number.
    fn number(&mut self, name: &str, value: u64)
        requires
            old(self).wf(),
        ensures
            final(self).wf(),
            final(self).lines@ == old(self).lines@.push(name@ + text::decimal(value as nat)),
    {
        let mut line: String = String::from_str(name);
        text::push_decimal(&mut line, value);
        self.line(line.as_str());
    }

    /// One more line: what is asked of which address.
    fn request(&mut self, method: &str, url: &str)
        requires
            old(self).wf(),
        ensures
            final(self).wf(),
            final(self).lines@ == old(self).lines@.push(method@ + url@ + " RTSP/1.0"@),
    {
        let mut line: String = String::from_str(method);
        line.append(url);
        line.append(" RTSP/1.0");
        self.line(line.as_str());
    }
}

/// The stream's address at the receiver.
pub fn write_url(address: &str, port: u16, ssrc: u32) -> (r: String)
    ensures
        r@ == stream_url(address@, port as nat, ssrc as nat),
{
    let mut out: String = String::from_str("rtsp://");
    out.append(address);
    out.append(":");
    text::push_decimal(&mut out, port as u64);
    out.append("/");
    text::push_decimal(&mut out, ssrc as u64);
    out
}

/// OPTIONS, with a challenge for the receiver to answer.
pub fn write_options(cseq: u32, client: &str, ssrc: u32, challenge: &str) -> (r: String)
    ensures
        r@ == options_request(cseq as nat, client@, ssrc as nat, challenge@),
{
    let mut m: Message = Message::new();
    m.line("OPTIONS * RTSP/1.0");
    m.number("CSeq: ", cseq as u64);
    m.line("User-Agent: iTunes/12.0 (Macintosh)");
    m.field("Client-Instance: ", client);
    m.field("DACP-ID: ", client);
    m.number("Active-Remote: ", ssrc as u64);
    m.field("Apple-Challenge: ", challenge);
    m.line("");
    proof {
        reveal_strlit("");
        assert(""@ == Seq::<char>::empty());
        let l0 = "OPTIONS * RTSP/1.0"@;
        let l1 = "CSeq: "@ + text::decimal(cseq as nat);
        let l2 = "User-Agent: iTunes/12.0 (Macintosh)"@;
        let l3 = "Client-Instance: "@ + client@;
        let l4 = "DACP-ID: "@ + client@;
        let l5 = "Active-Remote: "@ + text::decimal(ssrc as nat);
        let l6 = "Apple-Challenge: "@ + challenge@;
        let l7 = Seq::<char>::empty();
        assert(m.lines@ =~~= seq![l0, l1, l2, l3, l4, l5, l6, l7]);
    }
    m.text
}

/// OPTIONS within a session, to keep the connection open.
pub fn write_keepalive(cseq: u32, session: &str) -> (r: String)
    ensures
        r@ == keepalive_request(cseq as nat, session@),
{
    let mut m: Message = Message::new();
    m.line("OPTIONS * RTSP/1.0");
    m.number("CSeq: ", cseq as u64);
    m.line("User-Agent: iTunes/12.0 (Macintosh)");
    m.field("Session: ", session);
    m.line("");
    proof {
        reveal_strlit("");
        assert(""@ == Seq::<char>::empty());
        let l0 = "OPTIONS * RTSP/1.0"@;
        let l1 = "CSeq: "@ + text::decimal(cseq as nat);
        let l2 = "User-Agent: iTunes/12.0 (Macintosh)"@;
        let l3 = "Session: "@ + session@;
        let l4 = Seq::<char>::empty();
        assert(m.lines@ =~~= seq![l0, l1, l2, l3, l4]);
    }
    m.text
}

/// The start of pairing; a public key of so many bytes follows.
pub fn write_pair_setup(cseq: u32, key_len: usize) -> (r: String)
    ensures
        r@ == pair_setup_request(cseq as nat, key_len as nat),
{
    let mut m: Message = Message::new();
    m.line("POST /pair-setup RTSP/1.0");
    m.number("CSeq: ", cseq as u64);
    m.line("User-Agent: OuterTune/1.0");
    m.line("Content-Type: application/octet-stream");
    m.number("Content-Length: ", key_len as u64);
    m.line("");
    proof {
        reveal_strlit("");
        assert(""@ == Seq::<char>::empty());
        let l0 = "POST /pair-setup RTSP/1.0"@;
        let l1 = "CSeq: "@ + text::decimal(cseq as nat);
        let l2 = "User-Agent: OuterTune/1.0"@;
        let l3 = "Content-Type: application/octet-stream"@;
        let l4 = "Content-Length: "@ + text::decimal(key_len as nat);
        let l5 = Seq::<char>::empty();
        assert(m.lines@ =~~= seq![l0, l1, l2, l3, l4, l5]);
    }
    m.text
}

/// The start of pairing without a PIN.
pub fn write_pin_start(cseq: u32) -> (r: String)
    ensures
        r@ == pin_start_request(cseq as nat),
{
    let mut m: Message = Message::new();
    m.line("POST /pair-pin-start RTSP/1.0");
    m.number("CSeq: ", cseq as u64);
    m.line("User-Agent: OuterTune/1.0");
    m.line("Content-Length: 0");
    m.line("");
    proof {
        reveal_strlit("");
        assert(""@ == Seq::<char>::empty());
        let l0 = "POST /pair-pin-start RTSP/1.0"@;
        let l1 = "CSeq: "@ + text::decimal(cseq as nat);
        let l2 = "User-Agent: OuterTune/1.0"@;
        let l3 = "Content-Length: 0"@;
        let l4 = Seq::<char>::empty();
        assert(m.lines@ =~~= seq![l0, l1, l2, l3, l4]);
    }
    m.text
}

/// The description of the audio.
pub fn write_description(local_address: &str) -> (r: String)
    ensures
        r@ == audio_description(local_address@),
{
    let mut m: Message = Message::new();
    m.line("v=0");
    m.field("o=iTunes 1 1 IN IP4 ", local_address);
    m.line("s=iTunes");
    m.field("c=IN IP4 ", local_address);
    m.line("t=0 0");
    m.line("m=audio 0 RTP/AVP 96");
    m.line("a=rtpmap:96 AppleLossless");
    m.line("a=fmtp:96 352 0 16 40 10 14 2 255 0 0 44100");
    proof {
        let l0 = "v=0"@;
        let l1 = "o=iTunes 1 1 IN IP4 "@ + local_address@;
        let l2 = "s=iTunes"@;
        let l3 = "c=IN IP4 "@ + local_address@;
        let l4 = "t=0 0"@;
        let l5 = "m=audio 0 RTP/AVP 96"@;
        let l6 = "a=rtpmap:96 AppleLossless"@;
        let l7 = "a=fmtp:96 352 0 16 40 10 14 2 255 0 0 44100"@;
        assert(m.lines@ =~~= seq![l0, l1, l2, l3, l4, l5, l6, l7]);
    }
    m.text
}

/// ANNOUNCE, with the description of the audio.
pub fn write_announce(url: &str, cseq: u32, client: &str, description: &str) -> (r: String)
    ensures
        r@ == announce_request(url@, cseq as nat, client@, description@),
{
    let mut m: Message = Message::new();
    m.request("ANNOUNCE ", url);
    m.number("CSeq: ", cseq as u64);
    m.line("Content-Type: application/sdp");
    m.number("Content-Length: ", text_byte_len(description));
    m.line("User-Agent: iTunes/12.0 (Macintosh)");
    m.field("Client-Instance: ", client);
    m.line("");
    proof {
        reveal_strlit("");
        assert(""@ == Seq::<char>::empty());
        let l0 = "ANNOUNCE "@ + url@ + " RTSP/1.0"@;
        let l1 = "CSeq: "@ + text::decimal(cseq as nat);
        let l2 = "Content-Type: application/sdp"@;
        let l3 = "Content-Length: "@ + text::decimal(byte_len(description@));
        let l4 = "User-Agent: iTunes/12.0 (Macintosh)"@;
        let l5 = "Client-Instance: "@ + client@;
        let l6 = Seq::<char>::empty();
        assert(m.lines@ =~~= seq![l0, l1, l2, l3, l4, l5, l6]);
    }
    let mut out: String = m.text;
    out.append(description);
    out
}

/// SETUP, with the ports that the session listens on.
pub fn write_setup(url: &str, cseq: u32, control_port: u16, timing_port: u16, client: &str) -> (r: String)
    ensures
        r@ == setup_request(url@, cseq as nat, control_port as nat, timing_port as nat, client@),
{
    let mut m: Message = Message::new();
    m.request("SETUP ", url);
    m.number("CSeq: ", cseq as u64);
    let mut transport: String = String::from_str(
        "Transport: RTP/AVP/UDP;unicast;interleaved=0-1;mode=record;control_port=",
    );
    text::push_decimal(&mut transport, control_port as u64);
    transport.append(";timing_port=");
    m.number(transport.as_str(), timing_port as u64);
    m.line("User-Agent: iTunes/12.0 (Macintosh)");
    m.field("Client-Instance: ", client);
    m.line("");
    proof {
        reveal_strlit("");
        assert(""@ == Seq::<char>::empty());
        let l0 = "SETUP "@ + url@ + " RTSP/1.0"@;
        let l1 = "CSeq: "@ + text::decimal(cseq as nat);
        let l2 = "Transport: RTP/AVP/UDP;unicast;interleaved=0-1;mode=record;control_port="@
            + text::decimal(control_port as nat) + ";timing_port="@
            + text::decimal(timing_port as nat);
        let l3 = "User-Agent: iTunes/12.0 (Macintosh)"@;
        let l4 = "Client-Instance: "@ + client@;
        let l5 = Seq::<char>::empty();
        assert(m.lines@ =~~= seq![l0, l1, l2, l3, l4, l5]);
    }
    m.text
}

/// RECORD, which starts the playback.
pub fn write_record(url: &str, cseq: u32, seq: u16, timestamp: u32, session: &str) -> (r: String)
    ensures
        r@ == record_request(url@, cseq as nat, seq as nat, timestamp as nat, session@),
{
    let mut m: Message = Message::new();
    m.request("RECORD ", url);
    m.number("CSeq: ", cseq as u64);
    m.line("Range: npt=0-");
    let mut info: String = String::from_str("RTP-Info: url=");
    info.append(url);
    info.append(";seq=");
    text::push_decimal(&mut info, seq as u64);
    info.append(";rtptime=");
    m.number(info.as_str(), timestamp as u64);
    m.line("User-Agent: iTunes/12.0 (Macintosh)");
    m.field("Session: ", session);
    m.line("");
    proof {
        reveal_strlit("");
        assert(""@ == Seq::<char>::empty());
        let l0 = "RECORD "@ + url@ + " RTSP/1.0"@;
        let l1 = "CSeq: "@ + text::decimal(cseq as nat);
        let l2 = "Range: npt=0-"@;
        let l3 = "RTP-Info: url="@ + url@ + ";seq="@ + text::decimal(seq as nat) + ";rtptime="@
            + text::decimal(timestamp as nat);
        let l4 = "User-Agent: iTunes/12.0 (Macintosh)"@;
        let l5 = "Session: "@ + session@;
        let l6 = Seq::<char>::empty();
        assert(m.lines@ =~~= seq![l0, l1, l2, l3, l4, l5, l6]);
    }
    m.text
}

/// TEARDOWN, which ends the session.
pub fn write_teardown(url: &str, cseq: u32, session: &str) -> (r: String)
    ensures
        r@ == teardown_request(url@, cseq as nat, session@),
{
    let mut m: Message = Message::new();
    m.request("TEARDOWN ", url);
    m.number("CSeq: ", cseq as u64);
    m.line("User-Agent: iTunes/12.0 (Macintosh)");
    m.field("Session: ", session);
    m.line("");
    proof {
        reveal_strlit("");
        assert(""@ == Seq::<char>::empty());
        let l0 = "TEARDOWN "@ + url@ + " RTSP/1.0"@;
        let l1 = "CSeq: "@ + text::decimal(cseq as nat);
        let l2 = "User-Agent: iTunes/12.0 (Macintosh)"@;
        let l3 = "Session: "@ + session@;
        let l4 = Seq::<char>::empty();
        assert(m.lines@ =~~= seq![l0, l1, l2, l3, l4]);
    }
    m.text
}

/// SET_PARAMETER, with a volume in dB.
pub fn write_volume(address: &str, port: u16, cseq: u32, db: &str) -> (r: String)
    ensures
        r@ == volume_request(address@, port as nat, cseq as nat, db@),
{
    let mut m: Message = Message::new();
    let mut body: String = String::from_str("volume: ");
    body.append(db);
    body.append("\r\n");
    let mut first: String = String::from_str("SET_PARAMETER rtsp://");
    first.append(address);
    first.append(":");
    text::push_decimal(&mut first, port as u64);
    first.append("/audio RTSP/1.0");
    m.line(first.as_str());
    m.number("CSeq: ", cseq as u64);
    m.line("User-Agent: OuterTune/1.0");
    m.line("Content-Type: text/parameters");
    m.number("Content-Length: ", text_byte_len(body.as_str()));
    m.line("");
    proof {
        reveal_strlit("");
        assert(""@ == Seq::<char>::empty());
        let l0 = "SET_PARAMETER rtsp://"@ + address@ + ":"@ + text::decimal(port as nat)
            + "/audio RTSP/1.0"@;
        let l1 = "CSeq: "@ + text::decimal(cseq as nat);
        let l2 = "User-Agent: OuterTune/1.0"@;
        let l3 = "Content-Type: text/parameters"@;
        let l4 = "Content-Length: "@ + text::decimal(byte_len(volume_body(db@)));
        let l5 = Seq::<char>::empty();
        assert(m.lines@ =~~= seq![l0, l1, l2, l3, l4, l5]);
    }
    let mut out: String = m.text;
    out.append(body.as_str());
    out
}

/// The bytes of two texts together are the bytes of one and then of the other.
proof fn lemma_bytes_of_both(a: Seq<char>, b: Seq<char>)
    ensures
        encode_utf8(a + b) == encode_utf8(a) + encode_utf8(b),
    decreases a.len(),
{
    if a.len() == 0 {
        assert(a + b == b);
        assert(encode_utf8(a) + encode_utf8(b) == encode_utf8(b));
    } else {
        lemma_bytes_of_both(a.drop_first(), b);
        assert((a + b).drop_first() == a.drop_first() + b);
        assert(encode_utf8(a + b) == encode_utf8(a) + encode_utf8(b));
    }
}

/// An ANNOUNCE ends, in bytes, with a body of just the length that its head announces.
pub proof fn law_announce_length(
    url: Seq<char>,
    cseq: nat,
    client: Seq<char>,
    description: Seq<char>,
)
    ensures
        ({
            let n = encode_utf8(description).len();
            encode_utf8(announce_request(url, cseq, client, description)) == encode_utf8(
                announce_head(url, cseq, n, client),
            ) + encode_utf8(description)
        }),
{
    lemma_bytes_of_both(
        announce_head(url, cseq, byte_len(description), client),
        description,
    );
}

/// A request for a volume ends, in bytes, with a body of just the length that its head announces.
pub proof fn law_volume_length(address: Seq<char>, port: nat, cseq: nat, db: Seq<char>)
    ensures
        ({
            let n = encode_utf8(volume_body(db)).len();
            encode_utf8(volume_request(address, port, cseq, db)) == encode_utf8(
                set_parameter_head(address, port, cseq, n),
            ) + encode_utf8(volume_body(db))
        }),
{
    lemma_bytes_of_both(
        set_parameter_head(address, port, cseq, byte_len(volume_body(db))),
        volume_body(db),
    );
}

/// Whether a text is one line at most.
pub open spec fn on_one_line(s: Seq<char>) -> bool {
    !s.contains('\n')
}

/// One line and another are one line.
proof fn lemma_on_one_line(a: Seq<char>, b: Seq<char>)
    requires
        on_one_line(a),
        on_one_line(b),
    ensures
        on_one_line(a + b),
{
    if (a + b).contains('\n') {
        let k = (a + b).index_of('\n');
        if k < a.len() {
            assert(a[k] == '\n');
        } else {
            assert(b[k - a.len()] == '\n');
        }
    }
}

/// A number is one line.
proof fn lemma_number_on_one_line(n: nat)
    ensures
        on_one_line(text::decimal(n)),
{
    text::lemma_decimal_value(n);
    if text::decimal(n).contains('\n') {
        let k = text::decimal(n).index_of('\n');
        assert(text::is_digit(text::decimal(n)[k]));
    }
}

/// The stream's address names the receiver, its port and the stream, in one line.
pub proof fn law_stream_url(address: Seq<char>, port: nat, ssrc: nat)
    ensures
        stream_url(address, port, ssrc) == "rtsp://"@ + address + ":"@ + text::decimal(port) + "/"@
            + text::decimal(ssrc),
        on_one_line(address) ==> on_one_line(stream_url(address, port, ssrc)),
{
    if on_one_line(address) {
        reveal_strlit("rtsp://");
        reveal_strlit(":");
        reveal_strlit("/");
        lemma_number_on_one_line(port);
        lemma_number_on_one_line(ssrc);
        lemma_on_one_line("rtsp://"@, address);
        lemma_on_one_line("rtsp://"@ + address, ":"@);
        lemma_on_one_line("rtsp://"@ + address + ":"@, text::decimal(port));
        lemma_on_one_line("rtsp://"@ + address + ":"@ + text::decimal(port), "/"@);
        lemma_on_one_line(
            "rtsp://"@ + address + ":"@ + text::decimal(port) + "/"@,
            text::decimal(ssrc),
        );
    }
}

/// OPTIONS is read as these lines, the last of them empty.
pub proof fn law_options_lines(cseq: nat, client: Seq<char>, ssrc: nat, challenge: Seq<char>)
    requires
        on_one_line(client),
        on_one_line(challenge),
    ensures
        text::lines(options_request(cseq, client, ssrc, challenge)) == seq![
            "OPTIONS * RTSP/1.0"@,
            "CSeq: "@ + text::decimal(cseq),
            "User-Agent: iTunes/12.0 (Macintosh)"@,
            "Client-Instance: "@ + client,
            "DACP-ID: "@ + client,
            "Active-Remote: "@ + text::decimal(ssrc),
            "Apple-Challenge: "@ + challenge,
            Seq::empty(),
        ],
{
    let l0 = "OPTIONS * RTSP/1.0"@;
    assert(on_one_line(l0)) by {
        reveal_strlit("OPTIONS * RTSP/1.0");
    }
    let l1 = "CSeq: "@ + text::decimal(cseq);
    assert(on_one_line(l1)) by {
        reveal_strlit("CSeq: ");
        lemma_number_on_one_line(cseq);
        lemma_on_one_line("CSeq: "@, text::decimal(cseq));
    }
    let l2 = "User-Agent: iTunes/12.0 (Macintosh)"@;
    assert(on_one_line(l2)) by {
        reveal_strlit("User-Agent: iTunes/12.0 (Macintosh)");
    }
    let l3 = "Client-Instance: "@ + client;
    assert(on_one_line(l3)) by {
        reveal_strlit("Client-Instance: ");
        lemma_on_one_line("Client-Instance: "@, client);
    }
    let l4 = "DACP-ID: "@ + client;
    assert(on_one_line(l4)) by {
        reveal_strlit("DACP-ID: ");
        lemma_on_one_line("DACP-ID: "@, client);
    }
    let l5 = "Active-Remote: "@ + text::decimal(ssrc);
    assert(on_one_line(l5)) by {
        reveal_strlit("Active-Remote: ");
        lemma_number_on_one_line(ssrc);
        lemma_on_one_line("Active-Remote: "@, text::decimal(ssrc));
    }
    let l6 = "Apple-Challenge: "@ + challenge;
    assert(on_one_line(l6)) by {
        reveal_strlit("Apple-Challenge: ");
        lemma_on_one_line("Apple-Challenge: "@, challenge);
    }
    let l7 = Seq::<char>::empty();
    let all = seq![l0, l1, l2, l3, l4, l5, l6, l7];
    assert forall|i: int| 0 <= i < all.len() implies !(#[trigger] all[i]).contains('\n') by {
        assert(on_one_line(all[i]));
    }
    headers::law_headers_read_back(all);
}

/// A sign of life is read as these lines, the last of them empty.
pub proof fn law_keepalive_lines(cseq: nat, session: Seq<char>)
    requires
        on_one_line(session),
    ensures
        text::lines(keepalive_request(cseq, session)) == seq![
            "OPTIONS * RTSP/1.0"@,
            "CSeq: "@ + text::decimal(cseq),
            "User-Agent: iTunes/12.0 (Macintosh)"@,
            "Session: "@ + session,
            Seq::empty(),
        ],
{
    let l0 = "OPTIONS * RTSP/1.0"@;
    assert(on_one_line(l0)) by {
        reveal_strlit("OPTIONS * RTSP/1.0");
    }
    let l1 = "CSeq: "@ + text::decimal(cseq);
    assert(on_one_line(l1)) by {
        reveal_strlit("CSeq: ");
        lemma_number_on_one_line(cseq);
        lemma_on_one_line("CSeq: "@, text::decimal(cseq));
    }
    let l2 = "User-Agent: iTunes/12.0 (Macintosh)"@;
    assert(on_one_line(l2)) by {
        reveal_strlit("User-Agent: iTunes/12.0 (Macintosh)");
    }
    let l3 = "Session: "@ + session;
    assert(on_one_line(l3)) by {
        reveal_strlit("Session: ");
        lemma_on_one_line("Session: "@, session);
    }
    let l4 = Seq::<char>::empty();
    let all = seq![l0, l1, l2, l3, l4];
    assert forall|i: int| 0 <= i < all.len() implies !(#[trigger] all[i]).contains('\n') by {
        assert(on_one_line(all[i]));
    }
    headers::law_headers_read_back(all);
}

/// The start of pairing is read as these lines, the last of them empty.
pub proof fn law_pair_setup_lines(cseq: nat, key_len: nat)
    ensures
        text::lines(pair_setup_request(cseq, key_len)) == seq![
            "POST /pair-setup RTSP/1.0"@,
            "CSeq: "@ + text::decimal(cseq),
            "User-Agent: OuterTune/1.0"@,
            "Content-Type: application/octet-stream"@,
            "Content-Length: "@ + text::decimal(key_len),
            Seq::empty(),
        ],
{
    let l0 = "POST /pair-setup RTSP/1.0"@;
    assert(on_one_line(l0)) by {
        reveal_strlit("POST /pair-setup RTSP/1.0");
    }
    let l1 = "CSeq: "@ + text::decimal(cseq);
    assert(on_one_line(l1)) by {
        reveal_strlit("CSeq: ");
        lemma_number_on_one_line(cseq);
        lemma_on_one_line("CSeq: "@, text::decimal(cseq));
    }
    let l2 = "User-Agent: OuterTune/1.0"@;
    assert(on_one_line(l2)) by {
        reveal_strlit("User-Agent: OuterTune/1.0");
    }
    let l3 = "Content-Type: application/octet-stream"@;
    assert(on_one_line(l3)) by {
        reveal_strlit("Content-Type: application/octet-stream");
    }
    let l4 = "Content-Length: "@ + text::decimal(key_len);
    assert(on_one_line(l4)) by {
        reveal_strlit("Content-Length: ");
        lemma_number_on_one_line(key_len);
        lemma_on_one_line("Content-Length: "@, text::decimal(key_len));
    }
    let l5 = Seq::<char>::empty();
    let all = seq![l0, l1, l2, l3, l4, l5];
    assert forall|i: int| 0 <= i < all.len() implies !(#[trigger] all[i]).contains('\n') by {
        assert(on_one_line(all[i]));
    }
    headers::law_headers_read_back(all);
}

/// The start of pairing without a PIN is read as these lines, the last of them empty.
pub proof fn law_pin_start_lines(cseq: nat)
    ensures
        text::lines(pin_start_request(cseq)) == seq![
            "POST /pair-pin-start RTSP/1.0"@,
            "CSeq: "@ + text::decimal(cseq),
            "User-Agent: OuterTune/1.0"@,
            "Content-Length: 0"@,
            Seq::empty(),
        ],
{
    let l0 = "POST /pair-pin-start RTSP/1.0"@;
    assert(on_one_line(l0)) by {
        reveal_strlit("POST /pair-pin-start RTSP/1.0");
    }
    let l1 = "CSeq: "@ + text::decimal(cseq);
    assert(on_one_line(l1)) by {
        reveal_strlit("CSeq: ");
        lemma_number_on_one_line(cseq);
        lemma_on_one_line("CSeq: "@, text::decimal(cseq));
    }
    let l2 = "User-Agent: OuterTune/1.0"@;
    assert(on_one_line(l2)) by {
        reveal_strlit("User-Agent: OuterTune/1.0");
    }
    let l3 = "Content-Length: 0"@;
    assert(on_one_line(l3)) by {
        reveal_strlit("Content-Length: 0");
    }
    let l4 = Seq::<char>::empty();
    let all = seq![l0, l1, l2, l3, l4];
    assert forall|i: int| 0 <= i < all.len() implies !(#[trigger] all[i]).contains('\n') by {
        assert(on_one_line(all[i]));
    }
    headers::law_headers_read_back(all);
}

/// The description of the audio is read as these lines.
pub proof fn law_description_lines(local_address: Seq<char>)
    requires
        on_one_line(local_address),
    ensures
        text::lines(audio_description(local_address)) == seq![
            "v=0"@,
            "o=iTunes 1 1 IN IP4 "@ + local_address,
            "s=iTunes"@,
            "c=IN IP4 "@ + local_address,
            "t=0 0"@,
            "m=audio 0 RTP/AVP 96"@,
            "a=rtpmap:96 AppleLossless"@,
            "a=fmtp:96 352 0 16 40 10 14 2 255 0 0 44100"@,
        ],
{
    let l0 = "v=0"@;
    assert(on_one_line(l0)) by {
        reveal_strlit("v=0");
    }
    let l1 = "o=iTunes 1 1 IN IP4 "@ + local_address;
    assert(on_one_line(l1)) by {
        reveal_strlit("o=iTunes 1 1 IN IP4 ");
        lemma_on_one_line("o=iTunes 1 1 IN IP4 "@, local_address);
    }
    let l2 = "s=iTunes"@;
    assert(on_one_line(l2)) by {
        reveal_strlit("s=iTunes");
    }
    let l3 = "c=IN IP4 "@ + local_address;
    assert(on_one_line(l3)) by {
        reveal_strlit("c=IN IP4 ");
        lemma_on_one_line("c=IN IP4 "@, local_address);
    }
    let l4 = "t=0 0"@;
    assert(on_one_line(l4)) by {
        reveal_strlit("t=0 0");
    }
    let l5 = "m=audio 0 RTP/AVP 96"@;
    assert(on_one_line(l5)) by {
        reveal_strlit("m=audio 0 RTP/AVP 96");
    }
    let l6 = "a=rtpmap:96 AppleLossless"@;
    assert(on_one_line(l6)) by {
        reveal_strlit("a=rtpmap:96 AppleLossless");
    }
    let l7 = "a=fmtp:96 352 0 16 40 10 14 2 255 0 0 44100"@;
    assert(on_one_line(l7)) by {
        reveal_strlit("a=fmtp:96 352 0 16 40 10 14 2 255 0 0 44100");
    }
    let all = seq![l0, l1, l2, l3, l4, l5, l6, l7];
    assert forall|i: int| 0 <= i < all.len() implies !(#[trigger] all[i]).contains('\n') by {
        assert(on_one_line(all[i]));
    }
    headers::law_headers_read_back(all);
}

/// ANNOUNCE is read as these lines, the last of them empty, and then the description, of just as many
/// bytes as it says.
pub proof fn law_announce_lines(
    url: Seq<char>,
    cseq: nat,
    client: Seq<char>,
    description: Seq<char>,
)
    requires
        on_one_line(url),
        on_one_line(client),
    ensures
        ({
            let whole = announce_request(url, cseq, client, description);
            let head = whole.take(whole.len() - description.len());
            &&& whole == head + description
            &&& text::lines(head) == seq![
                "ANNOUNCE "@ + url + " RTSP/1.0"@,
                "CSeq: "@ + text::decimal(cseq),
                "Content-Type: application/sdp"@,
                "Content-Length: "@ + text::decimal(encode_utf8(description).len()),
                "User-Agent: iTunes/12.0 (Macintosh)"@,
                "Client-Instance: "@ + client,
                Seq::empty(),
            ]
        }),
{
    let l0 = "ANNOUNCE "@ + url + " RTSP/1.0"@;
    assert(on_one_line(l0)) by {
        reveal_strlit("ANNOUNCE ");
        reveal_strlit(" RTSP/1.0");
        lemma_on_one_line("ANNOUNCE "@, url);
        lemma_on_one_line("ANNOUNCE "@ + url, " RTSP/1.0"@);
    }
    let l1 = "CSeq: "@ + text::decimal(cseq);
    assert(on_one_line(l1)) by {
        reveal_strlit("CSeq: ");
        lemma_number_on_one_line(cseq);
        lemma_on_one_line("CSeq: "@, text::decimal(cseq));
    }
    let l2 = "Content-Type: application/sdp"@;
    assert(on_one_line(l2)) by {
        reveal_strlit("Content-Type: application/sdp");
    }
    let l3 = "Content-Length: "@ + text::decimal(encode_utf8(description).len());
    assert(on_one_line(l3)) by {
        reveal_strlit("Content-Length: ");
        lemma_number_on_one_line(encode_utf8(description).len());
        lemma_on_one_line("Content-Length: "@, text::decimal(encode_utf8(description).len()));
    }
    let l4 = "User-Agent: iTunes/12.0 (Macintosh)"@;
    assert(on_one_line(l4)) by {
        reveal_strlit("User-Agent: iTunes/12.0 (Macintosh)");
    }
    let l5 = "Client-Instance: "@ + client;
    assert(on_one_line(l5)) by {
        reveal_strlit("Client-Instance: ");
        lemma_on_one_line("Client-Instance: "@, client);
    }
    let l6 = Seq::<char>::empty();
    let all = seq![l0, l1, l2, l3, l4, l5, l6];
    assert forall|i: int| 0 <= i < all.len() implies !(#[trigger] all[i]).contains('\n') by {
        assert(on_one_line(all[i]));
    }
    headers::law_headers_read_back(all);
    let whole = announce_request(url, cseq, client, description);
    let head = headers::as_headers(all);
    assert(whole == head + description);
    assert(whole.take(whole.len() - description.len()) == head);
}

/// SETUP is read as these lines, the last of them empty.
pub proof fn law_setup_lines(
    url: Seq<char>,
    cseq: nat,
    control_port: nat,
    timing_port: nat,
    client: Seq<char>,
)
    requires
        on_one_line(url),
        on_one_line(client),
    ensures
        text::lines(setup_request(url, cseq, control_port, timing_port, client)) == seq![
            "SETUP "@ + url + " RTSP/1.0"@,
            "CSeq: "@ + text::decimal(cseq),
            "Transport: RTP/AVP/UDP;unicast;interleaved=0-1;mode=record;control_port="@
                + text::decimal(control_port) + ";timing_port="@ + text::decimal(timing_port),
            "User-Agent: iTunes/12.0 (Macintosh)"@,
            "Client-Instance: "@ + client,
            Seq::empty(),
        ],
{
    let l0 = "SETUP "@ + url + " RTSP/1.0"@;
    assert(on_one_line(l0)) by {
        reveal_strlit("SETUP ");
        reveal_strlit(" RTSP/1.0");
        lemma_on_one_line("SETUP "@, url);
        lemma_on_one_line("SETUP "@ + url, " RTSP/1.0"@);
    }
    let l1 = "CSeq: "@ + text::decimal(cseq);
    assert(on_one_line(l1)) by {
        reveal_strlit("CSeq: ");
        lemma_number_on_one_line(cseq);
        lemma_on_one_line("CSeq: "@, text::decimal(cseq));
    }
    let l2 = "Transport: RTP/AVP/UDP;unicast;interleaved=0-1;mode=record;control_port="@
        + text::decimal(control_port) + ";timing_port="@ + text::decimal(timing_port);
    assert(on_one_line(l2)) by {
        reveal_strlit("Transport: RTP/AVP/UDP;unicast;interleaved=0-1;mode=record;control_port=");
        lemma_number_on_one_line(control_port);
        reveal_strlit(";timing_port=");
        lemma_number_on_one_line(timing_port);
        lemma_on_one_line(
            "Transport: RTP/AVP/UDP;unicast;interleaved=0-1;mode=record;control_port="@,
            text::decimal(control_port),
        );
        lemma_on_one_line(
            "Transport: RTP/AVP/UDP;unicast;interleaved=0-1;mode=record;control_port="@
                + text::decimal(control_port),
            ";timing_port="@,
        );
        lemma_on_one_line(
            "Transport: RTP/AVP/UDP;unicast;interleaved=0-1;mode=record;control_port="@
                + text::decimal(control_port) + ";timing_port="@,
            text::decimal(timing_port),
        );
    }
    let l3 = "User-Agent: iTunes/12.0 (Macintosh)"@;
    assert(on_one_line(l3)) by {
        reveal_strlit("User-Agent: iTunes/12.0 (Macintosh)");
    }
    let l4 = "Client-Instance: "@ + client;
    assert(on_one_line(l4)) by {
        reveal_strlit("Client-Instance: ");
        lemma_on_one_line("Client-Instance: "@, client);
    }
    let l5 = Seq::<char>::empty();
    let all = seq![l0, l1, l2, l3, l4, l5];
    assert forall|i: int| 0 <= i < all.len() implies !(#[trigger] all[i]).contains('\n') by {
        assert(on_one_line(all[i]));
    }
    headers::law_headers_read_back(all);
}

/// RECORD is read as these lines, the last of them empty.
pub proof fn law_record_lines(
    url: Seq<char>,
    cseq: nat,
    seq: nat,
    timestamp: nat,
    session: Seq<char>,
)
    requires
        on_one_line(url),
        on_one_line(session),
    ensures
        text::lines(record_request(url, cseq, seq, timestamp, session)) == seq![
            "RECORD "@ + url + " RTSP/1.0"@,
            "CSeq: "@ + text::decimal(cseq),
            "Range: npt=0-"@,
            "RTP-Info: url="@ + url + ";seq="@ + text::decimal(seq) + ";rtptime="@
                + text::decimal(timestamp),
            "User-Agent: iTunes/12.0 (Macintosh)"@,
            "Session: "@ + session,
            Seq::empty(),
        ],
{
    let l0 = "RECORD "@ + url + " RTSP/1.0"@;
    assert(on_one_line(l0)) by {
        reveal_strlit("RECORD ");
        reveal_strlit(" RTSP/1.0");
        lemma_on_one_line("RECORD "@, url);
        lemma_on_one_line("RECORD "@ + url, " RTSP/1.0"@);
    }
    let l1 = "CSeq: "@ + text::decimal(cseq);
    assert(on_one_line(l1)) by {
        reveal_strlit("CSeq: ");
        lemma_number_on_one_line(cseq);
        lemma_on_one_line("CSeq: "@, text::decimal(cseq));
    }
    let l2 = "Range: npt=0-"@;
    assert(on_one_line(l2)) by {
        reveal_strlit("Range: npt=0-");
    }
    let l3 = "RTP-Info: url="@ + url + ";seq="@ + text::decimal(seq) + ";rtptime="@
        + text::decimal(timestamp);
    assert(on_one_line(l3)) by {
        reveal_strlit("RTP-Info: url=");
        reveal_strlit(";seq=");
        lemma_number_on_one_line(seq);
        reveal_strlit(";rtptime=");
        lemma_number_on_one_line(timestamp);
        lemma_on_one_line("RTP-Info: url="@, url);
        lemma_on_one_line("RTP-Info: url="@ + url, ";seq="@);
        lemma_on_one_line("RTP-Info: url="@ + url + ";seq="@, text::decimal(seq));
        lemma_on_one_line("RTP-Info: url="@ + url + ";seq="@ + text::decimal(seq), ";rtptime="@);
        lemma_on_one_line(
            "RTP-Info: url="@ + url + ";seq="@ + text::decimal(seq) + ";rtptime="@,
            text::decimal(timestamp),
        );
    }
    let l4 = "User-Agent: iTunes/12.0 (Macintosh)"@;
    assert(on_one_line(l4)) by {
        reveal_strlit("User-Agent: iTunes/12.0 (Macintosh)");
    }
    let l5 = "Session: "@ + session;
    assert(on_one_line(l5)) by {
        reveal_strlit("Session: ");
        lemma_on_one_line("Session: "@, session);
    }
    let l6 = Seq::<char>::empty();
    let all = seq![l0, l1, l2, l3, l4, l5, l6];
    assert forall|i: int| 0 <= i < all.len() implies !(#[trigger] all[i]).contains('\n') by {
        assert(on_one_line(all[i]));
    }
    headers::law_headers_read_back(all);
}

/// TEARDOWN is read as these lines, the last of them empty.
pub proof fn law_teardown_lines(url: Seq<char>, cseq: nat, session: Seq<char>)
    requires
        on_one_line(url),
        on_one_line(session),
    ensures
        text::lines(teardown_request(url, cseq, session)) == seq![
            "TEARDOWN "@ + url + " RTSP/1.0"@,
            "CSeq: "@ + text::decimal(cseq),
            "User-Agent: iTunes/12.0 (Macintosh)"@,
            "Session: "@ + session,
            Seq::empty(),
        ],
{
    let l0 = "TEARDOWN "@ + url + " RTSP/1.0"@;
    assert(on_one_line(l0)) by {
        reveal_strlit("TEARDOWN ");
        reveal_strlit(" RTSP/1.0");
        lemma_on_one_line("TEARDOWN "@, url);
        lemma_on_one_line("TEARDOWN "@ + url, " RTSP/1.0"@);
    }
    let l1 = "CSeq: "@ + text::decimal(cseq);
    assert(on_one_line(l1)) by {
        reveal_strlit("CSeq: ");
        lemma_number_on_one_line(cseq);
        lemma_on_one_line("CSeq: "@, text::decimal(cseq));
    }
    let l2 = "User-Agent: iTunes/12.0 (Macintosh)"@;
    assert(on_one_line(l2)) by {
        reveal_strlit("User-Agent: iTunes/12.0 (Macintosh)");
    }
    let l3 = "Session: "@ + session;
    assert(on_one_line(l3)) by {
        reveal_strlit("Session: ");
        lemma_on_one_line("Session: "@, session);
    }
    let l4 = Seq::<char>::empty();
    let all = seq![l0, l1, l2, l3, l4];
    assert forall|i: int| 0 <= i < all.len() implies !(#[trigger] all[i]).contains('\n') by {
        assert(on_one_line(all[i]));
    }
    headers::law_headers_read_back(all);
}

/// A request for a volume is read as these lines, the last of them empty, and then the line with the
/// volume, of just as many bytes as it says.
pub proof fn law_volume_lines(address: Seq<char>, port: nat, cseq: nat, db: Seq<char>)
    requires
        on_one_line(address),
    ensures
        ({
            let whole = volume_request(address, port, cseq, db);
            let body = "volume: "@ + db + "\r\n"@;
            let head = whole.take(whole.len() - body.len());
            &&& whole == head + body
            &&& text::lines(head) == seq![
                "SET_PARAMETER rtsp://"@ + address + ":"@ + text::decimal(port)
                    + "/audio RTSP/1.0"@,
                "CSeq: "@ + text::decimal(cseq),
                "User-Agent: OuterTune/1.0"@,
                "Content-Type: text/parameters"@,
                "Content-Length: "@ + text::decimal(encode_utf8("volume: "@ + db + "\r\n"@).len()),
                Seq::empty(),
            ]
        }),
{
    let l0 = "SET_PARAMETER rtsp://"@ + address + ":"@ + text::decimal(port) + "/audio RTSP/1.0"@;
    assert(on_one_line(l0)) by {
        reveal_strlit("SET_PARAMETER rtsp://");
        reveal_strlit(":");
        lemma_number_on_one_line(port);
        reveal_strlit("/audio RTSP/1.0");
        lemma_on_one_line("SET_PARAMETER rtsp://"@, address);
        lemma_on_one_line("SET_PARAMETER rtsp://"@ + address, ":"@);
        lemma_on_one_line("SET_PARAMETER rtsp://"@ + address + ":"@, text::decimal(port));
        lemma_on_one_line(
            "SET_PARAMETER rtsp://"@ + address + ":"@ + text::decimal(port),
            "/audio RTSP/1.0"@,
        );
    }
    let l1 = "CSeq: "@ + text::decimal(cseq);
    assert(on_one_line(l1)) by {
        reveal_strlit("CSeq: ");
        lemma_number_on_one_line(cseq);
        lemma_on_one_line("CSeq: "@, text::decimal(cseq));
    }
    let l2 = "User-Agent: OuterTune/1.0"@;
    assert(on_one_line(l2)) by {
        reveal_strlit("User-Agent: OuterTune/1.0");
    }
    let l3 = "Content-Type: text/parameters"@;
    assert(on_one_line(l3)) by {
        reveal_strlit("Content-Type: text/parameters");
    }
    let l4 = "Content-Length: "@ + text::decimal(encode_utf8("volume: "@ + db + "\r\n"@).len());
    assert(on_one_line(l4)) by {
        reveal_strlit("Content-Length: ");
        lemma_number_on_one_line(encode_utf8("volume: "@ + db + "\r\n"@).len());
        lemma_on_one_line(
            "Content-Length: "@,
            text::decimal(encode_utf8("volume: "@ + db + "\r\n"@).len()),
        );
    }
    let l5 = Seq::<char>::empty();
    let all = seq![l0, l1, l2, l3, l4, l5];
    assert forall|i: int| 0 <= i < all.len() implies !(#[trigger] all[i]).contains('\n') by {
        assert(on_one_line(all[i]));
    }
    headers::law_headers_read_back(all);
    let whole = volume_request(address, port, cseq, db);
    let head = headers::as_headers(all);
    assert(whole == head + ("volume: "@ + db + "\r\n"@));
    assert(whole.take(whole.len() - ("volume: "@ + db + "\r\n"@).len()) == head);
}

} // verus!
