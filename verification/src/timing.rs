//! Clock synchronisation: answers to the timing queries of a receiver.

use crate::rtp;
use vstd::arithmetic::div_mod::*;
use vstd::prelude::*;
use vstd::slice::*;

verus! {

/// The seconds from the NTP epoch, the start of 1900, to the Unix epoch, the start of 1970.
pub const NTP_UNIX_OFFSET: u64 = 2208988800;

/// The nanoseconds of a second.
pub const NANOS_PER_SECOND: u32 = 1000000000;

/// The NTP timestamp of a time since the Unix epoch: the seconds in 32 bits, then the fraction of
/// a second in units of 2^-32, rounded down.
pub open spec fn ntp_timestamp(secs: int, nanos: int) -> Seq<u8> {
    rtp::be32(((secs + NTP_UNIX_OFFSET) % 0x1_0000_0000) as u32) + rtp::be32(
        ((nanos * 0x1_0000_0000) / NANOS_PER_SECOND as int) as u32,
    )
}

/// Whether a datagram is a timing query: payload type 82, with the marker or without.
pub open spec fn is_timing_query(bytes: Seq<u8>) -> bool {
    bytes.len() >= 8 && (bytes[1] == 0xd2 || bytes[1] == 0x52)
}

/// The answer to a timing query: its sequence number, the time at which it was sent where it is
/// long enough to tell, then the time of receipt and the time of sending.
pub open spec fn timing_answer(query: Seq<u8>, now: Seq<u8>) -> Seq<u8> {
    let sent = if query.len() >= 32 {
        query.subrange(24, 32)
    } else {
        seq![0u8, 0, 0, 0, 0, 0, 0, 0]
    };
    seq![0x80u8, 0xd3, query[2], query[3], 0, 0, 0, 0] + sent + now + now
}

/// The NTP timestamp of a time since the Unix epoch.
pub fn ntp_time(secs: u64, nanos: u32) -> (r: [u8; 8])
    requires
        secs + NTP_UNIX_OFFSET <= u64::MAX,
        nanos < NANOS_PER_SECOND,
    ensures
        r@ == ntp_timestamp(secs as int, nanos as int),
{
    let s: u32 = ((secs + NTP_UNIX_OFFSET) % 0x1_0000_0000) as u32;
    let f: u32 = ((nanos as u64 * 0x1_0000_0000) / NANOS_PER_SECOND as u64) as u32;
    let r: [u8; 8] = [
        (s / 0x100_0000) as u8,
        ((s / 0x1_0000) % 256) as u8,
        ((s / 256) % 256) as u8,
        (s % 256) as u8,
        (f / 0x100_0000) as u8,
        ((f / 0x1_0000) % 256) as u8,
        ((f / 256) % 256) as u8,
        (f % 256) as u8,
    ];
    assert(r@ == ntp_timestamp(secs as int, nanos as int));
    r
}

/// The answer to a datagram, where it is a timing query.
pub fn timing_response(query: &[u8], now: &[u8; 8]) -> (r: Option<Vec<u8>>)
    ensures
        r is Some <==> is_timing_query(query@),
        r matches Some(answer) ==> answer@ == timing_answer(query@, now@),
{
    if query.len() < 8 || (query[1] != 0xd2 && query[1] != 0x52) {
        return None;
    }
    let mut out: Vec<u8> = Vec::new();
    out.push(0x80);
    out.push(0xd3);
    out.push(query[2]);
    out.push(query[3]);
    out.push(0);
    out.push(0);
    out.push(0);
    out.push(0);
    if query.len() >= 32 {
        rtp::push_bytes(&mut out, slice_subrange(query, 24, 32));
    } else {
        let unknown: [u8; 8] = [0, 0, 0, 0, 0, 0, 0, 0];
        rtp::push_bytes(&mut out, unknown.as_slice());
    }
    rtp::push_bytes(&mut out, now.as_slice());
    rtp::push_bytes(&mut out, now.as_slice());
    assert(out@ == timing_answer(query@, now@));
    Some(out)
}

/// What befalls the handler of timing queries.
pub enum TimingEvent {
    /// The session has ended.
    Stop,
    /// A datagram came, at this NTP time.
    Datagram { bytes: Vec<u8>, now: [u8; 8] },
    /// The socket reported an error.
    SocketError,
    /// Nothing came for a while.
    Timeout,
}

/// What the handler of timing queries does next.
pub enum TimingAction {
    /// End.
    Stop,
    /// Send this to where the datagram came from, and listen.
    Reply(Vec<u8>),
    /// Listen.
    Listen,
}

/// Whether an action is what the handler does on an event.
pub open spec fn timing_does(event: TimingEvent, action: TimingAction) -> bool {
    match event {
        TimingEvent::Stop => action is Stop,
        TimingEvent::Datagram { bytes, now } => if is_timing_query(bytes@) {
            action matches TimingAction::Reply(answer) && answer@ == timing_answer(bytes@, now@)
        } else {
            action is Listen
        },
        TimingEvent::SocketError => action is Listen,
        TimingEvent::Timeout => action is Listen,
    }
}

/// The handler ends only when the session has; it answers queries, and lets all else pass.
pub fn timing_step(event: TimingEvent) -> (action: TimingAction)
    ensures
        timing_does(event, action),
        action is Stop <==> event is Stop,
        action is Reply <==> (event matches TimingEvent::Datagram { bytes, now }
            && is_timing_query(bytes@)),
        action matches TimingAction::Reply(answer) ==> answer@ == timing_answer(
            event->bytes@,
            event->now@,
        ),
{
    match event {
        TimingEvent::Stop => TimingAction::Stop,
        TimingEvent::Datagram { bytes, now } => match timing_response(
            bytes.as_slice(),
            &now,
        ) {
            Some(answer) => TimingAction::Reply(answer),
            None => TimingAction::Listen,
        },
        TimingEvent::SocketError => TimingAction::Listen,
        TimingEvent::Timeout => TimingAction::Listen,
    }
}

/// An answer echoes the number of its query and, of a full query, the time at which it was sent;
/// the times of receipt and of sending are the same.
pub proof fn law_answer_echoes_query(query: Seq<u8>, now: Seq<u8>)
    requires
        is_timing_query(query),
        now.len() == 8,
    ensures
        timing_answer(query, now).len() == 32,
        timing_answer(query, now).subrange(2, 4) == query.subrange(2, 4),
        query.len() >= 32 ==> timing_answer(query, now).subrange(8, 16) == query.subrange(24, 32),
        timing_answer(query, now).subrange(16, 24) == now,
        timing_answer(query, now).subrange(24, 32) == now,
{
    let answer = timing_answer(query, now);
    assert(answer.subrange(2, 4) == query.subrange(2, 4));
    if query.len() >= 32 {
        assert(answer.subrange(8, 16) == query.subrange(24, 32));
    }
    assert(answer.subrange(16, 24) == now);
    assert(answer.subrange(24, 32) == now);
}

/// An answer is no query, so two handlers do not answer each other.
pub proof fn law_answer_is_no_query(query: Seq<u8>, now: Seq<u8>)
    ensures
        !is_timing_query(timing_answer(query, now)),
{
}

/// The number that four bytes write, most significant first.
pub open spec fn read_be32(bytes: Seq<u8>) -> int {
    bytes[0] * 0x100_0000 + bytes[1] * 0x1_0000 + bytes[2] * 256 + bytes[3]
}

/// An NTP timestamp tells the seconds since the start of 1900, modulo 2^32, and then the part of a
/// second in units of 2^-32, rounded down.
pub proof fn law_ntp_reads_back(secs: int, nanos: int)
    requires
        0 <= secs,
        0 <= nanos < 1_000_000_000,
    ensures
        ({
            let t = ntp_timestamp(secs, nanos);
            let seconds = t[0] * 0x100_0000 + t[1] * 0x1_0000 + t[2] * 256 + t[3];
            let f = t[4] * 0x100_0000 + t[5] * 0x1_0000 + t[6] * 256 + t[7];
            &&& t.len() == 8
            &&& (seconds - (secs + 2208988800)) % 0x1_0000_0000 == 0
            &&& f * 1_000_000_000 <= nanos * 0x1_0000_0000 < (f + 1) * 1_000_000_000
        }),
{
    let hi = ((secs + NTP_UNIX_OFFSET) % 0x1_0000_0000) as u32;
    let lo = ((nanos * 0x1_0000_0000) / NANOS_PER_SECOND as int) as u32;
    let t = ntp_timestamp(secs, nanos);
    rtp::lemma_be32(hi);
    rtp::lemma_be32(lo);
    assert forall|i: int| 0 <= i < 4 implies t[i] == rtp::be32(hi)[i] && t[4 + i] == rtp::be32(
        lo,
    )[i] by {}
}

/// The first four bytes of a timestamp.
proof fn lemma_ntp_seconds(secs: int, nanos: int)
    ensures
        read_be32(ntp_timestamp(secs, nanos)) == (secs + NTP_UNIX_OFFSET) % 0x1_0000_0000,
{
    let hi = ((secs + NTP_UNIX_OFFSET) % 0x1_0000_0000) as u32;
    let t = ntp_timestamp(secs, nanos);
    rtp::lemma_be32(hi);
    assert forall|i: int| 0 <= i < 4 implies t[i] == rtp::be32(hi)[i] by {}
}

/// A second later the first four bytes read one more, modulo 2^32, and the others the same.
pub proof fn law_ntp_second_later(secs: int, nanos: int)
    requires
        0 <= secs,
        0 <= nanos < 1_000_000_000,
    ensures
        read_be32(ntp_timestamp(secs + 1, nanos)) == (read_be32(ntp_timestamp(secs, nanos)) + 1)
            % 0x1_0000_0000,
        ntp_timestamp(secs + 1, nanos).skip(4) == ntp_timestamp(secs, nanos).skip(4),
{
    lemma_ntp_seconds(secs, nanos);
    lemma_ntp_seconds(secs + 1, nanos);
    let x = secs + NTP_UNIX_OFFSET;
    lemma_add_mod_noop(x, 1, 0x1_0000_0000);
    lemma_small_mod(1, 0x1_0000_0000);
    assert(ntp_timestamp(secs + 1, nanos).skip(4) == ntp_timestamp(secs, nanos).skip(4));
}

/// A datagram is a timing query just where it is long enough for a header and its payload type,
/// without the marker bit, is 82.
pub proof fn law_query_is_known_by_type(bytes: Seq<u8>)
    ensures
        bytes.len() < 8 ==> !is_timing_query(bytes),
        bytes.len() >= 8 ==> (is_timing_query(bytes) <==> bytes[1] % 128 == 82),
{
}

/// Every byte of an answer: RTP version 2, payload type 83 with the marker, the query's number, four
/// zero bytes, the query's sending time or zeros, and the time twice.
pub proof fn law_answer_bytes(query: Seq<u8>, now: Seq<u8>, i: int)
    requires
        is_timing_query(query),
        now.len() == 8,
        0 <= i < 8,
    ensures
        ({
            let answer = timing_answer(query, now);
            &&& answer.len() == 32
            &&& answer[0] == 128
            &&& answer[1] == 128 + 83
            &&& answer[2] == query[2]
            &&& answer[3] == query[3]
            &&& i < 4 ==> answer[4 + i] == 0
            &&& answer[8 + i] == if query.len() >= 32 {
                query[24 + i]
            } else {
                0
            }
            &&& answer[16 + i] == now[i]
            &&& answer[24 + i] == now[i]
        }),
{
}

/// The handler ends when its session has, and at no other time; it replies to what is a query, with
/// the answer to it, and to nothing else.
pub proof fn law_handler_answers_queries(event: TimingEvent, action: TimingAction)
    requires
        timing_does(event, action),
    ensures
        action is Stop <==> event is Stop,
        action is Reply <==> (event matches TimingEvent::Datagram { bytes, now } && bytes@.len() >= 8
            && bytes@[1] % 128 == 82),
        action matches TimingAction::Reply(answer) ==> answer@ == timing_answer(
            event->bytes@,
            event->now@,
        ),
{
}

} // verus!
