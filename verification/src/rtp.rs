//! Audio on the wire: frames of PCM, RTP packets, nonces.

use vstd::arithmetic::div_mod::*;
use vstd::prelude::*;
use vstd::slice::*;

verus! {

/// A 16-bit number, most significant byte first.
pub open spec fn be16(n: u16) -> Seq<u8> {
    seq![(n / 256) as u8, (n % 256) as u8]
}

/// A 32-bit number, most significant byte first.
pub open spec fn be32(n: u32) -> Seq<u8> {
    seq![
        (n / 0x100_0000) as u8,
        ((n / 0x1_0000) % 256) as u8,
        ((n / 256) % 256) as u8,
        (n % 256) as u8,
    ]
}

/// Byte number `i` of `n`, the least significant being number 0.
pub open spec fn byte_at(n: nat, i: nat) -> u8
    decreases i,
{
    if i == 0 {
        (n % 256) as u8
    } else {
        byte_at(n / 256, (i - 1) as nat)
    }
}

/// A 64-bit number, least significant byte first.
pub open spec fn le64(n: u64) -> Seq<u8> {
    Seq::new(8, |i: int| byte_at(n as nat, i as nat))
}

/// An RTP packet of payload type 96, without padding, extensions or contributing sources.
pub open spec fn rtp_packet(
    marker: bool,
    seq: u16,
    timestamp: u32,
    ssrc: u32,
    payload: Seq<u8>,
) -> Seq<u8> {
    seq![
        0x80u8,
        if marker {
            0xe0u8
        } else {
            0x60u8
        },
    ] + be16(seq) + be32(timestamp) + be32(ssrc) + payload
}

/// The nonce of the payload with the number `counter`: four zero bytes, and the number.
pub open spec fn nonce_of(counter: u64) -> Seq<u8> {
    seq![0u8, 0, 0, 0] + le64(counter)
}

/// The number of frames of `size` bytes that `len` bytes fill, the last one in part perhaps.
pub open spec fn frame_count(len: int, size: int) -> int {
    (len + size - 1) / size
}

/// Frame number `i` of `pcm`, cut into frames of `size` bytes. What is short of a frame is made up
/// with silence.
pub open spec fn frame_at(pcm: Seq<u8>, size: int, i: int) -> Seq<u8> {
    Seq::new(
        size as nat,
        |j: int|
            if i * size + j < pcm.len() {
                pcm[i * size + j]
            } else {
                0u8
            },
    )
}

/// `pcm` cut into frames of `size` bytes.
pub open spec fn frames(pcm: Seq<u8>, size: int) -> Seq<Seq<u8>> {
    Seq::new(frame_count(pcm.len() as int, size) as nat, |i: int| frame_at(pcm, size, i))
}

/// What the vectors hold.
pub open spec fn contents(v: Seq<Vec<u8>>) -> Seq<Seq<u8>> {
    v.map_values(|x: Vec<u8>| x@)
}

/// Appends a 16-bit number, most significant byte first.
fn push_be16(out: &mut Vec<u8>, n: u16)
    ensures
        final(out)@ == old(out)@ + be16(n),
{
    out.push((n / 256) as u8);
    out.push((n % 256) as u8);
    assert(out@ == old(out)@ + be16(n));
}

/// Appends a 32-bit number, most significant byte first.
fn push_be32(out: &mut Vec<u8>, n: u32)
    ensures
        final(out)@ == old(out)@ + be32(n),
{
    out.push((n / 0x100_0000) as u8);
    out.push(((n / 0x1_0000) % 256) as u8);
    out.push(((n / 256) % 256) as u8);
    out.push((n % 256) as u8);
    assert(out@ == old(out)@ + be32(n));
}

/// Appends bytes.
pub fn push_bytes(out: &mut Vec<u8>, bytes: &[u8])
    ensures
        final(out)@ == old(out)@ + bytes@,
{
    let ghost start = out@;
    let mut i: usize = 0;
    assert(start + bytes@.take(0) == start);
    while i < bytes.len()
        invariant
            i <= bytes@.len(),
            out@ == start + bytes@.take(i as int),
        decreases bytes@.len() - i,
    {
        out.push(bytes[i]);
        assert(bytes@.take(i + 1) == bytes@.take(i as int).push(bytes@[i as int]));
        i = i + 1;
    }
    assert(bytes@.take(i as int) == bytes@);
}

/// An RTP packet for audio. The marker is for the first packet of a stream.
pub fn create_rtp_packet(marker: bool, seq: u16, timestamp: u32, ssrc: u32, payload: &[u8]) -> (r:
    Vec<u8>)
    ensures
        r@ == rtp_packet(marker, seq, timestamp, ssrc, payload@),
{
    let mut packet: Vec<u8> = Vec::new();
    packet.push(0x80);
    packet.push(
        if marker {
            0xe0
        } else {
            0x60
        },
    );
    push_be16(&mut packet, seq);
    push_be32(&mut packet, timestamp);
    push_be32(&mut packet, ssrc);
    push_bytes(&mut packet, payload);
    assert(packet@ == rtp_packet(marker, seq, timestamp, ssrc, payload@));
    packet
}

/// The nonce of the payload with the number `counter`.
pub fn nonce_bytes(counter: u64) -> (r: [u8; 12])
    ensures
        r@ == nonce_of(counter),
{
    let n1: u64 = counter / 256;
    let n2: u64 = n1 / 256;
    let n3: u64 = n2 / 256;
    let n4: u64 = n3 / 256;
    let n5: u64 = n4 / 256;
    let n6: u64 = n5 / 256;
    let n7: u64 = n6 / 256;
    let r: [u8; 12] = [
        0,
        0,
        0,
        0,
        (counter % 256) as u8,
        (n1 % 256) as u8,
        (n2 % 256) as u8,
        (n3 % 256) as u8,
        (n4 % 256) as u8,
        (n5 % 256) as u8,
        (n6 % 256) as u8,
        (n7 % 256) as u8,
    ];
    proof {
        reveal_with_fuel(byte_at, 9);
        assert(r@ == nonce_of(counter));
    }
    r
}

/// A sealed payload as it is sent: the nonce, then what was sealed.
pub fn nonce_and_sealed(nonce: &[u8; 12], sealed: &[u8]) -> (r: Vec<u8>)
    ensures
        r@ == nonce@ + sealed@,
{
    let mut out: Vec<u8> = Vec::new();
    push_bytes(&mut out, nonce.as_slice());
    push_bytes(&mut out, sealed);
    assert(out@ == nonce@ + sealed@);
    out
}

/// Cuts `pcm` into frames of `size` bytes; the last one is made up with silence.
pub fn cut_frames(pcm: &[u8], size: usize) -> (r: Vec<Vec<u8>>)
    requires
        size > 0,
    ensures
        contents(r@) == frames(pcm@, size as int),
{
    let mut out: Vec<Vec<u8>> = Vec::new();
    let mut start: usize = 0;
    assert(pcm.len() == pcm@.len());
    assert(0 * size == 0);
    while start < pcm.len()
        invariant
            size > 0,
            pcm.len() == pcm@.len(),
            start <= pcm@.len(),
            start < pcm@.len() ==> start == out@.len() * size,
            start == pcm@.len() ==> (out@.len() - 1) * size < start <= out@.len() * size,
            forall|i: int| 0 <= i < out@.len() ==> #[trigger] out@[i]@ == frame_at(pcm@, size as int, i),
        decreases pcm@.len() - start,
    {
        let left: usize = pcm.len() - start;
        let n: usize = if left < size {
            left
        } else {
            size
        };
        let mut frame: Vec<u8> = slice_to_vec(slice_subrange(pcm, start, start + n));
        let ghost sound = frame@;
        while frame.len() < size
            invariant
                sound.len() <= frame@.len() <= size,
                forall|j: int|
                    0 <= j < frame@.len() ==> #[trigger] frame@[j] == if j < sound.len() {
                        sound[j]
                    } else {
                        0u8
                    },
            decreases size - frame@.len(),
        {
            frame.push(0);
        }
        assert(frame@ == frame_at(pcm@, size as int, out@.len() as int));
        assert((out@.len() + 1) * size == out@.len() * size + size) by (nonlinear_arith);
        out.push(frame);
        start = start + n;
    }
    proof {
        lemma_frame_count(pcm@.len() as int, size as int, out@.len() as int);
    }
    assert(contents(out@) == frames(pcm@, size as int));
    out
}

/// The number of frames that reach the end of the data, and would not without the last one.
proof fn lemma_frame_count(len: int, size: int, n: int)
    requires
        size > 0,
        n >= 0,
        len >= 0,
        (n - 1) * size < len <= n * size,
    ensures
        frame_count(len, size) == n,
{
    let x = len + size - 1;
    let r = x - n * size;
    assert(0 <= r < size) by (nonlinear_arith)
        requires
            (n - 1) * size < len <= n * size,
            x == len + size - 1,
            r == x - n * size,
    ;
    lemma_fundamental_div_mod_converse(x, size, n, r);
}

/// Frames are all of the same size, there are no more than the data need, and they hold the data
/// in order, with silence after the end.
pub proof fn law_frames_hold_pcm(pcm: Seq<u8>, size: int, k: int)
    requires
        size > 0,
        0 <= k < frames(pcm, size).len() * size,
    ensures
        (frames(pcm, size).len() - 1) * size < pcm.len() <= frames(pcm, size).len() * size,
        frames(pcm, size)[k / size].len() == size,
        frames(pcm, size)[k / size][k % size] == if k < pcm.len() {
            pcm[k]
        } else {
            0u8
        },
{
    let n = frame_count(pcm.len() as int, size);
    let x = pcm.len() + size - 1;
    lemma_fundamental_div_mod(x, size);
    lemma_div_pos_is_pos(x, size);
    assert((n - 1) * size < pcm.len() <= n * size) by (nonlinear_arith)
        requires
            x == size * n + x % size,
            0 <= x % size < size,
            x == pcm.len() + size - 1,
    ;
    lemma_fundamental_div_mod(k, size);
    lemma_div_pos_is_pos(k, size);
    let i = k / size;
    let j = k % size;
    assert(i * size + j == k) by (nonlinear_arith)
        requires
            k == size * i + j,
    ;
    assert(i < n) by (nonlinear_arith)
        requires
            i * size + j == k,
            0 <= j,
            k < n * size,
            size > 0,
    ;
}

/// The four bytes of a number give it back.
pub proof fn lemma_be32(n: u32)
    ensures
        be32(n)[0] * 0x100_0000 + be32(n)[1] * 0x1_0000 + be32(n)[2] * 256 + be32(n)[3] == n,
{
    assert(n / 0x1_0000 == (n / 256) / 256);
    assert(n / 0x100_0000 == (n / 0x1_0000) / 256);
    assert(n == (n / 256) * 256 + n % 256);
}

/// A packet gives back what it was made of.
pub proof fn law_rtp_packet_reads_back(
    marker: bool,
    seq: u16,
    timestamp: u32,
    ssrc: u32,
    payload: Seq<u8>,
)
    ensures
        ({
            let p = rtp_packet(marker, seq, timestamp, ssrc, payload);
            &&& p.len() == 12 + payload.len()
            &&& p[0] == 0x80
            &&& p[1] % 128 == 96
            &&& marker == (p[1] >= 128)
            &&& seq == p[2] * 256 + p[3]
            &&& timestamp == p[4] * 0x100_0000 + p[5] * 0x1_0000 + p[6] * 256 + p[7]
            &&& ssrc == p[8] * 0x100_0000 + p[9] * 0x1_0000 + p[10] * 256 + p[11]
            &&& p.skip(12) == payload
        }),
{
    let p = rtp_packet(marker, seq, timestamp, ssrc, payload);
    assert(p.skip(12) == payload);
    lemma_be32(timestamp);
    lemma_be32(ssrc);
    assert forall|i: int| 0 <= i < 4 implies p[4 + i] == be32(timestamp)[i] && p[8 + i] == be32(
        ssrc,
    )[i] by {}
}

/// Numbers that agree in their last `k` bytes, and fit in them, are equal.
proof fn lemma_bytes_tell_apart(a: nat, b: nat, k: nat)
    requires
        forall|i: nat| i < k ==> byte_at(a, i) == #[trigger] byte_at(b, i),
        a < vstd::arithmetic::power::pow(256, k),
        b < vstd::arithmetic::power::pow(256, k),
    ensures
        a == b,
    decreases k,
{
    broadcast use vstd::arithmetic::power::lemma_pow0;

    if k > 0 {
        reveal_with_fuel(vstd::arithmetic::power::pow, 2);
        assert(byte_at(a, 0) == byte_at(b, 0));
        assert forall|i: nat| i < k - 1 implies byte_at(a / 256, i) == #[trigger] byte_at(
            b / 256,
            i,
        ) by {
            assert(byte_at(a, i + 1) == byte_at(b, i + 1));
        }
        lemma_bytes_tell_apart(a / 256, b / 256, (k - 1) as nat);
    }
}

/// No two payloads of a stream share a nonce: not before all 64-bit numbers have been used.
pub proof fn law_nonces_differ(start: u64, i: nat, j: nat)
    requires
        i < j < i + 0x1_0000_0000_0000_0000,
    ensures
        nonce_of(((start + i) % 0x1_0000_0000_0000_0000) as u64) != nonce_of(
            ((start + j) % 0x1_0000_0000_0000_0000) as u64,
        ),
{
    let a = ((start + i) % 0x1_0000_0000_0000_0000) as u64;
    let b = ((start + j) % 0x1_0000_0000_0000_0000) as u64;
    assert(a != b);
    if nonce_of(a) == nonce_of(b) {
        assert forall|k: nat| k < 8 implies byte_at(a as nat, k) == #[trigger] byte_at(
            b as nat,
            k,
        ) by {
            assert(nonce_of(a)[4 + k as int] == nonce_of(b)[4 + k as int]);
        }
        reveal_with_fuel(vstd::arithmetic::power::pow, 9);
        assert(vstd::arithmetic::power::pow(256, 8) == 0x1_0000_0000_0000_0000);
        lemma_bytes_tell_apart(a as nat, b as nat, 8);
    }
}

/// A nonce is four zero bytes and eight that write its number, least significant first.
pub proof fn law_nonce_reads_back(counter: u64)
    ensures
        ({
            let n = nonce_of(counter);
            &&& n.len() == 12
            &&& n.take(4) == seq![0u8, 0, 0, 0]
            &&& counter == n[4] + 0x100 * (n[5] + 0x100 * (n[6] + 0x100 * (n[7] + 0x100 * (n[8]
                + 0x100 * (n[9] + 0x100 * (n[10] + 0x100 * n[11]))))))
        }),
{
    let n = nonce_of(counter);
    assert(n.take(4) == seq![0u8, 0, 0, 0]);
    reveal_with_fuel(byte_at, 9);
    let c0 = counter as nat;
    let c1 = c0 / 256;
    let c2 = c1 / 256;
    let c3 = c2 / 256;
    let c4 = c3 / 256;
    let c5 = c4 / 256;
    let c6 = c5 / 256;
    let c7 = c6 / 256;
    assert(n[4] == c0 % 256);
    assert(n[5] == c1 % 256);
    assert(n[6] == c2 % 256);
    assert(n[7] == c3 % 256);
    assert(n[8] == c4 % 256);
    assert(n[9] == c5 % 256);
    assert(n[10] == c6 % 256);
    assert(n[11] == c7 % 256);
    assert(c7 < 256);
}

/// Frames are as many as the data need: none for no data, one more for each frame's worth begun.
pub proof fn law_frames_are_as_many_as_needed(pcm: Seq<u8>, size: int)
    requires
        size > 0,
    ensures
        (frames(pcm, size).len() - 1) * size < pcm.len() <= frames(pcm, size).len() * size,
{
    let n = frame_count(pcm.len() as int, size);
    let x = pcm.len() + size - 1;
    lemma_fundamental_div_mod(x, size);
    lemma_div_pos_is_pos(x, size);
    assert((n - 1) * size < pcm.len() <= n * size) by (nonlinear_arith)
        requires
            x == size * n + x % size,
            0 <= x % size < size,
            x == pcm.len() + size - 1,
    ;
}

/// What vectors hold, one for one.
pub proof fn law_contents(v: Seq<Vec<u8>>, i: int)
    requires
        0 <= i < v.len(),
    ensures
        contents(v).len() == v.len(),
        contents(v)[i] == v[i]@,
{
}

} // verus!
