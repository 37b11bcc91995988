//! The calls into other crates, each with what is believed of it.

use base64::Engine;
use chacha20poly1305::aead::{Aead, KeyInit};
use vstd::prelude::*;

verus! {

/// `String::push` appends the character to the end of the text.
pub assume_specification[ String::push ](s: &mut String, c: char)
    ensures
        final(s)@ == old(s)@.push(c),
;

/// The encoder state that `alac_encoder` keeps from one frame to the next.
#[verifier::external_type_specification]
#[verifier::external_body]
pub struct ExAlacEncoder(alac_encoder::AlacEncoder);

/// The error of an HKDF expansion that asks for too many bytes.
#[verifier::external_type_specification]
#[verifier::external_body]
pub struct ExInvalidLength(hkdf::InvalidLength);

/// The error of an encryption that was refused.
#[verifier::external_type_specification]
#[verifier::external_body]
pub struct ExAeadError(chacha20poly1305::aead::Error);

/// The error of a JSON serialisation.
#[verifier::external_type_specification]
#[verifier::external_body]
pub struct ExJsonError(serde_json::Error);

/// The frames that an ALAC encoder has encoded so far, in their order.
pub uninterp spec fn alac_frames(encoder: alac_encoder::AlacEncoder) -> Seq<Seq<u8>>;

/// The number of channels that an ALAC encoder was made for.
pub uninterp spec fn alac_channels(encoder: alac_encoder::AlacEncoder) -> u32;

/// The number of samples of each channel that fill a packet of an ALAC encoder.
pub uninterp spec fn alac_packet_samples(encoder: alac_encoder::AlacEncoder) -> u32;

/// The packet that an ALAC encoder makes of `frame`, 16-bit PCM of `samples` samples in each of
/// `channels` channels, when it has encoded the frames `earlier` before it. The encoder takes PCM in
/// the machine's byte order; the name is for little-endian machines, as all are that the bridge is
/// built for.
pub uninterp spec fn alac_packet(
    samples: u32,
    channels: u32,
    earlier: Seq<Seq<u8>>,
    frame: Seq<u8>,
) -> Seq<u8>;

/// `FormatDescription::alac` and `AlacEncoder::new`: a fresh encoder for packets of
/// `samples` samples in each of `channels` channels. The first of the two panics on a channel
/// count of 0 or above 8.
#[verifier::external_body]
pub(crate) fn alac_new(sample_rate: u32, samples: u32, channels: u32) -> (r: alac_encoder::AlacEncoder)
    requires
        1 <= channels <= 8,
        32 <= samples <= 4096,
    ensures
        alac_frames(r) == Seq::<Seq<u8>>::empty(),
        alac_channels(r) == channels,
        alac_packet_samples(r) == samples,
{
    let format = alac_encoder::FormatDescription::alac(sample_rate.into(), samples, channels);
    alac_encoder::AlacEncoder::new(&format)
}

/// `AlacEncoder::encode` on one full frame of 16-bit PCM: the packet is written to the front of
/// `output`, and its length returned. What the packet holds depends on the frames before it, for
/// the encoder's predictor adapts. A packet is never empty, and at most 64 bytes longer than its
/// frame: one that would be longer is replaced by the samples as they are.
///
/// The call panics where the frame holds other than the encoder's number of samples, or `output`
/// is too short. It writes a packet out before it compares its length, at less than 64 bits for
/// each 16-bit sample, so `output` has four times the frame's length to spare. It reads the frame
/// as 16-bit words, so it is handed the start of an allocation; with three channels or more it forms
/// slices that reach past the frame, of which it reads nothing there.
///
/// What is claimed is claimed of a build of `alac_encoder` without overflow checks. The encoder moves
/// the 16-bit coefficients of its predictor, and counts the bytes it has made in a `usize`, by plain
/// arithmetic. With overflow checks a history of frames that drives one of them past its range ends
/// in a panic; without them it wraps.
#[verifier::external_body]
pub(crate) fn alac_encode(
    encoder: &mut alac_encoder::AlacEncoder,
    sample_rate: u32,
    channels: u32,
    frame: &Vec<u8>,
    output: &mut Vec<u8>,
) -> (r: usize)
    requires
        1 <= channels <= 8,
        alac_channels(*old(encoder)) == channels,
        frame@.len() == 2 * channels * alac_packet_samples(*old(encoder)),
        old(output)@.len() >= 4 * frame@.len() + 64,
    ensures
        alac_frames(*final(encoder)) == alac_frames(*old(encoder)).push(frame@),
        alac_channels(*final(encoder)) == alac_channels(*old(encoder)),
        alac_packet_samples(*final(encoder)) == alac_packet_samples(*old(encoder)),
        final(output)@.len() == old(output)@.len(),
        0 < r <= frame@.len() + 64,
        final(output)@.take(r as int) == alac_packet(
            alac_packet_samples(*old(encoder)),
            channels,
            alac_frames(*old(encoder)),
            frame@,
        ),
{
    let format = alac_encoder::FormatDescription::pcm::<i16>(sample_rate.into(), channels);
    encoder.encode(&format, frame, output)
}

/// `rand::random` for 32 bits. Any value may come.
#[verifier::external_body]
pub(crate) fn random_u32() -> (r: u32) {
    rand::random()
}

/// `rand::random` for 64 bits. Any value may come.
#[verifier::external_body]
pub(crate) fn random_u64() -> (r: u64) {
    rand::random()
}

/// `rand::random` for 16 bytes. Any value may come.
#[verifier::external_body]
pub(crate) fn random_bytes() -> (r: [u8; 16]) {
    rand::random()
}

/// `StaticSecret::random_from_rng` of `x25519_dalek` on `rand::thread_rng`: the 32 bytes of a
/// fresh X25519 secret. Any value may come.
#[verifier::external_body]
pub(crate) fn x25519_random_secret() -> (r: [u8; 32]) {
    x25519_dalek::StaticSecret::random_from_rng(rand::thread_rng()).to_bytes()
}

/// The X25519 public key of a secret.
pub uninterp spec fn x25519_public(secret: Seq<u8>) -> Seq<u8>;

/// What X25519 agrees on between the holder of a secret and that of a public key.
pub uninterp spec fn x25519_shared(secret: Seq<u8>, public: Seq<u8>) -> Seq<u8>;

/// `PublicKey::from` a `StaticSecret`: the public key of a secret. Whoever holds another secret
/// agrees with it on what its holder agrees on with the other's public key.
#[verifier::external_body]
pub(crate) fn x25519_public_key(secret: &[u8; 32]) -> (r: [u8; 32])
    ensures
        r@ == x25519_public(secret@),
        forall|other: Seq<u8>|
            other.len() == 32 ==> #[trigger] x25519_shared(other, r@) == x25519_shared(
                secret@,
                x25519_public(other),
            ),
{
    x25519_dalek::PublicKey::from(&x25519_dalek::StaticSecret::from(*secret)).to_bytes()
}

/// `StaticSecret::diffie_hellman`: what X25519 agrees on.
#[verifier::external_body]
pub(crate) fn x25519_agree(secret: &[u8; 32], public: &[u8; 32]) -> (r: [u8; 32])
    ensures
        r@ == x25519_shared(secret@, public@),
{
    let secret = x25519_dalek::StaticSecret::from(*secret);
    secret.diffie_hellman(&x25519_dalek::PublicKey::from(*public)).to_bytes()
}

/// The 32 bytes that HKDF with SHA-256 and no salt derives from key material for a purpose.
pub uninterp spec fn hkdf_sha256(material: Seq<u8>, info: Seq<u8>) -> Seq<u8>;

/// `Hkdf::<Sha256>::new` without a salt, and `expand` to 32 bytes, which are few enough that it
/// never fails.
#[verifier::external_body]
pub(crate) fn hkdf_sha256_expand(material: &[u8], info: &[u8]) -> (r: Result<
    [u8; 32],
    hkdf::InvalidLength,
>)
    ensures
        r is Ok,
        r->Ok_0@ == hkdf_sha256(material@, info@),
{
    let mut key = [0u8; 32];
    hkdf::Hkdf::<sha2::Sha256>::new(None, material).expand(info, &mut key)?;
    Ok(key)
}

/// What ChaCha20-Poly1305 makes of a plaintext, without associated data.
pub uninterp spec fn chacha20poly1305_sealed(
    key: Seq<u8>,
    nonce: Seq<u8>,
    plaintext: Seq<u8>,
) -> Seq<u8>;

/// `ChaCha20Poly1305::new` and `encrypt`: the ciphertext, followed by a tag of 16 bytes. It fails
/// where the plaintext has `u32::MAX` full blocks of 64 bytes or more.
///
/// The first block of the key stream goes to the tag, which leaves `u32::MAX - 1` for the plaintext.
/// The call panics where it has just so many full blocks and a part of one more.
#[verifier::external_body]
pub(crate) fn chacha20poly1305_seal(key: &[u8; 32], nonce: &[u8; 12], plaintext: &[u8]) -> (r:
    Result<Vec<u8>, chacha20poly1305::aead::Error>)
    requires
        plaintext@.len() + 16 <= isize::MAX,
        plaintext@.len() / 64 == u32::MAX - 1 ==> plaintext@.len() % 64 == 0,
    ensures
        r is Ok <==> plaintext@.len() / 64 < u32::MAX,
        r matches Ok(sealed) ==> {
            &&& sealed@ == chacha20poly1305_sealed(key@, nonce@, plaintext@)
            &&& sealed@.len() == plaintext@.len() + 16
        },
{
    let cipher = chacha20poly1305::ChaCha20Poly1305::new(key.into());
    cipher.encrypt(nonce.into(), plaintext)
}

/// The character of the standard Base64 alphabet for a number below 64.
pub open spec fn base64_char(n: int) -> char {
    if n < 26 {
        (65 + n) as char
    } else if n < 52 {
        (71 + n) as char
    } else if n < 62 {
        (n - 4) as char
    } else if n == 62 {
        '+'
    } else {
        '/'
    }
}

/// Byte `i` of `bytes`; 0 after their end.
pub open spec fn byte_or_zero(bytes: Seq<u8>, i: int) -> int {
    if i < bytes.len() {
        bytes[i] as int
    } else {
        0
    }
}

/// Character `j` of `bytes` in Base64: the six bits that it stands for among the 24 of its three
/// bytes, or padding where these have ended.
pub open spec fn base64_at(bytes: Seq<u8>, j: int) -> char {
    let i = j / 4 * 3;
    let n = byte_or_zero(bytes, i) * 0x1_0000 + byte_or_zero(bytes, i + 1) * 256 + byte_or_zero(
        bytes,
        i + 2,
    );
    if j % 4 == 0 {
        base64_char(n / 0x4_0000)
    } else if j % 4 == 1 {
        base64_char((n / 0x1000) % 64)
    } else if i + j % 4 > bytes.len() {
        '='
    } else if j % 4 == 2 {
        base64_char((n / 64) % 64)
    } else {
        base64_char(n % 64)
    }
}

/// `bytes` in standard Base64, with padding.
pub open spec fn base64_text(bytes: Seq<u8>) -> Seq<char> {
    Seq::new(((bytes.len() + 2) / 3 * 4) as nat, |j: int| base64_at(bytes, j))
}

/// `encode` of the engine `STANDARD` of `base64`: the bytes in standard Base64, with padding.
#[verifier::external_body]
pub(crate) fn base64_encode(bytes: &[u8]) -> (r: String)
    requires
        (bytes@.len() + 2) / 3 * 4 <= isize::MAX,
    ensures
        r@ == base64_text(bytes@),
{
    base64::engine::general_purpose::STANDARD.encode(bytes)
}

/// The lower-case hexadecimal digit of a number below 16.
pub open spec fn json_hex(n: int) -> char {
    if n < 10 {
        (48 + n) as char
    } else {
        (87 + n) as char
    }
}

/// A character inside a JSON string: as it is, but for quotes, backslashes and control characters.
pub open spec fn json_char(c: char) -> Seq<char> {
    let n = c as u32 as int;
    if c == '"' {
        seq!['\\', '"']
    } else if c == '\\' {
        seq!['\\', '\\']
    } else if n == 8 {
        seq!['\\', 'b']
    } else if n == 9 {
        seq!['\\', 't']
    } else if n == 10 {
        seq!['\\', 'n']
    } else if n == 12 {
        seq!['\\', 'f']
    } else if n == 13 {
        seq!['\\', 'r']
    } else if n < 32 {
        seq!['\\', 'u', '0', '0', json_hex(n / 16), json_hex(n % 16)]
    } else {
        seq![c]
    }
}

/// The inside of a JSON string.
pub open spec fn json_chars(s: Seq<char>) -> Seq<char>
    decreases s.len(),
{
    if s.len() == 0 {
        Seq::empty()
    } else {
        json_chars(s.drop_last()) + json_char(s.last())
    }
}

/// The inside of a JSON array of strings.
pub open spec fn json_items(items: Seq<Seq<char>>) -> Seq<char>
    decreases items.len(),
{
    if items.len() == 0 {
        Seq::empty()
    } else {
        let last = seq!['"'] + json_chars(items.last()) + seq!['"'];
        if items.len() == 1 {
            last
        } else {
            json_items(items.drop_last()) + seq![','] + last
        }
    }
}

/// A JSON array of strings, without white space.
pub open spec fn json_array(items: Seq<Seq<char>>) -> Seq<char> {
    seq!['['] + json_items(items) + seq![']']
}

/// What the texts hold.
pub open spec fn texts(v: Seq<String>) -> Seq<Seq<char>> {
    v.map_values(|s: String| s@)
}

/// `serde_json::to_string` on a list of texts, where it never fails: their JSON array.
#[verifier::external_body]
pub(crate) fn json_of_texts(items: &Vec<String>) -> (r: Result<String, serde_json::Error>)
    ensures
        r is Ok,
        r->Ok_0@ == json_array(texts(items@)),
{
    serde_json::to_string(items)
}

} // verus!
