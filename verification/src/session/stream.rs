//! Audio of a session: from PCM to the packets that the receiver plays.

use crate::audio;
use crate::outside;
use crate::rtp;
use crate::session;
use crate::session::{AirPlaySession, AudioError};
use vstd::arithmetic::div_mod::*;
use vstd::prelude::*;
use vstd::slice::*;
use vstd::string::*;

verus! {

/// The ALAC packet that the session makes of a frame next.
pub open spec fn alac_of(s: session::SessionView, frame: Seq<u8>) -> Seq<u8> {
    audio::packet_of_frame(s.encoder, frame)
}

/// What the session sends of an ALAC packet: sealed, behind its nonce, where there is a key.
pub open spec fn payload_of(s: session::SessionView, packet: Seq<u8>) -> Seq<u8> {
    if s.encryption_enabled {
        sealed_payload(s, packet)
    } else {
        packet
    }
}

/// The session after it has sealed a payload: one more number is used.
pub open spec fn after_seal(s: session::SessionView) -> session::SessionView {
    session::SessionView {
        nonce_counter: ((s.nonce_counter + 1) % 0x1_0000_0000_0000_0000) as u64,
        ..s
    }
}

/// The session after it has sealed `n` payloads.
pub open spec fn after_seals(s: session::SessionView, n: nat) -> session::SessionView
    decreases n,
{
    if n == 0 {
        s
    } else {
        after_seal(after_seals(s, (n - 1) as nat))
    }
}

/// A plaintext sealed with the session's key and its next nonce, which stands in front.
pub open spec fn sealed_payload(s: session::SessionView, plaintext: Seq<u8>) -> Seq<u8> {
    rtp::nonce_of(s.nonce_counter) + outside::chacha20poly1305_sealed(
        s.encryption_key->0,
        rtp::nonce_of(s.nonce_counter),
        plaintext,
    )
}

/// The RTP packet that the session makes of a frame next.
pub open spec fn packet_of(s: session::SessionView, frame: Seq<u8>) -> Seq<u8> {
    rtp::rtp_packet(
        s.first_packet,
        s.rtp_seq,
        s.rtp_timestamp,
        s.ssrc,
        payload_of(s, alac_of(s, frame)),
    )
}

/// The session after it has made a packet of a frame.
pub open spec fn after_packet(s: session::SessionView, frame: Seq<u8>) -> session::SessionView {
    session::SessionView {
        encoder: audio::after_encoding(s.encoder, frame),
        nonce_counter: if s.encryption_enabled {
            ((s.nonce_counter + 1) % 0x1_0000_0000_0000_0000) as u64
        } else {
            s.nonce_counter
        },
        rtp_seq: ((s.rtp_seq + 1) % 0x1_0000) as u16,
        rtp_timestamp: ((s.rtp_timestamp + audio::SAMPLES_PER_FRAME) % 0x1_0000_0000) as u32,
        ..s
    }
}

/// The session after a packet has gone out.
pub open spec fn after_sent(s: session::SessionView) -> session::SessionView {
    session::SessionView { first_packet: false, ..s }
}

/// The session after frames, each made into a packet that went out.
pub open spec fn after_stream(
    s: session::SessionView,
    frames: Seq<Seq<u8>>,
) -> session::SessionView
    decreases frames.len(),
{
    if frames.len() == 0 {
        s
    } else {
        after_sent(after_packet(after_stream(s, frames.drop_last()), frames.last()))
    }
}

/// The frames of PCM to send: converted to the rate of AirPlay, cut, the last one made up with
/// silence.
pub open spec fn frames_to_send(pcm: Seq<u8>, sample_rate: int, channels: int) -> Seq<Seq<u8>> {
    rtp::frames(audio::resampled(pcm, sample_rate, 44100, channels), audio::frame_bytes(channels))
}

impl AirPlaySession {
    /// The frames of PCM to send: converted to the rate of AirPlay, cut, the last one made up
    /// with silence. A session that is not ready has none.
    pub fn audio_frames(&self, pcm_data: &[u8], sample_rate: u32, channels: u32) -> (r: Result<
        Vec<Vec<u8>>,
        AudioError,
    >)
        requires
            self@.audio_ready ==> {
                &&& channels > 0
                &&& audio::frame_bytes(channels as int) <= usize::MAX
                &&& audio::can_resample(
                    pcm_data@.len() as int,
                    sample_rate as int,
                    44100,
                    channels as int,
                )
            },
        ensures
            match r {
                Err(e) => !self@.audio_ready && e is SocketNotReady,
                Ok(frames) => {
                    &&& self@.audio_ready
                    &&& rtp::contents(frames@) == frames_to_send(
                        pcm_data@,
                        sample_rate as int,
                        channels as int,
                    )
                },
            },
    {
        if !self.audio_ready {
            return Err(AudioError::SocketNotReady);
        }
        let resampled: Vec<u8> = audio::ensure_44100(pcm_data, sample_rate, channels);
        let frame_size: usize = audio::SAMPLES_PER_FRAME * channels as usize * 2;
        Ok(rtp::cut_frames(resampled.as_slice(), frame_size))
    }

    /// The number of the next audio packet, which is then used.
    fn next_rtp_seq(&mut self) -> (r: u16)
        ensures
            r == old(self)@.rtp_seq,
            final(self)@ == (session::SessionView {
                rtp_seq: ((r + 1) % 0x1_0000) as u16,
                ..old(self)@
            }),
            final(self).wf() == old(self).wf(),
    {
        let r: u16 = self.rtp_seq;
        self.rtp_seq = r.wrapping_add(1);
        r
    }

    /// Moves the timestamp of the next audio packet on.
    fn advance_rtp_timestamp(&mut self, samples: u32)
        ensures
            final(self)@ == (session::SessionView {
                rtp_timestamp: ((old(self)@.rtp_timestamp + samples) % 0x1_0000_0000) as u32,
                ..old(self)@
            }),
            final(self).wf() == old(self).wf(),
    {
        self.rtp_timestamp = self.rtp_timestamp.wrapping_add(samples);
    }

    /// Seals a payload with the session's key and its next nonce, which stands in front. The cipher
    /// seals `u32::MAX - 1` blocks of 64 bytes and no part of one more.
    pub fn encrypt_payload(&mut self, plaintext: &[u8]) -> (r: Result<Vec<u8>, AudioError>)
        requires
            old(self)@.encryption_key is Some ==> {
                &&& plaintext@.len() + 16 <= isize::MAX
                &&& plaintext@.len() / 64 == u32::MAX - 1 ==> plaintext@.len() % 64 == 0
            },
        ensures
            old(self).wf() ==> final(self).wf(),
            r matches Err(AudioError::NoKey) <==> old(self)@.encryption_key is None,
            r matches Err(AudioError::Encryption) <==> {
                &&& old(self)@.encryption_key is Some
                &&& plaintext@.len() / 64 >= u32::MAX
            },
            r matches Err(e) ==> e is NoKey || e is Encryption,
            r matches Ok(payload) ==> {
                &&& payload@ == sealed_payload(old(self)@, plaintext@)
                &&& payload@.len() == plaintext@.len() + 28
            },
            final(self)@ == if old(self)@.encryption_key is Some {
                after_seal(old(self)@)
            } else {
                old(self)@
            },
    {
        match self.encryption_key {
            None => Err(AudioError::NoKey),
            Some(key) => {
                let counter: u64 = self.nonce_counter;
                self.nonce_counter = counter.wrapping_add(1);
                let nonce: [u8; 12] = rtp::nonce_bytes(counter);
                match outside::chacha20poly1305_seal(&key, &nonce, plaintext) {
                    Ok(sealed) => Ok(rtp::nonce_and_sealed(&nonce, sealed.as_slice())),
                    Err(_) => Err(AudioError::Encryption),
                }
            },
        }
    }

    /// The RTP packet of a payload, under the next number and timestamp.
    pub fn packet_with(&mut self, payload: &[u8]) -> (r: Vec<u8>)
        ensures
            old(self).wf() ==> final(self).wf(),
            r@ == rtp::rtp_packet(
                old(self)@.first_packet,
                old(self)@.rtp_seq,
                old(self)@.rtp_timestamp,
                old(self)@.ssrc,
                payload@,
            ),
            final(self)@ == (session::SessionView {
                rtp_seq: ((old(self)@.rtp_seq + 1) % 0x1_0000) as u16,
                rtp_timestamp: ((old(self)@.rtp_timestamp + 352) % 0x1_0000_0000) as u32,
                ..old(self)@
            }),
    {
        let seq: u16 = self.next_rtp_seq();
        let packet: Vec<u8> = rtp::create_rtp_packet(
            self.first_packet,
            seq,
            self.rtp_timestamp,
            self.ssrc,
            payload,
        );
        self.advance_rtp_timestamp(352);
        packet
    }

    /// The RTP packet of the next frame of PCM: encoded, and encrypted where there is a key. Only
    /// data short of a frame have none. The channels are the encoder's two.
    pub fn audio_packet(&mut self, frame: &[u8], channels: u32) -> (r: Result<Vec<u8>, AudioError>)
        requires
            old(self).wf(),
            audio::frame_bytes(channels as int) <= usize::MAX,
            frame@.len() >= audio::frame_bytes(channels as int) ==> channels == 2,
        ensures
            final(self).wf(),
            match r {
                Err(e) => {
                    &&& frame@.len() < audio::frame_bytes(channels as int)
                    &&& e == AudioError::Encode(
                        audio::EncodeError::ShortAlacFrame {
                            got: frame@.len() as usize,
                            need: audio::frame_bytes(channels as int) as usize,
                        },
                    )
                    &&& final(self)@ == old(self)@
                },
                Ok(packet) => {
                    let whole = audio::first_frame(frame@, channels as int);
                    &&& frame@.len() >= audio::frame_bytes(channels as int)
                    &&& packet@ == packet_of(old(self)@, whole)
                    &&& final(self)@ == after_packet(old(self)@, whole)
                },
            },
    {
        let encoded: Vec<u8> = match self.audio_encoder.encode_alac(
            frame,
            audio::AIRPLAY_SAMPLE_RATE,
            channels,
        ) {
            Ok(packet) => packet,
            Err(e) => {
                return Err(AudioError::Encode(e));
            },
        };
        let payload: Vec<u8> = if self.encryption_enabled {
            match self.encrypt_payload(encoded.as_slice()) {
                Ok(payload) => payload,
                Err(e) => {
                    return Err(e);
                },
            }
        } else {
            encoded
        };
        let packet: Vec<u8> = self.packet_with(payload.as_slice());
        Ok(packet)
    }

    /// Notes that a packet has gone out: the stream has begun.
    pub fn packet_sent(&mut self)
        requires
            old(self).wf(),
        ensures
            final(self).wf(),
            final(self)@ == after_sent(old(self)@),
    {
        self.first_packet = false;
    }
}

impl AudioError {
    /// The text of the error.
    pub open spec fn text(self) -> Seq<char> {
        match self {
            AudioError::SocketNotReady => "Audio socket not initialized"@,
            AudioError::Encode(e) => e.text(),
            AudioError::NoKey => "No encryption key"@,
            AudioError::Encryption => "Encryption failed: aead::Error"@,
        }
    }

    /// The text of the error.
    pub fn message(&self) -> (r: String)
        ensures
            r@ == self.text(),
    {
        match self {
            AudioError::SocketNotReady => String::from_str("Audio socket not initialized"),
            AudioError::Encode(e) => e.message(),
            AudioError::NoKey => String::from_str("No encryption key"),
            AudioError::Encryption => String::from_str("Encryption failed: aead::Error"),
        }
    }
}

/// A counter that has moved on by `n`, and moves on by `k`, has moved on by both.
proof fn lemma_counts_on(start: int, n: int, k: int, m: int)
    requires
        0 <= k < m,
    ensures
        ((start + n) % m + k) % m == (start + n + k) % m,
{
    lemma_add_mod_noop(start + n, k, m);
    lemma_small_mod(k as nat, m as nat);
}

/// After frames have gone out, the numbers have moved on by one for each and the timestamps by its
/// samples; nothing but the numbers, the encoder and the mark of the first packet has changed.
proof fn lemma_after_stream(s: session::SessionView, frames: Seq<Seq<u8>>)
    ensures
        ({
            let t = after_stream(s, frames);
            let n = frames.len();
            &&& t.rtp_seq == (s.rtp_seq + n) % 0x1_0000
            &&& t.rtp_timestamp == (s.rtp_timestamp + 352 * n) % 0x1_0000_0000
            &&& t.nonce_counter == if s.encryption_enabled {
                (s.nonce_counter + n) % 0x1_0000_0000_0000_0000
            } else {
                s.nonce_counter as int
            }
            &&& t.first_packet == (s.first_packet && n == 0)
            &&& t.ssrc == s.ssrc
            &&& t.encryption_enabled == s.encryption_enabled
            &&& t.encryption_key == s.encryption_key
            &&& t.encoder.channels == s.encoder.channels
            &&& t.encoder.encoded == s.encoder.encoded + frames
        }),
    decreases frames.len(),
{
    if frames.len() == 0 {
        assert(s.encoder.encoded + frames == s.encoder.encoded);
    } else {
        lemma_after_stream(s, frames.drop_last());
        let n = frames.len() - 1;
        lemma_counts_on(s.rtp_seq as int, n, 1, 0x1_0000);
        lemma_counts_on(s.rtp_timestamp as int, 352 * n, 352, 0x1_0000_0000);
        lemma_counts_on(s.nonce_counter as int, n, 1, 0x1_0000_0000_0000_0000);
        assert(s.encoder.encoded + frames == (s.encoder.encoded + frames.drop_last()).push(
            frames.last(),
        ));
    }
}

/// The packets of a stream bear consecutive numbers, and timestamps a frame apart; the first packet
/// that goes out is marked, and no other; each is encoded after all the frames before it.
pub proof fn law_stream_packets(s: session::SessionView, frames: Seq<Seq<u8>>, k: int)
    requires
        0 <= k < frames.len(),
    ensures
        ({
            let t = after_stream(s, frames.take(k));
            packet_of(t, frames[k]) == rtp::rtp_packet(
                s.first_packet && k == 0,
                ((s.rtp_seq + k) % 0x1_0000) as u16,
                ((s.rtp_timestamp + 352 * k) % 0x1_0000_0000) as u32,
                s.ssrc,
                payload_of(
                    t,
                    outside::alac_packet(
                        352,
                        s.encoder.channels,
                        s.encoder.encoded + frames.take(k),
                        frames[k],
                    ),
                ),
            )
        }),
{
    lemma_after_stream(s, frames.take(k));
}

/// A packet that could not be sent has used up its number, its timestamp and its nonce, but not the
/// mark of the first: that is on the next packet.
pub proof fn law_unsent_packet_keeps_mark(
    s: session::SessionView,
    unsent: Seq<u8>,
    frame: Seq<u8>,
)
    ensures
        ({
            let t = after_packet(s, unsent);
            packet_of(t, frame) == rtp::rtp_packet(
                s.first_packet,
                ((s.rtp_seq + 1) % 0x1_0000) as u16,
                ((s.rtp_timestamp + 352) % 0x1_0000_0000) as u32,
                s.ssrc,
                payload_of(t, alac_of(t, frame)),
            )
        }),
        s.encryption_enabled ==> after_packet(s, unsent).nonce_counter == (s.nonce_counter + 1)
            % 0x1_0000_0000_0000_0000,
{
}

/// No two payloads that a session has sealed begin with the same nonce, whatever they hold: not
/// before all 64-bit numbers have been used.
pub proof fn law_sealed_payloads_differ(
    s: session::SessionView,
    i: nat,
    j: nat,
    first: Seq<u8>,
    second: Seq<u8>,
)
    requires
        i < j < i + 0x1_0000_0000_0000_0000,
    ensures
        sealed_payload(after_seals(s, i), first).take(12) != sealed_payload(
            after_seals(s, j),
            second,
        ).take(12),
{
    lemma_after_seals(s, i);
    lemma_after_seals(s, j);
    rtp::law_nonces_differ(s.nonce_counter, i, j);
    let a = after_seals(s, i);
    let b = after_seals(s, j);
    assert(sealed_payload(a, first).take(12) == rtp::nonce_of(a.nonce_counter));
    assert(sealed_payload(b, second).take(12) == rtp::nonce_of(b.nonce_counter));
}

/// Each sealed payload has used one number, and nothing else.
proof fn lemma_after_seals(s: session::SessionView, n: nat)
    ensures
        after_seals(s, n) == (session::SessionView {
            nonce_counter: ((s.nonce_counter + n) % 0x1_0000_0000_0000_0000) as u64,
            ..s
        }),
    decreases n,
{
    if n > 0 {
        lemma_after_seals(s, (n - 1) as nat);
        lemma_counts_on(s.nonce_counter as int, n - 1, 1, 0x1_0000_0000_0000_0000);
    }
}

/// No two packets of an encrypted stream are sealed with the same nonce: not before all 64-bit
/// numbers have been used.
pub proof fn law_stream_nonces_differ(
    s: session::SessionView,
    frames: Seq<Seq<u8>>,
    i: int,
    j: int,
)
    requires
        s.encryption_enabled,
        0 <= i < j <= frames.len(),
        j - i < 0x1_0000_0000_0000_0000,
    ensures
        rtp::nonce_of(after_stream(s, frames.take(i)).nonce_counter) != rtp::nonce_of(
            after_stream(s, frames.take(j)).nonce_counter,
        ),
{
    lemma_after_stream(s, frames.take(i));
    lemma_after_stream(s, frames.take(j));
    rtp::law_nonces_differ(s.nonce_counter, i as nat, j as nat);
}

/// What stands in front of a sealed payload is the nonce that the rest is sealed under, with the
/// session's key: a receiver that knows the key can open it.
pub proof fn law_sealed_under_its_nonce(
    s: session::SessionView,
    key: Seq<u8>,
    plaintext: Seq<u8>,
)
    requires
        s.encryption_key == Some(key),
    ensures
        ({
            let payload = sealed_payload(s, plaintext);
            &&& payload.len() >= 12
            &&& payload.skip(12) == outside::chacha20poly1305_sealed(
                key,
                payload.take(12),
                plaintext,
            )
            &&& payload.take(4) == seq![0u8, 0, 0, 0]
            &&& s.nonce_counter == payload[4] + 0x100 * (payload[5] + 0x100 * (payload[6] + 0x100
                * (payload[7] + 0x100 * (payload[8] + 0x100 * (payload[9] + 0x100 * (payload[10]
                + 0x100 * payload[11]))))))
        }),
{
    rtp::law_nonce_reads_back(s.nonce_counter);
    let payload = sealed_payload(s, plaintext);
    let nonce = rtp::nonce_of(s.nonce_counter);
    assert(payload.take(12) == nonce);
    assert(payload.skip(12) == outside::chacha20poly1305_sealed(key, nonce, plaintext));
    assert(payload.take(4) == nonce.take(4));
    assert forall|i: int| 0 <= i < 12 implies payload[i] == nonce[i] by {}
}

/// Sealing uses one number up, and changes nothing else.
pub proof fn law_sealing_counts(s: session::SessionView)
    ensures
        (after_seal(s).nonce_counter - (s.nonce_counter + 1)) % 0x1_0000_0000_0000_0000 == 0,
        (session::SessionView { nonce_counter: s.nonce_counter, ..after_seal(s) }) == s,
{
}

/// Each packet of an encrypted stream carries its frame, encoded after all those before it, sealed
/// with the session's key under the nonce in front, which writes the next number.
#[verifier::rlimit(50)]
pub proof fn law_encrypted_packet_can_be_opened(
    s: session::SessionView,
    key: Seq<u8>,
    frames: Seq<Seq<u8>>,
    k: int,
)
    requires
        s.encryption_enabled,
        s.encryption_key == Some(key),
        0 <= k < frames.len(),
    ensures
        ({
            let payload = packet_of(after_stream(s, frames.take(k)), frames[k]).skip(12);
            let nonce = payload.take(12);
            &&& payload.skip(12) == outside::chacha20poly1305_sealed(
                key,
                nonce,
                outside::alac_packet(
                    352,
                    s.encoder.channels,
                    s.encoder.encoded + frames.take(k),
                    frames[k],
                ),
            )
            &&& (s.nonce_counter + k - (nonce[4] + 0x100 * (nonce[5] + 0x100 * (nonce[6] + 0x100
                * (nonce[7] + 0x100 * (nonce[8] + 0x100 * (nonce[9] + 0x100 * (nonce[10] + 0x100
                * nonce[11])))))))) % 0x1_0000_0000_0000_0000 == 0
        }),
{
    let t = after_stream(s, frames.take(k));
    lemma_after_stream(s, frames.take(k));
    let packet = outside::alac_packet(
        352,
        s.encoder.channels,
        s.encoder.encoded + frames.take(k),
        frames[k],
    );
    law_stream_packets(s, frames, k);
    law_sealed_under_its_nonce(t, key, packet);
    lemma_fundamental_div_mod(s.nonce_counter + k, 0x1_0000_0000_0000_0000);
    let whole = packet_of(t, frames[k]);
    let payload = sealed_payload(t, packet);
    assert(whole.skip(12) == payload);
    assert forall|i: int| 0 <= i < 12 implies payload.take(12)[i] == payload[i] by {}
}

/// Without encryption a packet carries the encoded frame as it is.
pub proof fn law_plain_packet_carries_frame(
    s: session::SessionView,
    frames: Seq<Seq<u8>>,
    k: int,
)
    requires
        !s.encryption_enabled,
        0 <= k < frames.len(),
    ensures
        packet_of(after_stream(s, frames.take(k)), frames[k]).skip(12) == outside::alac_packet(
            352,
            s.encoder.channels,
            s.encoder.encoded + frames.take(k),
            frames[k],
        ),
{
    let t = after_stream(s, frames.take(k));
    lemma_after_stream(s, frames.take(k));
    law_stream_packets(s, frames, k);
    let packet = outside::alac_packet(
        352,
        s.encoder.channels,
        s.encoder.encoded + frames.take(k),
        frames[k],
    );
    assert(packet_of(t, frames[k]).skip(12) == packet);
}

/// A stream moves the numbers, the timestamps and the encoder on, and clears the mark of the first
/// packet; nothing else changes.
pub proof fn law_stream_changes_only_counters(s: session::SessionView, frames: Seq<Seq<u8>>)
    ensures
        ({
            let t = after_stream(s, frames);
            &&& (t.rtp_seq - (s.rtp_seq + frames.len())) % 0x1_0000 == 0
            &&& (t.rtp_timestamp - (s.rtp_timestamp + 352 * frames.len())) % 0x1_0000_0000 == 0
            &&& t.encoder.encoded == s.encoder.encoded + frames
            &&& t.first_packet <==> s.first_packet && frames.len() == 0
            &&& t == (session::SessionView {
                rtp_seq: t.rtp_seq,
                rtp_timestamp: t.rtp_timestamp,
                nonce_counter: t.nonce_counter,
                first_packet: t.first_packet,
                encoder: audio::EncoderView {
                    encoded: t.encoder.encoded,
                    output: t.encoder.output,
                    ..s.encoder
                },
                ..s
            })
        }),
    decreases frames.len(),
{
    lemma_after_stream(s, frames);
    if frames.len() > 0 {
        law_stream_changes_only_counters(s, frames.drop_last());
    }
}

/// The text of an error says what stood in the way.
pub proof fn law_audio_error_texts(e: audio::EncodeError)
    ensures
        AudioError::SocketNotReady.text() == "Audio socket not initialized"@,
        AudioError::Encode(e).text() == e.text(),
        AudioError::NoKey.text() == "No encryption key"@,
        AudioError::Encryption.text() == "Encryption failed: aead::Error"@,
{
}

/// The frames to send hold the audio, at 44100 Hz, in order and all of it, and then silence; each
/// takes 704 bytes for each channel.
pub proof fn law_frames_to_send_hold_audio(
    pcm: Seq<u8>,
    sample_rate: int,
    channels: int,
    k: int,
)
    requires
        channels > 0,
        0 <= k < frames_to_send(pcm, sample_rate, channels).len() * (704 * channels),
    ensures
        ({
            let frames = frames_to_send(pcm, sample_rate, channels);
            let size = 704 * channels;
            let sound = audio::resampled(pcm, sample_rate, 44100, channels);
            &&& frames[k / size].len() == size
            &&& frames[k / size][k % size] == if k < sound.len() {
                sound[k]
            } else {
                0u8
            }
        }),
{
    audio::law_frame_sizes(audio::fresh_encoder(44100, 2, 16), channels);
    rtp::law_frames_hold_pcm(
        audio::resampled(pcm, sample_rate, 44100, channels),
        704 * channels,
        k,
    );
}

/// There are as many frames to send as the audio needs, and no more; audio at 44100 Hz is sent as it
/// is.
pub proof fn law_frames_to_send_are_enough(pcm: Seq<u8>, sample_rate: int, channels: int)
    requires
        channels > 0,
    ensures
        ({
            let n = frames_to_send(pcm, sample_rate, channels).len();
            let sound = audio::resampled(pcm, sample_rate, 44100, channels);
            (n - 1) * (704 * channels) < sound.len() <= n * (704 * channels)
        }),
        sample_rate == 44100 ==> audio::resampled(pcm, sample_rate, 44100, channels) == pcm,
{
    audio::law_frame_sizes(audio::fresh_encoder(44100, 2, 16), channels);
    rtp::law_frames_are_as_many_as_needed(
        audio::resampled(pcm, sample_rate, 44100, channels),
        704 * channels,
    );
}

} // verus!
