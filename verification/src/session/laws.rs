//! What the handshake does, event by event, as a receiver sees it.

use crate::audio;
use crate::headers;
use crate::outside;
use crate::requests;
use crate::response;
use crate::response::RtspResponse;
use crate::session;
use crate::session::setup;
use crate::session::{
    AirPlayDevice, PairError, Pairing, SetupAction, SetupError, SetupEvent, SetupPhase,
};
use crate::text;
use vstd::prelude::*;
use vstd::string::*;
use vstd::utf8::*;

verus! {

/// A fresh session has sent nothing, starts all its counters at 0, at full volume and without a key,
/// and bears the identity that it was given, in 16 hexadecimal digits.
pub proof fn law_new_session(
    device: AirPlayDevice,
    local_address: Seq<char>,
    ssrc: u32,
    instance: u64,
    now: u64,
)
    ensures
        ({
            let s = session::new_session(device, local_address, ssrc, instance, now);
            &&& s.name == device.name@
            &&& s.address == device.address@
            &&& s.port == device.port
            &&& s.airplay2 == device.supports_airplay2
            &&& s.local_address == local_address
            &&& s.cseq == 0
            &&& s.rtp_seq == 0
            &&& s.rtp_timestamp == 0
            &&& s.ssrc == ssrc
            &&& s.client_instance.len() == 16
            &&& text::hex_value(s.client_instance) == instance
            &&& s.encoder == audio::fresh_encoder(44100, 2, 16)
            &&& !s.audio_ready
            &&& s.server_audio_port == 6000
            &&& s.session_id == "1"@
            &&& s.volume == 100
            &&& !s.encryption_enabled
            &&& s.encryption_key is None
            &&& s.nonce_counter == 0
            &&& s.first_packet
            &&& s.last_keepalive == now
            &&& s.phase == SetupPhase::Start
        }),
{
    reveal_with_fuel(vstd::arithmetic::power::pow, 17);
    assert(vstd::arithmetic::power::pow(16, 16) == 0x1_0000_0000_0000_0000);
    text::law_hex_reads_back(instance as nat, 16);
}

/// A status line has a code where the code stands somewhere in it.
pub proof fn law_code_stands_in_status(status: Seq<char>, code: Seq<char>)
    ensures
        response::has_code(status, code) <==> exists|i: int|
            0 <= i <= status.len() - code.len() && #[trigger] status.subrange(i, i + code.len())
                == code,
{
    text::law_contains_somewhere(status, code);
}

/// The handshake begins with OPTIONS and the challenge, and waits five seconds for the answer. The
/// secret is kept for the key exchange.
pub proof fn law_begins_with_options(
    s: session::SessionView,
    challenge: [u8; 16],
    secret: [u8; 32],
    a: SetupAction,
)
    requires
        s.phase == SetupPhase::Start,
        s.cseq < u32::MAX,
        setup::setup_does(s, (SetupEvent::Begin { challenge, secret }), a),
    ensures
        ({
            &&& a matches SetupAction::Send { request, body, timeout }
            &&& request@ == requests::options_request(
                (s.cseq + 1) as nat,
                s.client_instance,
                s.ssrc as nat,
                outside::base64_text(challenge@),
            )
            &&& body@.len() == 0
            &&& timeout == Some(5u64)
        }),
        setup::setup_next(s, (SetupEvent::Begin { challenge, secret })) == (session::SessionView {
            phase: SetupPhase::OptionsSent,
            cseq: (s.cseq + 1) as u32,
            pairing_secret: secret@,
            ..s
        }),
{
}

/// Only a receiver that answers OPTIONS with 200 is gone on with. One that knows AirPlay 2 is sent
/// the 32 bytes of the session's public key, for which no time is set; for another the sockets are
/// next.
pub proof fn law_options_answered(s: session::SessionView, r: RtspResponse, a: SetupAction)
    requires
        s.phase == SetupPhase::OptionsSent,
        s.cseq < u32::MAX,
        setup::setup_does(s, SetupEvent::Response(r), a),
    ensures
        !response::has_code(r.status_line@, "200"@) ==> {
            &&& a matches SetupAction::Fail(SetupError::OptionsFailed(t)) && t@ == r.status_line@
            &&& setup::setup_next(s, SetupEvent::Response(r)) == (session::SessionView {
                phase: SetupPhase::Failed,
                ..s
            })
        },
        response::has_code(r.status_line@, "200"@) && !s.airplay2 ==> {
            &&& a matches SetupAction::Bind(Pairing::NotSupported)
            &&& setup::setup_next(s, SetupEvent::Response(r)) == (session::SessionView {
                phase: SetupPhase::Binding,
                ..s
            })
        },
        response::has_code(r.status_line@, "200"@) && s.airplay2 ==> {
            &&& a matches SetupAction::Send { request, body, timeout }
            &&& request@ == requests::pair_setup_request((s.cseq + 1) as nat, 32)
            &&& body@.len() == 32
            &&& body@ == outside::x25519_public(s.pairing_secret)
            &&& timeout is None
            &&& setup::setup_next(s, SetupEvent::Response(r)) == (session::SessionView {
                phase: SetupPhase::PairSetupSent,
                cseq: (s.cseq + 1) as u32,
                ..s
            })
        },
{
}

/// An answer of 200 with 32 bytes or more gives the session a key: what HKDF derives, for the audio,
/// from what X25519 agrees on between the session's secret and the first 32 bytes. One of 403, and
/// not 200, is met by asking to pair without a PIN. Any other leaves the session without a key, and
/// the sockets are next.
pub proof fn law_pairing_answered(s: session::SessionView, r: RtspResponse, a: SetupAction)
    requires
        s.phase == SetupPhase::PairSetupSent,
        s.cseq < u32::MAX,
        setup::setup_does(s, SetupEvent::Response(r), a),
    ensures
        ({
            let ok = response::has_code(r.status_line@, "200"@);
            let pin = !ok && response::has_code(r.status_line@, "403"@);
            let t = setup::setup_next(s, SetupEvent::Response(r));
            &&& pin ==> {
                &&& a matches SetupAction::Send { request, body, timeout }
                &&& request@ == requests::pin_start_request((s.cseq + 1) as nat)
                &&& body@.len() == 0
                &&& timeout is None
                &&& t == (session::SessionView {
                    phase: SetupPhase::PinStartSent,
                    cseq: (s.cseq + 1) as u32,
                    ..s
                })
            }
            &&& !pin ==> (a matches SetupAction::Bind(Pairing::Completed))
            &&& ok && r.body@.len() >= 32 ==> t == (session::SessionView {
                phase: SetupPhase::Binding,
                encryption_enabled: true,
                encryption_key: Some(
                    outside::hkdf_sha256(
                        outside::x25519_shared(s.pairing_secret, r.body@.subrange(0, 32)),
                        encode_utf8("AirPlay-Audio-Key"@),
                    ),
                ),
                ..s
            })
            &&& !pin && !(ok && r.body@.len() >= 32) ==> t == (session::SessionView {
                phase: SetupPhase::Binding,
                ..s
            })
        }),
{
    assert(r.body@.len() >= 32 ==> r.body@.take(32) == r.body@.subrange(0, 32));
}

/// Whether the receiver pairs without a PIN or not, the sockets are next.
pub proof fn law_pin_answered(s: session::SessionView, r: RtspResponse, a: SetupAction)
    requires
        s.phase == SetupPhase::PinStartSent,
        setup::setup_does(s, SetupEvent::Response(r), a),
    ensures
        response::has_code(r.status_line@, "200"@) ==> a matches SetupAction::Bind(
            Pairing::Completed,
        ),
        !response::has_code(r.status_line@, "200"@) ==> a matches SetupAction::Bind(
            Pairing::Skipped(PairError::PinRequired),
        ),
        setup::setup_next(s, SetupEvent::Response(r)) == (session::SessionView {
            phase: SetupPhase::Binding,
            ..s
        }),
{
}

/// With the sockets bound, the audio is announced, from the session's own address, at the stream's
/// address. The ports are kept for SETUP.
pub proof fn law_sockets_bound(
    s: session::SessionView,
    control_port: u16,
    timing_port: u16,
    a: SetupAction,
)
    requires
        s.phase == SetupPhase::Binding,
        s.cseq < u32::MAX,
        setup::setup_does(s, (SetupEvent::Bound { control_port, timing_port }), a),
    ensures
        ({
            &&& a matches SetupAction::Send { request, body, timeout }
            &&& request@ == requests::announce_request(
                requests::stream_url(s.address, s.port as nat, s.ssrc as nat),
                (s.cseq + 1) as nat,
                s.client_instance,
                requests::audio_description(s.local_address),
            )
            &&& body@.len() == 0
            &&& timeout == Some(5u64)
        }),
        setup::setup_next(s, (SetupEvent::Bound { control_port, timing_port })) == (
        session::SessionView {
            phase: SetupPhase::AnnounceSent,
            cseq: (s.cseq + 1) as u32,
            control_port,
            timing_port,
            ..s
        }),
{
}

/// A receiver that wants to know who is there, with 401 or 403, is given up. Any other answer to
/// ANNOUNCE is followed by SETUP, with the ports that were bound.
pub proof fn law_announce_answered(s: session::SessionView, r: RtspResponse, a: SetupAction)
    requires
        s.phase == SetupPhase::AnnounceSent,
        s.cseq < u32::MAX,
        setup::setup_does(s, SetupEvent::Response(r), a),
    ensures
        ({
            let refused = response::has_code(r.status_line@, "401"@) || response::has_code(
                r.status_line@,
                "403"@,
            );
            let t = setup::setup_next(s, SetupEvent::Response(r));
            &&& refused ==> {
                &&& a matches SetupAction::Fail(SetupError::AuthRequired(why)) && why@
                    == r.status_line@
                &&& t == (session::SessionView { phase: SetupPhase::Failed, ..s })
            }
            &&& !refused ==> {
                &&& a matches SetupAction::Send { request, body, timeout }
                &&& request@ == requests::setup_request(
                    requests::stream_url(s.address, s.port as nat, s.ssrc as nat),
                    (s.cseq + 1) as nat,
                    s.control_port as nat,
                    s.timing_port as nat,
                    s.client_instance,
                )
                &&& body@.len() == 0
                &&& timeout == Some(5u64)
                &&& t == (session::SessionView {
                    phase: SetupPhase::SetupSent,
                    cseq: (s.cseq + 1) as u32,
                    ..s
                })
            }
        }),
{
}

/// Audio goes to the port that an accepted SETUP names, whichever it is, and to 6000 only where none
/// is named. Timing queries are answered where a timing port is named. The session takes the name
/// that the receiver gives it.
pub proof fn law_connects_to_named_port(s: session::SessionView, r: RtspResponse, a: SetupAction)
    requires
        s.phase == SetupPhase::SetupSent,
        response::has_code(r.status_line@, "200"@),
        setup::setup_does(s, SetupEvent::Response(r), a),
    ensures
        ({
            let t = setup::setup_next(s, SetupEvent::Response(r));
            &&& a matches SetupAction::Connect { audio_port, timing_port }
            &&& match headers::server_port(r.headers@) {
                Some(n) => audio_port == n && t.server_audio_port == n,
                None => audio_port == 6000 && t.server_audio_port == 6000,
            }
            &&& match headers::timing_port(r.headers@) {
                Some(n) => timing_port matches Some(p) && p == n,
                None => timing_port is None,
            }
            &&& match headers::session_id(r.headers@) {
                Some(id) => t.session_id == id,
                None => t.session_id == s.session_id,
            }
            &&& t == (session::SessionView {
                phase: SetupPhase::Connecting,
                server_audio_port: t.server_audio_port,
                session_id: t.session_id,
                ..s
            })
        }),
{
    headers::law_ports_without_parameter(r.headers@);
}

/// A receiver that refuses SETUP is given up.
pub proof fn law_refused_setup_fails(s: session::SessionView, r: RtspResponse, a: SetupAction)
    requires
        s.phase == SetupPhase::SetupSent,
        !response::has_code(r.status_line@, "200"@),
        setup::setup_does(s, SetupEvent::Response(r), a),
    ensures
        a matches SetupAction::Fail(SetupError::SetupFailed(why)) && why@ == r.status_line@,
        setup::setup_next(s, SetupEvent::Response(r)) == (session::SessionView {
            phase: SetupPhase::Failed,
            ..s
        }),
{
}

/// With the audio socket connected, RECORD starts the playback at the number and the timestamp of
/// the next packet, and the session is ready for audio.
pub proof fn law_connected_records(s: session::SessionView, a: SetupAction)
    requires
        s.phase == SetupPhase::Connecting,
        s.cseq < u32::MAX,
        setup::setup_does(s, SetupEvent::Connected, a),
    ensures
        ({
            &&& a matches SetupAction::Send { request, body, timeout }
            &&& request@ == requests::record_request(
                requests::stream_url(s.address, s.port as nat, s.ssrc as nat),
                (s.cseq + 1) as nat,
                s.rtp_seq as nat,
                s.rtp_timestamp as nat,
                s.session_id,
            )
            &&& body@.len() == 0
            &&& timeout == Some(5u64)
        }),
        setup::setup_next(s, SetupEvent::Connected) == (session::SessionView {
            phase: SetupPhase::RecordSent,
            cseq: (s.cseq + 1) as u32,
            audio_ready: true,
            ..s
        }),
{
}

/// After RECORD the session is ready, whatever the receiver answers, and also where it does not.
pub proof fn law_record_ends_handshake(s: session::SessionView, e: SetupEvent, a: SetupAction)
    requires
        s.phase == SetupPhase::RecordSent,
        e is Response || e is ReadError || e is Timeout,
        setup::setup_does(s, e, a),
    ensures
        a is Done,
        setup::setup_next(s, e) == (session::SessionView { phase: SetupPhase::Ready, ..s }),
{
}

/// A response that cannot be read, or does not come in time, ends the handshake, but for those of the
/// key exchange and of RECORD; the error says which response it was.
pub proof fn law_missing_response_fails(s: session::SessionView, reason: String, a: SetupAction)
    requires
        s.phase == SetupPhase::OptionsSent || s.phase == SetupPhase::AnnounceSent || s.phase
            == SetupPhase::SetupSent,
    ensures
        setup::setup_next(s, SetupEvent::Timeout).phase == SetupPhase::Failed,
        setup::setup_next(s, SetupEvent::ReadError(reason)).phase == SetupPhase::Failed,
        setup::setup_does(s, SetupEvent::Timeout, a) ==> match s.phase {
            SetupPhase::OptionsSent => a == SetupAction::Fail(SetupError::OptionsTimeout),
            SetupPhase::AnnounceSent => a == SetupAction::Fail(SetupError::AnnounceTimeout),
            _ => a == SetupAction::Fail(SetupError::SetupTimeout),
        },
        setup::setup_does(s, SetupEvent::ReadError(reason), a) ==> match s.phase {
            SetupPhase::OptionsSent => a matches SetupAction::Fail(SetupError::OptionsRead(t)) && t@
                == reason@,
            SetupPhase::AnnounceSent => a matches SetupAction::Fail(SetupError::AnnounceRead(t))
                && t@ == reason@,
            _ => a matches SetupAction::Fail(SetupError::SetupRead(t)) && t@ == reason@,
        },
{
}

/// What cannot be sent or connected ends the handshake, with the reason, but for the key exchange,
/// which is skipped for it.
pub proof fn law_io_errors(s: session::SessionView, reason: String, a: SetupAction)
    requires
        setup::setup_does(s, SetupEvent::IoError(reason), a),
        s.phase != SetupPhase::Start,
        s.phase != SetupPhase::Ready,
        s.phase != SetupPhase::Failed,
    ensures
        ({
            let t = setup::setup_next(s, SetupEvent::IoError(reason));
            if s.phase == SetupPhase::PairSetupSent || s.phase == SetupPhase::PinStartSent {
                &&& a matches SetupAction::Bind(Pairing::Skipped(PairError::Io(why))) && why@
                    == reason@
                &&& t == (session::SessionView { phase: SetupPhase::Binding, ..s })
            } else {
                &&& a matches SetupAction::Fail(SetupError::Io(why)) && why@ == reason@
                &&& t == (session::SessionView { phase: SetupPhase::Failed, ..s })
            }
        }),
{
}

/// An answer of the key exchange that cannot be read is skipped over too.
pub proof fn law_unread_pairing_is_skipped(s: session::SessionView, reason: String, a: SetupAction)
    requires
        setup::setup_does(s, SetupEvent::ReadError(reason), a),
        s.phase == SetupPhase::PairSetupSent || s.phase == SetupPhase::PinStartSent,
    ensures
        a matches SetupAction::Bind(Pairing::Skipped(PairError::Io(why))) && why@ == reason@,
        setup::setup_next(s, SetupEvent::ReadError(reason)) == (session::SessionView {
            phase: SetupPhase::Binding,
            ..s
        }),
{
}

/// The texts of the errors.
pub proof fn law_setup_error_texts(why: String)
    ensures
        SetupError::OptionsRead(why).text() == "OPTIONS read error: "@ + why@,
        SetupError::OptionsTimeout.text() == "OPTIONS timeout"@,
        SetupError::OptionsFailed(why).text() == "OPTIONS failed: "@ + why@,
        SetupError::AnnounceRead(why).text() == "ANNOUNCE read error: "@ + why@,
        SetupError::AnnounceTimeout.text() == "ANNOUNCE timeout"@,
        SetupError::AuthRequired(why).text() == "Device requires authentication ("@ + why@ + ")"@,
        SetupError::SetupRead(why).text() == "SETUP read error: "@ + why@,
        SetupError::SetupTimeout.text() == "SETUP timeout"@,
        SetupError::SetupFailed(why).text() == "SETUP failed: "@ + why@,
        SetupError::Io(why).text() == why@,
        PairError::Io(why).text() == why@,
        PairError::KeyDerivation.text() == "HKDF expansion failed"@,
        PairError::PinRequired.text() == "Transient pairing not supported"@,
{
}

} // verus!
