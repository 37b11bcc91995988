//! The handshake: from OPTIONS to a receiver that plays what it is sent.

use crate::headers;
use crate::outside;
use crate::requests;
use crate::response;
use crate::response::RtspResponse;
use crate::session;
use crate::session::{
    AirPlaySession, PairError, Pairing, SetupAction, SetupError, SetupEvent, SetupPhase,
    DEFAULT_AUDIO_PORT, RESPONSE_SECONDS,
};
use crate::text;
use vstd::prelude::*;
use vstd::slice::*;
use vstd::string::*;
use vstd::utf8::*;

verus! {

/// The key that both ends of a key exchange derive for audio.
pub open spec fn audio_key(secret: Seq<u8>, public: Seq<u8>) -> Seq<u8> {
    outside::hkdf_sha256(
        outside::x25519_shared(secret, public),
        encode_utf8("AirPlay-Audio-Key"@),
    )
}

/// The stream's address at the session's receiver.
pub open spec fn url(s: session::SessionView) -> Seq<char> {
    requests::stream_url(s.address, s.port as nat, s.ssrc as nat)
}

/// The session in another phase.
pub open spec fn in_phase(s: session::SessionView, phase: SetupPhase) -> session::SessionView {
    session::SessionView { phase, ..s }
}

/// The session in another phase, with one more request sent.
pub open spec fn requested(s: session::SessionView, phase: SetupPhase) -> session::SessionView {
    session::SessionView { cseq: (s.cseq + 1) as u32, phase, ..s }
}

/// The session after the response to its public key: with a key where the receiver sent one.
pub open spec fn paired(s: session::SessionView, r: RtspResponse) -> session::SessionView {
    if response::has_code(r.status_line@, "200"@) {
        if r.body@.len() >= 32 {
            session::SessionView {
                encryption_key: Some(audio_key(s.pairing_secret, r.body@.take(32))),
                encryption_enabled: true,
                phase: SetupPhase::Binding,
                ..s
            }
        } else {
            in_phase(s, SetupPhase::Binding)
        }
    } else if response::has_code(r.status_line@, "403"@) {
        requested(s, SetupPhase::PinStartSent)
    } else {
        in_phase(s, SetupPhase::Binding)
    }
}

/// The session after the response to SETUP: with the receiver's audio port, and the session's
/// name where the receiver gives one.
pub open spec fn transported(s: session::SessionView, r: RtspResponse) -> session::SessionView {
    session::SessionView {
        server_audio_port: match headers::server_port(r.headers@) {
            Some(n) => n as u16,
            None => DEFAULT_AUDIO_PORT,
        },
        session_id: match headers::session_id(r.headers@) {
            Some(id) => id,
            None => s.session_id,
        },
        phase: SetupPhase::Connecting,
        ..s
    }
}

/// The session after an event of its handshake.
pub open spec fn setup_next(s: session::SessionView, e: SetupEvent) -> session::SessionView {
    match (s.phase, e) {
        (SetupPhase::Start, SetupEvent::Begin { challenge, secret }) => session::SessionView {
            pairing_secret: secret@,
            ..requested(s, SetupPhase::OptionsSent)
        },
        (SetupPhase::OptionsSent, SetupEvent::Response(r)) => if !response::has_code(
            r.status_line@,
            "200"@,
        ) {
            in_phase(s, SetupPhase::Failed)
        } else if s.airplay2 {
            requested(s, SetupPhase::PairSetupSent)
        } else {
            in_phase(s, SetupPhase::Binding)
        },
        (SetupPhase::OptionsSent, SetupEvent::ReadError(_))
        | (SetupPhase::OptionsSent, SetupEvent::Timeout)
        | (SetupPhase::OptionsSent, SetupEvent::IoError(_)) => in_phase(s, SetupPhase::Failed),
        (SetupPhase::PairSetupSent, SetupEvent::Response(r)) => paired(s, r),
        (SetupPhase::PairSetupSent, SetupEvent::ReadError(_))
        | (SetupPhase::PairSetupSent, SetupEvent::IoError(_))
        | (SetupPhase::PinStartSent, SetupEvent::Response(_))
        | (SetupPhase::PinStartSent, SetupEvent::ReadError(_))
        | (SetupPhase::PinStartSent, SetupEvent::IoError(_)) => in_phase(s, SetupPhase::Binding),
        (SetupPhase::Binding, SetupEvent::Bound { control_port, timing_port }) => {
            session::SessionView {
                control_port,
                timing_port,
                ..requested(s, SetupPhase::AnnounceSent)
            }
        },
        (SetupPhase::Binding, SetupEvent::IoError(_)) => in_phase(s, SetupPhase::Failed),
        (SetupPhase::AnnounceSent, SetupEvent::Response(r)) => if response::has_code(
            r.status_line@,
            "401"@,
        ) || response::has_code(r.status_line@, "403"@) {
            in_phase(s, SetupPhase::Failed)
        } else {
            requested(s, SetupPhase::SetupSent)
        },
        (SetupPhase::AnnounceSent, SetupEvent::ReadError(_))
        | (SetupPhase::AnnounceSent, SetupEvent::Timeout)
        | (SetupPhase::AnnounceSent, SetupEvent::IoError(_)) => in_phase(s, SetupPhase::Failed),
        (SetupPhase::SetupSent, SetupEvent::Response(r)) => if response::has_code(
            r.status_line@,
            "200"@,
        ) {
            transported(s, r)
        } else {
            in_phase(s, SetupPhase::Failed)
        },
        (SetupPhase::SetupSent, SetupEvent::ReadError(_))
        | (SetupPhase::SetupSent, SetupEvent::Timeout)
        | (SetupPhase::SetupSent, SetupEvent::IoError(_)) => in_phase(s, SetupPhase::Failed),
        (SetupPhase::Connecting, SetupEvent::Connected) => session::SessionView {
            audio_ready: true,
            ..requested(s, SetupPhase::RecordSent)
        },
        (SetupPhase::Connecting, SetupEvent::IoError(_)) => in_phase(s, SetupPhase::Failed),
        (SetupPhase::RecordSent, SetupEvent::Response(_))
        | (SetupPhase::RecordSent, SetupEvent::ReadError(_))
        | (SetupPhase::RecordSent, SetupEvent::Timeout) => in_phase(s, SetupPhase::Ready),
        (SetupPhase::RecordSent, SetupEvent::IoError(_)) => in_phase(s, SetupPhase::Failed),
        _ => s,
    }
}

/// Whether a request of the handshake awaits its response.
pub open spec fn awaits_response(phase: SetupPhase) -> bool {
    match phase {
        SetupPhase::OptionsSent
        | SetupPhase::PairSetupSent
        | SetupPhase::PinStartSent
        | SetupPhase::AnnounceSent
        | SetupPhase::SetupSent
        | SetupPhase::RecordSent => true,
        _ => false,
    }
}

/// Whether the handshake sends a request on an event: it then awaits another response.
pub open spec fn setup_asks(s: session::SessionView, e: SetupEvent) -> bool {
    &&& setup_next(s, e).phase != s.phase
    &&& awaits_response(setup_next(s, e).phase)
}

/// Whether an action sends just this request and body, and waits so long.
pub open spec fn sends(
    a: SetupAction,
    request: Seq<char>,
    body: Seq<u8>,
    timeout: Option<u64>,
) -> bool {
    &&& a matches SetupAction::Send { request: q, body: b, timeout: t }
    &&& q@ == request
    &&& b@ == body
    &&& t == timeout
}

/// Whether an action gives the session up because of an I/O error with this text.
pub open spec fn fails_io(a: SetupAction, reason: Seq<char>) -> bool {
    a matches SetupAction::Fail(SetupError::Io(t)) && t@ == reason
}

/// Whether an action goes on without a key because of an I/O error with this text.
pub open spec fn skips_io(a: SetupAction, reason: Seq<char>) -> bool {
    a matches SetupAction::Bind(Pairing::Skipped(PairError::Io(t))) && t@ == reason
}

/// Whether an action is what the handshake does on an event.
pub open spec fn setup_does(s: session::SessionView, e: SetupEvent, a: SetupAction) -> bool {
    let cseq = (s.cseq + 1) as nat;
    let none = Seq::<u8>::empty();
    let wait = Some(RESPONSE_SECONDS);
    match (s.phase, e) {
        (SetupPhase::Start, SetupEvent::Begin { challenge, secret }) => sends(
            a,
            requests::options_request(
                cseq,
                s.client_instance,
                s.ssrc as nat,
                outside::base64_text(challenge@),
            ),
            none,
            wait,
        ),
        (SetupPhase::OptionsSent, SetupEvent::Response(r)) => if !response::has_code(
            r.status_line@,
            "200"@,
        ) {
            a matches SetupAction::Fail(SetupError::OptionsFailed(t)) && t@ == r.status_line@
        } else if s.airplay2 {
            &&& outside::x25519_public(s.pairing_secret).len() == 32
            &&& sends(
                a,
                requests::pair_setup_request(cseq, 32),
                outside::x25519_public(s.pairing_secret),
                None,
            )
        } else {
            a matches SetupAction::Bind(Pairing::NotSupported)
        },
        (SetupPhase::OptionsSent, SetupEvent::ReadError(reason)) => {
            a matches SetupAction::Fail(SetupError::OptionsRead(t)) && t@ == reason@
        },
        (SetupPhase::OptionsSent, SetupEvent::Timeout) => {
            a matches SetupAction::Fail(SetupError::OptionsTimeout)
        },
        (SetupPhase::OptionsSent, SetupEvent::IoError(reason)) => fails_io(a, reason@),
        (SetupPhase::PairSetupSent, SetupEvent::Response(r)) => if response::has_code(
            r.status_line@,
            "200"@,
        ) || !response::has_code(r.status_line@, "403"@) {
            a matches SetupAction::Bind(Pairing::Completed)
        } else {
            sends(a, requests::pin_start_request(cseq), none, None)
        },
        (SetupPhase::PairSetupSent, SetupEvent::ReadError(reason)) => skips_io(a, reason@),
        (SetupPhase::PairSetupSent, SetupEvent::IoError(reason)) => skips_io(a, reason@),
        (SetupPhase::PinStartSent, SetupEvent::Response(r)) => if response::has_code(
            r.status_line@,
            "200"@,
        ) {
            a matches SetupAction::Bind(Pairing::Completed)
        } else {
            a matches SetupAction::Bind(Pairing::Skipped(PairError::PinRequired))
        },
        (SetupPhase::PinStartSent, SetupEvent::ReadError(reason)) => skips_io(a, reason@),
        (SetupPhase::PinStartSent, SetupEvent::IoError(reason)) => skips_io(a, reason@),
        (SetupPhase::Binding, SetupEvent::Bound { control_port, timing_port }) => sends(
            a,
            requests::announce_request(
                url(s),
                cseq,
                s.client_instance,
                requests::audio_description(s.local_address),
            ),
            none,
            wait,
        ),
        (SetupPhase::Binding, SetupEvent::IoError(reason)) => fails_io(a, reason@),
        (SetupPhase::AnnounceSent, SetupEvent::Response(r)) => if response::has_code(
            r.status_line@,
            "401"@,
        ) || response::has_code(r.status_line@, "403"@) {
            a matches SetupAction::Fail(SetupError::AuthRequired(t)) && t@ == r.status_line@
        } else {
            sends(
                a,
                requests::setup_request(
                    url(s),
                    cseq,
                    s.control_port as nat,
                    s.timing_port as nat,
                    s.client_instance,
                ),
                none,
                wait,
            )
        },
        (SetupPhase::AnnounceSent, SetupEvent::ReadError(reason)) => {
            a matches SetupAction::Fail(SetupError::AnnounceRead(t)) && t@ == reason@
        },
        (SetupPhase::AnnounceSent, SetupEvent::Timeout) => {
            a matches SetupAction::Fail(SetupError::AnnounceTimeout)
        },
        (SetupPhase::AnnounceSent, SetupEvent::IoError(reason)) => fails_io(a, reason@),
        (SetupPhase::SetupSent, SetupEvent::Response(r)) => if response::has_code(
            r.status_line@,
            "200"@,
        ) {
            &&& a matches SetupAction::Connect { audio_port, timing_port }
            &&& audio_port == transported(s, r).server_audio_port
            &&& match headers::timing_port(r.headers@) {
                Some(n) => timing_port == Some(n as u16),
                None => timing_port is None,
            }
        } else {
            a matches SetupAction::Fail(SetupError::SetupFailed(t)) && t@ == r.status_line@
        },
        (SetupPhase::SetupSent, SetupEvent::ReadError(reason)) => {
            a matches SetupAction::Fail(SetupError::SetupRead(t)) && t@ == reason@
        },
        (SetupPhase::SetupSent, SetupEvent::Timeout) => {
            a matches SetupAction::Fail(SetupError::SetupTimeout)
        },
        (SetupPhase::SetupSent, SetupEvent::IoError(reason)) => fails_io(a, reason@),
        (SetupPhase::Connecting, SetupEvent::Connected) => sends(
            a,
            requests::record_request(
                url(s),
                cseq,
                s.rtp_seq as nat,
                s.rtp_timestamp as nat,
                s.session_id,
            ),
            none,
            wait,
        ),
        (SetupPhase::Connecting, SetupEvent::IoError(reason)) => fails_io(a, reason@),
        (SetupPhase::RecordSent, SetupEvent::Response(_))
        | (SetupPhase::RecordSent, SetupEvent::ReadError(_))
        | (SetupPhase::RecordSent, SetupEvent::Timeout) => a is Done,
        (SetupPhase::RecordSent, SetupEvent::IoError(reason)) => fails_io(a, reason@),
        _ => a is Nothing,
    }
}

/// The first 32 bytes.
fn first_32(bytes: &[u8]) -> (r: [u8; 32])
    requires
        bytes@.len() >= 32,
    ensures
        r@ == bytes@.take(32),
{
    let mut r: [u8; 32] = [0u8; 32];
    let mut i: usize = 0;
    while i < 32
        invariant
            i <= 32,
            bytes@.len() >= 32,
            forall|j: int| 0 <= j < i ==> r@[j] == bytes@[j],
        decreases 32 - i,
    {
        r[i] = bytes[i];
        i = i + 1;
    }
    assert(r@ == bytes@.take(32));
    r
}

/// The public key to send for a secret. A receiver that derives a key from it and a secret of its
/// own derives the key that the session derives from the receiver's public key.
pub fn exchange_key(secret: &[u8; 32]) -> (r: [u8; 32])
    ensures
        r@ == outside::x25519_public(secret@),
        forall|other: Seq<u8>|
            other.len() == 32 ==> #[trigger] audio_key(other, r@) == audio_key(
                secret@,
                outside::x25519_public(other),
            ),
{
    let r: [u8; 32] = outside::x25519_public_key(secret);
    assert forall|other: Seq<u8>| other.len() == 32 implies #[trigger] audio_key(other, r@)
        == audio_key(secret@, outside::x25519_public(other)) by {
        assert(outside::x25519_shared(other, r@) == outside::x25519_shared(
            secret@,
            outside::x25519_public(other),
        ));
    }
    r
}

/// The key for audio, from the session's secret and the receiver's public key.
pub fn derive_key(secret: &[u8; 32], public: &[u8; 32]) -> (r: Result<[u8; 32], PairError>)
    ensures
        r matches Ok(key) && key@ == audio_key(secret@, public@),
{
    let shared: [u8; 32] = outside::x25519_agree(secret, public);
    match outside::hkdf_sha256_expand(shared.as_slice(), "AirPlay-Audio-Key".as_bytes()) {
        Ok(key) => Ok(key),
        Err(_) => Err(PairError::KeyDerivation),
    }
}

impl AirPlaySession {
    /// The number of the next request.
    pub(crate) fn next_cseq(&mut self) -> (r: u32)
        requires
            old(self)@.cseq < u32::MAX,
        ensures
            r == old(self)@.cseq + 1,
            final(self)@ == (session::SessionView { cseq: r, ..old(self)@ }),
            final(self).wf() == old(self).wf(),
    {
        self.cseq = self.cseq + 1;
        self.cseq
    }

    /// The stream's address at the receiver.
    pub(crate) fn stream_url(&self) -> (r: String)
        ensures
            r@ == url(self@),
    {
        requests::write_url(self.device.address.as_str(), self.device.port, self.ssrc)
    }

    /// Takes a key for audio: from here on it is encrypted.
    pub fn install_key(&mut self, key: [u8; 32])
        ensures
            final(self)@ == (session::SessionView {
                encryption_key: Some(key@),
                encryption_enabled: true,
                ..old(self)@
            }),
            old(self).wf() ==> final(self).wf(),
    {
        self.encryption_key = Some(key);
        self.encryption_enabled = true;
    }

    /// Begins the handshake, with a fresh challenge and a fresh secret.
    pub fn begin_setup(&mut self) -> (a: SetupAction)
        requires
            old(self).wf(),
            old(self)@.phase == SetupPhase::Start ==> old(self)@.cseq < u32::MAX,
        ensures
            final(self).wf(),
            exists|challenge: [u8; 16], secret: [u8; 32]|
                {
                    &&& final(self)@ == setup_next(
                        old(self)@,
                        SetupEvent::Begin { challenge, secret },
                    )
                    &&& #[trigger] setup_does(
                        old(self)@,
                        SetupEvent::Begin { challenge, secret },
                        a,
                    )
                },
    {
        let challenge: [u8; 16] = outside::random_bytes();
        let secret: [u8; 32] = outside::x25519_random_secret();
        self.setup(SetupEvent::Begin { challenge, secret })
    }

    /// Takes an event of the handshake, and says what to do next. A request takes a number, and
    /// there must be one left.
    pub fn setup(&mut self, event: SetupEvent) -> (a: SetupAction)
        requires
            old(self).wf(),
            setup_asks(old(self)@, event) ==> old(self)@.cseq < u32::MAX,
        ensures
            final(self).wf(),
            final(self)@ == setup_next(old(self)@, event),
            setup_does(old(self)@, event, a),
    {
        match self.phase {
            SetupPhase::Start => match event {
                SetupEvent::Begin { challenge, secret } => self.send_options(&challenge, secret),
                _ => SetupAction::Nothing,
            },
            SetupPhase::OptionsSent => match event {
                SetupEvent::Response(r) => self.after_options(r),
                SetupEvent::ReadError(e) => self.fail(SetupError::OptionsRead(e)),
                SetupEvent::Timeout => self.fail(SetupError::OptionsTimeout),
                SetupEvent::IoError(e) => self.fail(SetupError::Io(e)),
                _ => SetupAction::Nothing,
            },
            SetupPhase::PairSetupSent => match event {
                SetupEvent::Response(r) => self.after_pair_setup(r),
                SetupEvent::ReadError(e) => self.bind(Pairing::Skipped(PairError::Io(e))),
                SetupEvent::IoError(e) => self.bind(Pairing::Skipped(PairError::Io(e))),
                _ => SetupAction::Nothing,
            },
            SetupPhase::PinStartSent => match event {
                SetupEvent::Response(r) => if r.has_code("200") {
                    self.bind(Pairing::Completed)
                } else {
                    self.bind(Pairing::Skipped(PairError::PinRequired))
                },
                SetupEvent::ReadError(e) => self.bind(Pairing::Skipped(PairError::Io(e))),
                SetupEvent::IoError(e) => self.bind(Pairing::Skipped(PairError::Io(e))),
                _ => SetupAction::Nothing,
            },
            SetupPhase::Binding => match event {
                SetupEvent::Bound { control_port, timing_port } => self.send_announce(
                    control_port,
                    timing_port,
                ),
                SetupEvent::IoError(e) => self.fail(SetupError::Io(e)),
                _ => SetupAction::Nothing,
            },
            SetupPhase::AnnounceSent => match event {
                SetupEvent::Response(r) => self.after_announce(r),
                SetupEvent::ReadError(e) => self.fail(SetupError::AnnounceRead(e)),
                SetupEvent::Timeout => self.fail(SetupError::AnnounceTimeout),
                SetupEvent::IoError(e) => self.fail(SetupError::Io(e)),
                _ => SetupAction::Nothing,
            },
            SetupPhase::SetupSent => match event {
                SetupEvent::Response(r) => self.after_setup(r),
                SetupEvent::ReadError(e) => self.fail(SetupError::SetupRead(e)),
                SetupEvent::Timeout => self.fail(SetupError::SetupTimeout),
                SetupEvent::IoError(e) => self.fail(SetupError::Io(e)),
                _ => SetupAction::Nothing,
            },
            SetupPhase::Connecting => match event {
                SetupEvent::Connected => self.send_record(),
                SetupEvent::IoError(e) => self.fail(SetupError::Io(e)),
                _ => SetupAction::Nothing,
            },
            SetupPhase::RecordSent => match event {
                SetupEvent::Response(_) => self.ready(),
                SetupEvent::ReadError(_) => self.ready(),
                SetupEvent::Timeout => self.ready(),
                SetupEvent::IoError(e) => self.fail(SetupError::Io(e)),
                _ => SetupAction::Nothing,
            },
            SetupPhase::Ready => SetupAction::Nothing,
            SetupPhase::Failed => SetupAction::Nothing,
        }
    }

    /// Gives the session up.
    fn fail(&mut self, e: SetupError) -> (a: SetupAction)
        requires
            old(self).wf(),
        ensures
            final(self).wf(),
            final(self)@ == in_phase(old(self)@, SetupPhase::Failed),
            a == SetupAction::Fail(e),
    {
        self.phase = SetupPhase::Failed;
        SetupAction::Fail(e)
    }

    /// Goes on to the sockets.
    fn bind(&mut self, pairing: Pairing) -> (a: SetupAction)
        requires
            old(self).wf(),
        ensures
            final(self).wf(),
            final(self)@ == in_phase(old(self)@, SetupPhase::Binding),
            a == SetupAction::Bind(pairing),
    {
        self.phase = SetupPhase::Binding;
        SetupAction::Bind(pairing)
    }

    /// Ends the handshake well.
    fn ready(&mut self) -> (a: SetupAction)
        requires
            old(self).wf(),
        ensures
            final(self).wf(),
            final(self)@ == in_phase(old(self)@, SetupPhase::Ready),
            a is Done,
    {
        self.phase = SetupPhase::Ready;
        SetupAction::Done
    }

    /// OPTIONS.
    fn send_options(&mut self, challenge: &[u8; 16], secret: [u8; 32]) -> (a: SetupAction)
        requires
            old(self).wf(),
            old(self)@.cseq < u32::MAX,
            old(self)@.phase == SetupPhase::Start,
        ensures
            final(self).wf(),
            final(self)@ == setup_next(
                old(self)@,
                SetupEvent::Begin { challenge: *challenge, secret },
            ),
            setup_does(old(self)@, SetupEvent::Begin { challenge: *challenge, secret }, a),
    {
        let cseq: u32 = self.next_cseq();
        self.phase = SetupPhase::OptionsSent;
        self.pairing_secret = secret;
        let text: String = outside::base64_encode(challenge.as_slice());
        let request: String = requests::write_options(
            cseq,
            self.client_instance.as_str(),
            self.ssrc,
            text.as_str(),
        );
        SetupAction::Send { request, body: Vec::new(), timeout: Some(RESPONSE_SECONDS) }
    }

    /// The response to OPTIONS came: the key exchange is next, where the receiver knows it.
    fn after_options(&mut self, r: RtspResponse) -> (a: SetupAction)
        requires
            old(self).wf(),
            setup_asks(old(self)@, SetupEvent::Response(r)) ==> old(self)@.cseq < u32::MAX,
            old(self)@.phase == SetupPhase::OptionsSent,
        ensures
            final(self).wf(),
            final(self)@ == setup_next(old(self)@, SetupEvent::Response(r)),
            setup_does(old(self)@, SetupEvent::Response(r), a),
    {
        if !r.has_code("200") {
            return self.fail(SetupError::OptionsFailed(r.status_line));
        }
        if !self.device.supports_airplay2 {
            return self.bind(Pairing::NotSupported);
        }
        let public: [u8; 32] = exchange_key(&self.pairing_secret);
        let cseq: u32 = self.next_cseq();
        self.phase = SetupPhase::PairSetupSent;
        SetupAction::Send {
            request: requests::write_pair_setup(cseq, 32),
            body: slice_to_vec(public.as_slice()),
            timeout: None,
        }
    }

    /// The response to the public key came.
    fn after_pair_setup(&mut self, r: RtspResponse) -> (a: SetupAction)
        requires
            old(self).wf(),
            setup_asks(old(self)@, SetupEvent::Response(r)) ==> old(self)@.cseq < u32::MAX,
            old(self)@.phase == SetupPhase::PairSetupSent,
        ensures
            final(self).wf(),
            final(self)@ == setup_next(old(self)@, SetupEvent::Response(r)),
            setup_does(old(self)@, SetupEvent::Response(r), a),
    {
        if r.has_code("200") {
            if r.body.len() >= 32 {
                let public: [u8; 32] = first_32(r.body.as_slice());
                match derive_key(&self.pairing_secret, &public) {
                    Ok(key) => {
                        self.install_key(key);
                    },
                    Err(e) => {
                        return self.bind(Pairing::Skipped(e));
                    },
                }
            }
            self.bind(Pairing::Completed)
        } else if r.has_code("403") {
            let cseq: u32 = self.next_cseq();
            self.phase = SetupPhase::PinStartSent;
            SetupAction::Send {
                request: requests::write_pin_start(cseq),
                body: Vec::new(),
                timeout: None,
            }
        } else {
            self.bind(Pairing::Completed)
        }
    }

    /// ANNOUNCE.
    fn send_announce(&mut self, control_port: u16, timing_port: u16) -> (a: SetupAction)
        requires
            old(self).wf(),
            old(self)@.cseq < u32::MAX,
            old(self)@.phase == SetupPhase::Binding,
        ensures
            final(self).wf(),
            final(self)@ == setup_next(
                old(self)@,
                SetupEvent::Bound { control_port, timing_port },
            ),
            setup_does(old(self)@, SetupEvent::Bound { control_port, timing_port }, a),
    {
        let url: String = self.stream_url();
        let cseq: u32 = self.next_cseq();
        self.phase = SetupPhase::AnnounceSent;
        self.control_port = control_port;
        self.timing_port = timing_port;
        let description: String = requests::write_description(self.local_address.as_str());
        let request: String = requests::write_announce(
            url.as_str(),
            cseq,
            self.client_instance.as_str(),
            description.as_str(),
        );
        SetupAction::Send { request, body: Vec::new(), timeout: Some(RESPONSE_SECONDS) }
    }

    /// The response to ANNOUNCE came: SETUP is next, unless the receiver asks who is there.
    fn after_announce(&mut self, r: RtspResponse) -> (a: SetupAction)
        requires
            old(self).wf(),
            setup_asks(old(self)@, SetupEvent::Response(r)) ==> old(self)@.cseq < u32::MAX,
            old(self)@.phase == SetupPhase::AnnounceSent,
        ensures
            final(self).wf(),
            final(self)@ == setup_next(old(self)@, SetupEvent::Response(r)),
            setup_does(old(self)@, SetupEvent::Response(r), a),
    {
        if r.has_code("401") || r.has_code("403") {
            return self.fail(SetupError::AuthRequired(r.status_line));
        }
        let url: String = self.stream_url();
        let cseq: u32 = self.next_cseq();
        self.phase = SetupPhase::SetupSent;
        let request: String = requests::write_setup(
            url.as_str(),
            cseq,
            self.control_port,
            self.timing_port,
            self.client_instance.as_str(),
        );
        SetupAction::Send { request, body: Vec::new(), timeout: Some(RESPONSE_SECONDS) }
    }

    /// The response to SETUP came: it says where audio goes.
    fn after_setup(&mut self, r: RtspResponse) -> (a: SetupAction)
        requires
            old(self).wf(),
            old(self)@.phase == SetupPhase::SetupSent,
        ensures
            final(self).wf(),
            final(self)@ == setup_next(old(self)@, SetupEvent::Response(r)),
            setup_does(old(self)@, SetupEvent::Response(r), a),
    {
        if !r.has_code("200") {
            return self.fail(SetupError::SetupFailed(r.status_line));
        }
        self.server_audio_port = match headers::parse_server_port(r.headers.as_str()) {
            Some(n) => n,
            None => DEFAULT_AUDIO_PORT,
        };
        match headers::parse_session_id(r.headers.as_str()) {
            Some(id) => {
                self.session_id = id;
            },
            None => {},
        }
        self.phase = SetupPhase::Connecting;
        SetupAction::Connect {
            audio_port: self.server_audio_port,
            timing_port: headers::parse_timing_port(r.headers.as_str()),
        }
    }

    /// RECORD: the audio socket is connected.
    fn send_record(&mut self) -> (a: SetupAction)
        requires
            old(self).wf(),
            old(self)@.cseq < u32::MAX,
            old(self)@.phase == SetupPhase::Connecting,
        ensures
            final(self).wf(),
            final(self)@ == setup_next(old(self)@, SetupEvent::Connected),
            setup_does(old(self)@, SetupEvent::Connected, a),
    {
        let url: String = self.stream_url();
        let cseq: u32 = self.next_cseq();
        self.phase = SetupPhase::RecordSent;
        self.audio_ready = true;
        let request: String = requests::write_record(
            url.as_str(),
            cseq,
            self.rtp_seq,
            self.rtp_timestamp,
            self.session_id.as_str(),
        );
        SetupAction::Send { request, body: Vec::new(), timeout: Some(RESPONSE_SECONDS) }
    }
}

impl SetupError {
    /// The text of the error.
    pub open spec fn text(self) -> Seq<char> {
        match self {
            SetupError::OptionsRead(reason) => "OPTIONS read error: "@ + reason@,
            SetupError::OptionsTimeout => "OPTIONS timeout"@,
            SetupError::OptionsFailed(status) => "OPTIONS failed: "@ + status@,
            SetupError::AnnounceRead(reason) => "ANNOUNCE read error: "@ + reason@,
            SetupError::AnnounceTimeout => "ANNOUNCE timeout"@,
            SetupError::AuthRequired(status) => "Device requires authentication ("@ + status@
                + ")"@,
            SetupError::SetupRead(reason) => "SETUP read error: "@ + reason@,
            SetupError::SetupTimeout => "SETUP timeout"@,
            SetupError::SetupFailed(status) => "SETUP failed: "@ + status@,
            SetupError::Io(reason) => reason@,
        }
    }

    /// The text of the error.
    pub fn message(&self) -> (r: String)
        ensures
            r@ == self.text(),
    {
        match self {
            SetupError::OptionsRead(reason) => String::from_str("OPTIONS read error: ").concat(
                reason.as_str(),
            ),
            SetupError::OptionsTimeout => String::from_str("OPTIONS timeout"),
            SetupError::OptionsFailed(status) => String::from_str("OPTIONS failed: ").concat(
                status.as_str(),
            ),
            SetupError::AnnounceRead(reason) => String::from_str("ANNOUNCE read error: ").concat(
                reason.as_str(),
            ),
            SetupError::AnnounceTimeout => String::from_str("ANNOUNCE timeout"),
            SetupError::AuthRequired(status) => String::from_str(
                "Device requires authentication (",
            ).concat(status.as_str()).concat(")"),
            SetupError::SetupRead(reason) => String::from_str("SETUP read error: ").concat(
                reason.as_str(),
            ),
            SetupError::SetupTimeout => String::from_str("SETUP timeout"),
            SetupError::SetupFailed(status) => String::from_str("SETUP failed: ").concat(
                status.as_str(),
            ),
            SetupError::Io(reason) => String::from_str(reason.as_str()),
        }
    }
}

impl PairError {
    /// The text of the error.
    pub open spec fn text(self) -> Seq<char> {
        match self {
            PairError::Io(reason) => reason@,
            PairError::KeyDerivation => "HKDF expansion failed"@,
            PairError::PinRequired => "Transient pairing not supported"@,
        }
    }

    /// The text of the error.
    pub fn message(&self) -> (r: String)
        ensures
            r@ == self.text(),
    {
        match self {
            PairError::Io(reason) => String::from_str(reason.as_str()),
            PairError::KeyDerivation => String::from_str("HKDF expansion failed"),
            PairError::PinRequired => String::from_str("Transient pairing not supported"),
        }
    }
}

/// The place of a phase in the handshake.
pub open spec fn phase_rank(phase: SetupPhase) -> int {
    match phase {
        SetupPhase::Start => 0,
        SetupPhase::OptionsSent => 1,
        SetupPhase::PairSetupSent => 2,
        SetupPhase::PinStartSent => 3,
        SetupPhase::Binding => 4,
        SetupPhase::AnnounceSent => 5,
        SetupPhase::SetupSent => 6,
        SetupPhase::Connecting => 7,
        SetupPhase::RecordSent => 8,
        SetupPhase::Ready => 9,
        SetupPhase::Failed => 10,
    }
}

/// The session after events of its handshake, one after the other.
pub open spec fn setup_run(s: session::SessionView, events: Seq<SetupEvent>) -> session::SessionView
    decreases events.len(),
{
    if events.len() == 0 {
        s
    } else {
        setup_next(setup_run(s, events.drop_last()), events.last())
    }
}

/// The handshake only moves on: an event that it awaits brings it to a later phase, any other
/// leaves it as it is. So it ends.
pub proof fn law_setup_moves_on(s: session::SessionView, e: SetupEvent, a: SetupAction)
    requires
        setup_does(s, e, a),
    ensures
        a is Nothing ==> setup_next(s, e) == s,
        !(a is Nothing) ==> phase_rank(setup_next(s, e).phase) > phase_rank(s.phase),
{
}

/// Each request of the handshake bears the next number, and nothing else counts.
pub proof fn law_setup_numbers_requests(s: session::SessionView, e: SetupEvent, a: SetupAction)
    requires
        setup_does(s, e, a),
        setup_asks(s, e) ==> s.cseq < u32::MAX,
    ensures
        a is Send <==> setup_asks(s, e),
        setup_next(s, e).cseq == if a is Send {
            s.cseq + 1
        } else {
            s.cseq as int
        },
{
}

/// The key exchange never ends a session: whatever befalls it, the handshake goes on.
pub proof fn law_pairing_never_fails_setup(s: session::SessionView, e: SetupEvent, a: SetupAction)
    requires
        setup_does(s, e, a),
        s.phase == SetupPhase::PairSetupSent || s.phase == SetupPhase::PinStartSent,
    ensures
        !(a is Fail),
        setup_next(s, e).phase != SetupPhase::Failed,
{
}

/// The handshake says that it is done, or has failed, just when it is, and says no more.
pub proof fn law_setup_ends_once(s: session::SessionView, e: SetupEvent, a: SetupAction)
    requires
        setup_does(s, e, a),
    ensures
        a is Done <==> s.phase != SetupPhase::Ready && setup_next(s, e).phase == SetupPhase::Ready,
        a is Fail <==> s.phase != SetupPhase::Failed && setup_next(s, e).phase
            == SetupPhase::Failed,
        s.phase == SetupPhase::Ready || s.phase == SetupPhase::Failed ==> a is Nothing,
{
}

/// What holds of a session whose handshake began fresh: it takes audio only from RECORD on, that
/// is, after a receiver that accepted SETUP has been connected to, and encryption and key come
/// together.
pub open spec fn setup_sound(s: session::SessionView) -> bool {
    &&& s.phase != SetupPhase::Failed ==> (s.audio_ready <==> phase_rank(s.phase) >= 8)
    &&& s.encryption_enabled <==> s.encryption_key is Some
    &&& s.encryption_enabled ==> s.airplay2 && phase_rank(s.phase) >= 4
}

/// No audio before the session is ready for it: a session is set up without audio, and takes some
/// only from RECORD on. Only a receiver that knows the key exchange gets a key.
pub proof fn law_setup_sound(s: session::SessionView, events: Seq<SetupEvent>)
    requires
        s.phase == SetupPhase::Start,
        !s.audio_ready,
        !s.encryption_enabled,
        s.encryption_key is None,
    ensures
        setup_sound(setup_run(s, events)),
{
    lemma_setup_sound(s, events);
}

/// `setup_sound`, with what it takes to prove it.
proof fn lemma_setup_sound(s: session::SessionView, events: Seq<SetupEvent>)
    requires
        s.phase == SetupPhase::Start,
        !s.audio_ready,
        !s.encryption_enabled,
        s.encryption_key is None,
    ensures
        setup_sound(setup_run(s, events)),
        ({
            let t = setup_run(s, events);
            t.phase == SetupPhase::PairSetupSent || t.phase == SetupPhase::PinStartSent
                ==> t.airplay2
        }),
    decreases events.len(),
{
    if events.len() > 0 {
        lemma_setup_sound(s, events.drop_last());
    }
}

/// Whether these events, from OPTIONS on, are a whole pairing: none where the receiver knows none;
/// else the answer to the public key, or the failure to get one, and, where the answer asks for a
/// PIN, that to the request to do without.
pub open spec fn is_pairing(airplay2: bool, events: Seq<SetupEvent>) -> bool {
    if !airplay2 {
        events.len() == 0
    } else if events.len() == 1 {
        match events[0] {
            SetupEvent::Response(r) => response::has_code(r.status_line@, "200"@)
                || !response::has_code(r.status_line@, "403"@),
            SetupEvent::ReadError(_) | SetupEvent::IoError(_) => true,
            _ => false,
        }
    } else {
        &&& events.len() == 2
        &&& events[0] matches SetupEvent::Response(r)
        &&& !response::has_code(r.status_line@, "200"@)
        &&& response::has_code(r.status_line@, "403"@)
        &&& events[1] is Response || events[1] is ReadError || events[1] is IoError
    }
}

/// The key that a pairing ends with: that of the receiver's public key, where it sent one.
pub open spec fn key_of_pairing(secret: Seq<u8>, events: Seq<SetupEvent>) -> Option<Seq<u8>> {
    if events.len() == 1 {
        match events[0] {
            SetupEvent::Response(r) => if response::has_code(r.status_line@, "200"@)
                && r.body@.len() >= 32 {
                Some(audio_key(secret, r.body@.take(32)))
            } else {
                None
            },
            _ => None,
        }
    } else {
        None
    }
}

/// A receiver that accepts what it is asked gets its audio: four requests and those of the pairing,
/// and the session is ready. However the pairing ends, a refusal of ANNOUNCE other than for want of
/// authentication, and silence after RECORD, are no hindrance. Audio is encrypted just where the
/// pairing has ended with a key.
pub proof fn law_willing_receiver_is_ready(
    s: session::SessionView,
    challenge: [u8; 16],
    secret: [u8; 32],
    options: RtspResponse,
    pairing: Seq<SetupEvent>,
    control_port: u16,
    timing_port: u16,
    announce: RtspResponse,
    setup: RtspResponse,
    last: SetupEvent,
)
    requires
        s.phase == SetupPhase::Start,
        !s.encryption_enabled,
        s.encryption_key is None,
        s.cseq + 4 + pairing.len() <= u32::MAX,
        response::has_code(options.status_line@, "200"@),
        is_pairing(s.airplay2, pairing),
        !response::has_code(announce.status_line@, "401"@),
        !response::has_code(announce.status_line@, "403"@),
        response::has_code(setup.status_line@, "200"@),
        last is Response || last is ReadError || last is Timeout,
    ensures
        ({
            let t = setup_run(
                s,
                seq![SetupEvent::Begin { challenge, secret }, SetupEvent::Response(options)]
                    + pairing + seq![
                    SetupEvent::Bound { control_port, timing_port },
                    SetupEvent::Response(announce),
                    SetupEvent::Response(setup),
                    SetupEvent::Connected,
                    last,
                ],
            );
            &&& t.phase == SetupPhase::Ready
            &&& t.audio_ready
            &&& t.cseq == s.cseq + 4 + pairing.len()
            &&& t.server_audio_port == transported(s, setup).server_audio_port
            &&& t.session_id == transported(s, setup).session_id
            &&& t.encryption_key == key_of_pairing(secret@, pairing)
            &&& t.encryption_enabled == (t.encryption_key is Some)
        }),
{
    let begun = seq![SetupEvent::Begin { challenge, secret }, SetupEvent::Response(options)];
    let rest = seq![
        SetupEvent::Bound { control_port, timing_port },
        SetupEvent::Response(announce),
        SetupEvent::Response(setup),
        SetupEvent::Connected,
        last,
    ];
    lemma_paired_or_not(s, challenge, secret, options, pairing);
    lemma_setup_run_on(s, begun + pairing, rest);
    lemma_from_binding(
        setup_run(s, begun + pairing),
        control_port,
        timing_port,
        announce,
        setup,
        last,
    );
}

/// After OPTIONS and a pairing, the sockets are next.
proof fn lemma_paired_or_not(
    s: session::SessionView,
    challenge: [u8; 16],
    secret: [u8; 32],
    options: RtspResponse,
    pairing: Seq<SetupEvent>,
)
    requires
        s.phase == SetupPhase::Start,
        !s.encryption_enabled,
        s.encryption_key is None,
        s.cseq + 4 + pairing.len() <= u32::MAX,
        response::has_code(options.status_line@, "200"@),
        is_pairing(s.airplay2, pairing),
    ensures
        ({
            let begun = seq![
                SetupEvent::Begin { challenge, secret },
                SetupEvent::Response(options),
            ];
            setup_run(s, begun + pairing) == (session::SessionView {
                phase: SetupPhase::Binding,
                cseq: (s.cseq + 1 + pairing.len()) as u32,
                pairing_secret: secret@,
                encryption_key: key_of_pairing(secret@, pairing),
                encryption_enabled: key_of_pairing(secret@, pairing) is Some,
                ..s
            })
        }),
{
    let e0 = SetupEvent::Begin { challenge, secret };
    let e1 = SetupEvent::Response(options);
    let begun = seq![e0, e1];
    lemma_setup_run_step(s, seq![], e0);
    lemma_setup_run_step(s, seq![e0], e1);
    assert(seq![e0] == Seq::<SetupEvent>::empty().push(e0));
    assert(begun == seq![e0].push(e1));
    if pairing.len() == 0 {
        assert(begun + pairing == begun);
    } else {
        lemma_setup_run_step(s, begun, pairing[0]);
        if pairing.len() == 1 {
            assert(begun + pairing == begun.push(pairing[0]));
        } else {
            lemma_setup_run_step(s, begun.push(pairing[0]), pairing[1]);
            assert(begun + pairing == begun.push(pairing[0]).push(pairing[1]));
        }
    }
}

/// From the sockets on, a receiver that accepts SETUP gets its audio.
#[verifier::rlimit(50)]
proof fn lemma_from_binding(
    s: session::SessionView,
    control_port: u16,
    timing_port: u16,
    announce: RtspResponse,
    setup: RtspResponse,
    last: SetupEvent,
)
    requires
        s.phase == SetupPhase::Binding,
        s.cseq <= u32::MAX - 3,
        !response::has_code(announce.status_line@, "401"@),
        !response::has_code(announce.status_line@, "403"@),
        response::has_code(setup.status_line@, "200"@),
        last is Response || last is ReadError || last is Timeout,
    ensures
        setup_run(
            s,
            seq![
                SetupEvent::Bound { control_port, timing_port },
                SetupEvent::Response(announce),
                SetupEvent::Response(setup),
                SetupEvent::Connected,
                last,
            ],
        ) == (session::SessionView {
            phase: SetupPhase::Ready,
            cseq: (s.cseq + 3) as u32,
            control_port,
            timing_port,
            audio_ready: true,
            ..transported(s, setup)
        }),
{
    let e0 = SetupEvent::Bound { control_port, timing_port };
    let e1 = SetupEvent::Response(announce);
    let e2 = SetupEvent::Response(setup);
    let e3 = SetupEvent::Connected;
    lemma_setup_run_step(s, seq![], e0);
    lemma_setup_run_step(s, seq![e0], e1);
    lemma_setup_run_step(s, seq![e0, e1], e2);
    lemma_setup_run_step(s, seq![e0, e1, e2], e3);
    lemma_setup_run_step(s, seq![e0, e1, e2, e3], last);
    assert(seq![e0] == Seq::<SetupEvent>::empty().push(e0));
    assert(seq![e0, e1] == seq![e0].push(e1));
    assert(seq![e0, e1, e2] == seq![e0, e1].push(e2));
    assert(seq![e0, e1, e2, e3] == seq![e0, e1, e2].push(e3));
    assert(seq![e0, e1, e2, e3, last] == seq![e0, e1, e2, e3].push(last));
}

/// Events after others: the session goes on from where those have brought it.
proof fn lemma_setup_run_on(
    s: session::SessionView,
    first: Seq<SetupEvent>,
    second: Seq<SetupEvent>,
)
    ensures
        setup_run(s, first + second) == setup_run(setup_run(s, first), second),
    decreases second.len(),
{
    if second.len() == 0 {
        assert(first + second == first);
    } else {
        lemma_setup_run_on(s, first, second.drop_last());
        assert((first + second).drop_last() == first + second.drop_last());
        assert((first + second).last() == second.last());
    }
}

/// A receiver that answers the session's public key with one of its own gets encrypted audio, under
/// the key that the two have agreed on.
pub proof fn law_paired_receiver_has_key(
    s: session::SessionView,
    challenge: [u8; 16],
    secret: [u8; 32],
    options: RtspResponse,
    answer: RtspResponse,
    events: Seq<SetupEvent>,
)
    requires
        s.phase == SetupPhase::Start,
        s.airplay2,
        response::has_code(options.status_line@, "200"@),
        response::has_code(answer.status_line@, "200"@),
        answer.body@.len() >= 32,
    ensures
        ({
            let first = seq![
                SetupEvent::Begin { challenge, secret },
                SetupEvent::Response(options),
                SetupEvent::Response(answer),
            ];
            let t = setup_run(s, first + events);
            &&& t.encryption_enabled
            &&& t.encryption_key == Some(audio_key(secret@, answer.body@.take(32)))
        }),
{
    lemma_paired(s, challenge, secret, options, answer, events);
}

/// Once a receiver has answered with its key, the session keeps the agreed one.
proof fn lemma_paired(
    s: session::SessionView,
    challenge: [u8; 16],
    secret: [u8; 32],
    options: RtspResponse,
    answer: RtspResponse,
    events: Seq<SetupEvent>,
)
    requires
        s.phase == SetupPhase::Start,
        s.airplay2,
        response::has_code(options.status_line@, "200"@),
        response::has_code(answer.status_line@, "200"@),
        answer.body@.len() >= 32,
    ensures
        ({
            let first = seq![
                SetupEvent::Begin { challenge, secret },
                SetupEvent::Response(options),
                SetupEvent::Response(answer),
            ];
            let t = setup_run(s, first + events);
            &&& t.encryption_enabled
            &&& t.encryption_key == Some(audio_key(secret@, answer.body@.take(32)))
            &&& phase_rank(t.phase) >= phase_rank(SetupPhase::Binding)
        }),
    decreases events.len(),
{
    let e0 = SetupEvent::Begin { challenge, secret };
    let e1 = SetupEvent::Response(options);
    let e2 = SetupEvent::Response(answer);
    let first = seq![e0, e1, e2];
    if events.len() == 0 {
        lemma_setup_run_step(s, seq![], e0);
        lemma_setup_run_step(s, seq![e0], e1);
        lemma_setup_run_step(s, seq![e0, e1], e2);
        assert(seq![e0] == Seq::<SetupEvent>::empty().push(e0));
        assert(seq![e0, e1] == seq![e0].push(e1));
        assert(first == seq![e0, e1].push(e2));
        assert(first + events == first);
    } else {
        lemma_paired(s, challenge, secret, options, answer, events.drop_last());
        lemma_setup_run_step(s, first + events.drop_last(), events.last());
        assert(first + events == (first + events.drop_last()).push(events.last()));
    }
}

/// One event more.
proof fn lemma_setup_run_step(s: session::SessionView, events: Seq<SetupEvent>, e: SetupEvent)
    ensures
        setup_run(s, events.push(e)) == setup_next(setup_run(s, events), e),
        events.len() == 0 ==> setup_run(s, events) == s,
{
    assert(events.push(e).drop_last() == events);
}

/// What a handshake never touches: who the session is, whom it talks to, its audio.
pub proof fn law_setup_keeps_identity(s: session::SessionView, events: Seq<SetupEvent>)
    ensures
        ({
            let t = setup_run(s, events);
            &&& t.name == s.name
            &&& t.address == s.address
            &&& t.port == s.port
            &&& t.airplay2 == s.airplay2
            &&& t.local_address == s.local_address
            &&& t.ssrc == s.ssrc
            &&& t.client_instance == s.client_instance
            &&& t.rtp_seq == s.rtp_seq
            &&& t.rtp_timestamp == s.rtp_timestamp
            &&& t.encoder == s.encoder
            &&& t.nonce_counter == s.nonce_counter
            &&& t.first_packet == s.first_packet
            &&& t.volume == s.volume
        }),
    decreases events.len(),
{
    if events.len() > 0 {
        law_setup_keeps_identity(s, events.drop_last());
    }
}

} // verus!
