//! A session with one receiver: its handshake, its commands, its audio.

use crate::audio;
use crate::audio::{AudioEncoder, EncodeError};
use crate::outside;
use crate::response::RtspResponse;
use crate::text;
use vstd::prelude::*;
use vstd::string::*;

pub mod laws;
pub mod run;
pub mod setup;
pub mod stream;

verus! {

/// A receiver of audio.
pub struct AirPlayDevice {
    pub id: String,
    pub name: String,
    pub address: String,
    pub port: u16,
    pub supports_airplay2: bool,
}

/// A command to a session.
pub enum AudioCommand {
    /// Play 16-bit PCM.
    SendAudio { data: Vec<u8>, sample_rate: u32, channels: u32 },
    /// Set the volume, in percent.
    SetVolume(i32),
    /// End the session.
    Disconnect,
}

/// How far the handshake has come.
#[derive(PartialEq, Eq, Structural, Clone, Copy)]
pub enum SetupPhase {
    /// Nothing has been sent.
    Start,
    /// OPTIONS awaits its response.
    OptionsSent,
    /// The public key awaits its response.
    PairSetupSent,
    /// The request for pairing without a PIN awaits its response.
    PinStartSent,
    /// The sockets for audio, control and timing are being bound.
    Binding,
    /// ANNOUNCE awaits its response.
    AnnounceSent,
    /// SETUP awaits its response.
    SetupSent,
    /// The audio socket is being connected.
    Connecting,
    /// RECORD awaits its response.
    RecordSent,
    /// The receiver plays what it is sent.
    Ready,
    /// The handshake was given up.
    Failed,
}

/// What befalls the handshake.
pub enum SetupEvent {
    /// It begins, with 16 bytes for the receiver to sign and the secret of a key exchange.
    Begin { challenge: [u8; 16], secret: [u8; 32] },
    /// A response came.
    Response(RtspResponse),
    /// The response could not be read, for this reason.
    ReadError(String),
    /// No response came in time.
    Timeout,
    /// What was asked for last could not be done, for this reason.
    IoError(String),
    /// The sockets are bound to these ports.
    Bound { control_port: u16, timing_port: u16 },
    /// The audio socket is connected.
    Connected,
}

/// How the key exchange ended.
pub enum Pairing {
    /// The receiver knows none.
    NotSupported,
    /// The receiver was asked, and has agreed or needs no key.
    Completed,
    /// It was given up; the session goes on without a key.
    Skipped(PairError),
}

/// Why the key exchange was given up.
pub enum PairError {
    /// The connection failed, for this reason.
    Io(String),
    /// No key could be derived.
    KeyDerivation,
    /// The receiver does not pair without a PIN.
    PinRequired,
}

/// What the handshake does next.
pub enum SetupAction {
    /// Send the request and then the body, and wait for a response, up to so many seconds.
    Send { request: String, body: Vec<u8>, timeout: Option<u64> },
    /// Bind the sockets for audio, control and timing.
    Bind(Pairing),
    /// Connect the audio socket to this port of the receiver, and answer its timing queries where
    /// it names a port for them.
    Connect { audio_port: u16, timing_port: Option<u16> },
    /// The session is ready for audio.
    Done,
    /// The session is given up.
    Fail(SetupError),
    /// Nothing: the event was not awaited.
    Nothing,
}

/// Why a session was given up before it was ready.
pub enum SetupError {
    OptionsRead(String),
    OptionsTimeout,
    OptionsFailed(String),
    AnnounceRead(String),
    AnnounceTimeout,
    AuthRequired(String),
    SetupRead(String),
    SetupTimeout,
    SetupFailed(String),
    Io(String),
}

/// Why audio was not sent.
pub enum AudioError {
    /// The session is not ready for audio.
    SocketNotReady,
    /// A frame could not be encoded.
    Encode(EncodeError),
    /// There is no key to encrypt with.
    NoKey,
    /// The cipher refused the payload.
    Encryption,
}

/// What befalls a session that is ready. Times are in nanoseconds, of a clock that never goes
/// back.
pub enum RunEvent {
    /// A command came.
    Command(AudioCommand),
    /// No command can come any more.
    ChannelClosed,
    /// No command came for a while.
    Tick { now: u64 },
    /// What was asked for last has been done, or has failed.
    Finished { now: u64 },
}

/// What a session that is ready does next.
pub enum RunAction {
    /// Wait for a command.
    Wait,
    /// Send this audio.
    SendAudio { data: Vec<u8>, sample_rate: u32, channels: u32 },
    /// Set the volume, in percent.
    SetVolume(i32),
    /// Send this request, and read a response.
    Keepalive(String),
    /// Stop answering timing queries, send this request, and end.
    Teardown(String),
}

/// The time without activity after which a session keeps its connection alive: 15 seconds.
pub const KEEPALIVE_NANOS: u64 = 15000000000;

/// The seconds that a response to a request of the handshake may take.
pub const RESPONSE_SECONDS: u64 = 5;

/// The audio port of a receiver that names none.
pub const DEFAULT_AUDIO_PORT: u16 = 6000;

/// What a session knows, and what it has done.
#[verifier::ext_equal]
pub struct SessionView {
    pub name: Seq<char>,
    pub address: Seq<char>,
    pub port: u16,
    pub airplay2: bool,
    pub local_address: Seq<char>,
    /// The number of the request sent last.
    pub cseq: u32,
    /// The number of the next audio packet.
    pub rtp_seq: u16,
    /// The timestamp of the next audio packet.
    pub rtp_timestamp: u32,
    pub ssrc: u32,
    pub client_instance: Seq<char>,
    pub encoder: audio::EncoderView,
    /// Whether the audio socket is connected.
    pub audio_ready: bool,
    pub server_audio_port: u16,
    pub session_id: Seq<char>,
    /// In percent.
    pub volume: i32,
    pub encryption_enabled: bool,
    pub encryption_key: Option<Seq<u8>>,
    /// The number of the next encrypted payload.
    pub nonce_counter: u64,
    /// Whether no audio packet has been sent.
    pub first_packet: bool,
    pub last_keepalive: u64,
    pub phase: SetupPhase,
    pub pairing_secret: Seq<u8>,
    pub control_port: u16,
    pub timing_port: u16,
}

/// A session with one receiver.
pub struct AirPlaySession {
    device: AirPlayDevice,
    local_address: String,
    cseq: u32,
    rtp_seq: u16,
    rtp_timestamp: u32,
    ssrc: u32,
    client_instance: String,
    audio_encoder: AudioEncoder,
    audio_ready: bool,
    server_audio_port: u16,
    session_id: String,
    volume: i32,
    encryption_enabled: bool,
    encryption_key: Option<[u8; 32]>,
    nonce_counter: u64,
    first_packet: bool,
    last_keepalive: u64,
    phase: SetupPhase,
    pairing_secret: [u8; 32],
    control_port: u16,
    timing_port: u16,
}

impl View for AirPlaySession {
    type V = SessionView;

    closed spec fn view(&self) -> SessionView {
        SessionView {
            name: self.device.name@,
            address: self.device.address@,
            port: self.device.port,
            airplay2: self.device.supports_airplay2,
            local_address: self.local_address@,
            cseq: self.cseq,
            rtp_seq: self.rtp_seq,
            rtp_timestamp: self.rtp_timestamp,
            ssrc: self.ssrc,
            client_instance: self.client_instance@,
            encoder: self.audio_encoder@,
            audio_ready: self.audio_ready,
            server_audio_port: self.server_audio_port,
            session_id: self.session_id@,
            volume: self.volume,
            encryption_enabled: self.encryption_enabled,
            encryption_key: match self.encryption_key {
                Some(key) => Some(key@),
                None => None,
            },
            nonce_counter: self.nonce_counter,
            first_packet: self.first_packet,
            last_keepalive: self.last_keepalive,
            phase: self.phase,
            pairing_secret: self.pairing_secret@,
            control_port: self.control_port,
            timing_port: self.timing_port,
        }
    }
}

/// A session before its handshake.
pub open spec fn new_session(
    device: AirPlayDevice,
    local_address: Seq<char>,
    ssrc: u32,
    instance: u64,
    now: u64,
) -> SessionView {
    SessionView {
        name: device.name@,
        address: device.address@,
        port: device.port,
        airplay2: device.supports_airplay2,
        local_address,
        cseq: 0,
        rtp_seq: 0,
        rtp_timestamp: 0,
        ssrc,
        client_instance: text::hex(instance as nat, 16),
        encoder: audio::fresh_encoder(44100, 2, 16),
        audio_ready: false,
        server_audio_port: 6000,
        session_id: "1"@,
        volume: 100,
        encryption_enabled: false,
        encryption_key: None,
        nonce_counter: 0,
        first_packet: true,
        last_keepalive: now,
        phase: SetupPhase::Start,
        pairing_secret: Seq::new(32, |i: int| 0u8),
        control_port: 0,
        timing_port: 0,
    }
}

impl AirPlaySession {
    /// Audio is encoded in stereo, and encryption is on only with a key.
    pub closed spec fn wf(&self) -> bool {
        &&& self.audio_encoder.wf()
        &&& self.audio_encoder@.channels == 2
        &&& self.encryption_enabled ==> self.encryption_key is Some
    }

    /// A session with a receiver that is connected, under an identity of its own.
    pub fn new(device: AirPlayDevice, local_address: String, now: u64) -> (r: Self)
        ensures
            r.wf(),
            exists|ssrc: u32, instance: u64|
                r@ == #[trigger] new_session(device, local_address@, ssrc, instance, now),
    {
        let ssrc: u32 = outside::random_u32();
        let instance: u64 = outside::random_u64();
        Self::with_identity(device, local_address, ssrc, instance, now)
    }

    /// A session with a receiver that is connected, under the given identity.
    pub fn with_identity(
        device: AirPlayDevice,
        local_address: String,
        ssrc: u32,
        instance: u64,
        now: u64,
    ) -> (r: Self)
        ensures
            r.wf(),
            r@ == new_session(device, local_address@, ssrc, instance, now),
    {
        let mut client_instance: String = String::new();
        text::push_hex(&mut client_instance, instance, 16);
        assert(Seq::<char>::empty() + text::hex(instance as nat, 16) == text::hex(
            instance as nat,
            16,
        ));
        let r: AirPlaySession = AirPlaySession {
            device,
            local_address,
            cseq: 0,
            rtp_seq: 0,
            rtp_timestamp: 0,
            ssrc,
            client_instance,
            audio_encoder: AudioEncoder::new(),
            audio_ready: false,
            server_audio_port: DEFAULT_AUDIO_PORT,
            session_id: String::from_str("1"),
            volume: 100,
            encryption_enabled: false,
            encryption_key: None,
            nonce_counter: 0,
            first_packet: true,
            last_keepalive: now,
            phase: SetupPhase::Start,
            pairing_secret: [0u8; 32],
            control_port: 0,
            timing_port: 0,
        };
        assert(r@ == new_session(device, local_address@, ssrc, instance, now));
        r
    }
}

} // verus!
