use airplay_bridge::audio::EncodeError;
use airplay_bridge::response::RtspResponse;
use airplay_bridge::session::setup::{derive_key, exchange_key};
use airplay_bridge::session::{
    AudioError, PairError, Pairing, RunAction, RunEvent, SetupAction, SetupError, SetupEvent,
};
use airplay_bridge::{AirPlayDevice, AirPlaySession, AudioCommand, AudioEncoder};
use chacha20poly1305::aead::{Aead, KeyInit};

const SECOND: u64 = 1_000_000_000;

fn device(supports_airplay2: bool) -> AirPlayDevice {
    AirPlayDevice {
        id: "id-1".to_string(),
        name: "Kitchen".to_string(),
        address: "10.0.0.2".to_string(),
        port: 7000,
        supports_airplay2,
    }
}

fn session(supports_airplay2: bool) -> AirPlaySession {
    let local = "192.168.1.5".to_string();
    AirPlaySession::with_identity(device(supports_airplay2), local, 305419896, 0xab, 0)
}

fn begin(s: &mut AirPlaySession) -> SetupAction {
    let mut challenge = [0u8; 16];
    for i in 0..16 {
        challenge[i] = i as u8;
    }
    s.setup(SetupEvent::Begin { challenge, secret: [7; 32] })
}

fn reply(status: &str, headers: &str, body: &[u8]) -> SetupEvent {
    SetupEvent::Response(RtspResponse {
        status_line: status.to_string(),
        headers: headers.to_string(),
        body: body.to_vec(),
    })
}

fn ok() -> SetupEvent {
    reply("RTSP/1.0 200 OK", "", &[])
}

fn sent(a: SetupAction) -> (String, Vec<u8>, Option<u64>) {
    match a {
        SetupAction::Send { request, body, timeout } => (request, body, timeout),
        _ => panic!("nothing was sent"),
    }
}

fn failure(a: SetupAction) -> SetupError {
    match a {
        SetupAction::Fail(e) => e,
        _ => panic!("no failure"),
    }
}

fn skipped(a: SetupAction) -> PairError {
    match a {
        SetupAction::Bind(Pairing::Skipped(e)) => e,
        _ => panic!("pairing was not skipped"),
    }
}

/// A session that has just sent ANNOUNCE.
fn announced() -> AirPlaySession {
    let mut s = session(false);
    begin(&mut s);
    s.setup(ok());
    s.setup(SetupEvent::Bound { control_port: 10, timing_port: 11 });
    s
}

/// A session that is ready for audio.
fn ready() -> AirPlaySession {
    let mut s = announced();
    s.setup(ok());
    s.setup(reply("RTSP/1.0 200 OK", "Session: S1\r\n", &[]));
    s.setup(SetupEvent::Connected);
    assert!(matches!(s.setup(ok()), SetupAction::Done));
    s
}

#[test]
fn handshake_without_pairing() {
    let mut s = session(false);
    let (request, body, timeout) = sent(begin(&mut s));
    assert_eq!(
        request,
        "OPTIONS * RTSP/1.0\r\nCSeq: 1\r\nUser-Agent: iTunes/12.0 (Macintosh)\r\n\
         Client-Instance: 00000000000000AB\r\nDACP-ID: 00000000000000AB\r\n\
         Active-Remote: 305419896\r\nApple-Challenge: AAECAwQFBgcICQoLDA0ODw==\r\n\r\n"
    );
    assert!(body.is_empty());
    assert_eq!(timeout, Some(5));
    assert!(matches!(s.setup(ok()), SetupAction::Bind(Pairing::NotSupported)));
    let (request, body, timeout) =
        sent(s.setup(SetupEvent::Bound { control_port: 10, timing_port: 11 }));
    assert!(request.starts_with("ANNOUNCE rtsp://10.0.0.2:7000/305419896 RTSP/1.0\r\nCSeq: 2\r\n"));
    assert!(request.contains("c=IN IP4 192.168.1.5\r\n"));
    assert!(body.is_empty());
    assert_eq!(timeout, Some(5));
    let (request, _, timeout) = sent(s.setup(ok()));
    assert_eq!(
        request,
        "SETUP rtsp://10.0.0.2:7000/305419896 RTSP/1.0\r\nCSeq: 3\r\n\
         Transport: RTP/AVP/UDP;unicast;interleaved=0-1;mode=record;control_port=10;\
         timing_port=11\r\nUser-Agent: iTunes/12.0 (Macintosh)\r\n\
         Client-Instance: 00000000000000AB\r\n\r\n"
    );
    assert_eq!(timeout, Some(5));
    let headers = "Transport: RTP/AVP/UDP;server_port=6010;timing_port=6012\r\n\
                   Session: CAFE;timeout=60\r\n";
    match s.setup(reply("RTSP/1.0 200 OK", headers, &[])) {
        SetupAction::Connect { audio_port, timing_port } => {
            assert_eq!(audio_port, 6010);
            assert_eq!(timing_port, Some(6012));
        }
        _ => panic!("not connected"),
    }
    let (request, _, timeout) = sent(s.setup(SetupEvent::Connected));
    assert_eq!(
        request,
        "RECORD rtsp://10.0.0.2:7000/305419896 RTSP/1.0\r\nCSeq: 4\r\nRange: npt=0-\r\n\
         RTP-Info: url=rtsp://10.0.0.2:7000/305419896;seq=0;rtptime=0\r\n\
         User-Agent: iTunes/12.0 (Macintosh)\r\nSession: CAFE\r\n\r\n"
    );
    assert_eq!(timeout, Some(5));
    assert!(matches!(s.setup(ok()), SetupAction::Done));
    assert_eq!(s.cseq(), 4);
    assert!(matches!(s.setup(ok()), SetupAction::Nothing));
    assert_eq!(s.cseq(), 4);
}

#[test]
fn handshake_with_pairing_encrypts_audio() {
    let mut s = session(true);
    begin(&mut s);
    let (request, body, timeout) = sent(s.setup(ok()));
    assert_eq!(
        request,
        "POST /pair-setup RTSP/1.0\r\nCSeq: 2\r\nUser-Agent: OuterTune/1.0\r\n\
         Content-Type: application/octet-stream\r\nContent-Length: 32\r\n\r\n"
    );
    assert_eq!(body, exchange_key(&[7; 32]).to_vec());
    assert_eq!(timeout, None);
    let theirs = [9u8; 32];
    let mut answer = exchange_key(&theirs).to_vec();
    answer.push(0xff);
    let a = s.setup(reply("RTSP/1.0 200 OK", "", &answer));
    assert!(matches!(a, SetupAction::Bind(Pairing::Completed)));
    s.setup(SetupEvent::Bound { control_port: 1, timing_port: 2 });
    s.setup(ok());
    s.setup(ok());
    s.setup(SetupEvent::Connected);
    s.setup(SetupEvent::Timeout);

    // The receiver derives the same key from its own secret.
    let key = derive_key(&theirs, &exchange_key(&[7; 32])).ok().unwrap();
    let cipher = chacha20poly1305::ChaCha20Poly1305::new(&key.into());
    let mut codec = AudioEncoder::new();
    for n in 0..3u8 {
        let frame = vec![n; 1408];
        let packet = s.audio_packet(&frame, 2).ok().unwrap();
        s.packet_sent();
        let mut nonce = [0u8; 12];
        nonce[4] = n;
        assert_eq!(packet[1], if n == 0 { 0xe0 } else { 0x60 });
        assert_eq!(packet[12..24].to_vec(), nonce.to_vec());
        let plain = cipher.decrypt(&nonce.into(), &packet[24..]).unwrap();
        assert_eq!(plain, codec.encode_alac(&frame, 44100, 2).ok().unwrap());
    }
}

#[test]
fn key_exchange_known_answers() {
    let secret: [u8; 32] = [
        0xa5, 0x46, 0xe3, 0x6b, 0xf0, 0x52, 0x7c, 0x9d, 0x3b, 0x16, 0x15, 0x4b, 0x82, 0x46, 0x5e,
        0xdd, 0x62, 0x14, 0x4c, 0x0a, 0xc1, 0xfc, 0x5a, 0x18, 0x50, 0x6a, 0x22, 0x44, 0xba, 0x44,
        0x9a, 0xc4,
    ];
    let public: [u8; 32] = [
        0xe6, 0xdb, 0x68, 0x67, 0x58, 0x30, 0x30, 0xdb, 0x35, 0x94, 0xc1, 0xa4, 0x24, 0xb1, 0x5f,
        0x7c, 0x72, 0x66, 0x24, 0xec, 0x26, 0xb3, 0x35, 0x3b, 0x10, 0xa9, 0x03, 0xa6, 0xd0, 0xab,
        0x1c, 0x4c,
    ];
    let shared: [u8; 32] = [
        0xc3, 0xda, 0x55, 0x37, 0x9d, 0xe9, 0xc6, 0x90, 0x8e, 0x94, 0xea, 0x4d, 0xf2, 0x8d, 0x08,
        0x4f, 0x32, 0xec, 0xcf, 0x03, 0x49, 0x1c, 0x71, 0xf7, 0x54, 0xb4, 0x07, 0x55, 0x77, 0xa2,
        0x85, 0x52,
    ];
    let mut key = [0u8; 32];
    hkdf::Hkdf::<sha2::Sha256>::new(None, &shared).expand(b"AirPlay-Audio-Key", &mut key).unwrap();
    assert_eq!(derive_key(&secret, &public).ok().unwrap(), key);
    assert_ne!(key, shared);
    assert_eq!(
        exchange_key(&secret),
        x25519_dalek::x25519(secret, x25519_dalek::X25519_BASEPOINT_BYTES)
    );
}

#[test]
fn both_ends_derive_the_same_key() {
    let (a, b) = ([1u8; 32], [2u8; 32]);
    let ours = derive_key(&a, &exchange_key(&b)).ok().unwrap();
    let theirs = derive_key(&b, &exchange_key(&a)).ok().unwrap();
    assert_eq!(ours, theirs);
    assert_ne!(ours, derive_key(&a, &exchange_key(&a)).ok().unwrap());
}

#[test]
fn pairing_with_a_pin_goes_on_without() {
    let mut s = session(true);
    begin(&mut s);
    s.setup(ok());
    let (request, body, timeout) = sent(s.setup(reply("RTSP/1.0 403 Forbidden", "", &[])));
    assert!(request.starts_with("POST /pair-pin-start RTSP/1.0\r\nCSeq: 3\r\n"));
    assert!(body.is_empty());
    assert_eq!(timeout, None);
    assert!(matches!(s.setup(ok()), SetupAction::Bind(Pairing::Completed)));

    let mut s = session(true);
    begin(&mut s);
    s.setup(ok());
    s.setup(reply("RTSP/1.0 403 Forbidden", "", &[]));
    let e = skipped(s.setup(reply("RTSP/1.0 501 No", "", &[])));
    assert!(matches!(e, PairError::PinRequired));
    assert_eq!(e.message(), "Transient pairing not supported");
}

#[test]
fn pairing_never_ends_the_handshake() {
    for event in [
        SetupEvent::ReadError("broken".to_string()),
        SetupEvent::IoError("broken".to_string()),
    ] {
        let mut s = session(true);
        begin(&mut s);
        s.setup(ok());
        assert_eq!(skipped(s.setup(event)).message(), "broken");
    }
    for event in [
        SetupEvent::ReadError("broken".to_string()),
        SetupEvent::IoError("broken".to_string()),
    ] {
        let mut s = session(true);
        begin(&mut s);
        s.setup(ok());
        s.setup(reply("403", "", &[]));
        assert_eq!(skipped(s.setup(event)).message(), "broken");
    }
    for answer in [reply("500", "", &[1; 32]), reply("200", "", &[1; 31])] {
        let mut s = session(true);
        begin(&mut s);
        s.setup(ok());
        assert!(matches!(s.setup(answer), SetupAction::Bind(Pairing::Completed)));
        // No key, so no encryption.
        assert!(matches!(s.encrypt_payload(&[1]), Err(AudioError::NoKey)));
    }
    assert_eq!(PairError::KeyDerivation.message(), "HKDF expansion failed");
}

#[test]
fn options_failures() {
    let mut s = session(false);
    begin(&mut s);
    let e = failure(s.setup(reply("RTSP/1.0 404 Not Found", "", &[])));
    assert!(matches!(e, SetupError::OptionsFailed(_)));
    assert_eq!(e.message(), "OPTIONS failed: RTSP/1.0 404 Not Found");
    let mut s = session(true);
    begin(&mut s);
    assert_eq!(failure(s.setup(SetupEvent::Timeout)).message(), "OPTIONS timeout");
    let mut s = session(true);
    begin(&mut s);
    let e = failure(s.setup(SetupEvent::ReadError("eof".to_string())));
    assert_eq!(e.message(), "OPTIONS read error: eof");
    let mut s = session(true);
    begin(&mut s);
    assert_eq!(failure(s.setup(SetupEvent::IoError("pipe".to_string()))).message(), "pipe");
    assert!(matches!(s.setup(ok()), SetupAction::Nothing));
}

#[test]
fn announce_failures() {
    for code in ["RTSP/1.0 401 Unauthorized", "RTSP/1.0 403 Forbidden"] {
        let e = failure(announced().setup(reply(code, "", &[])));
        assert_eq!(e.message(), format!("Device requires authentication ({})", code));
    }
    assert_eq!(failure(announced().setup(SetupEvent::Timeout)).message(), "ANNOUNCE timeout");
    let e = failure(announced().setup(SetupEvent::ReadError("eof".to_string())));
    assert_eq!(e.message(), "ANNOUNCE read error: eof");
    // Another refusal is no reason not to try SETUP.
    let (request, _, _) = sent(announced().setup(reply("RTSP/1.0 500 Oops", "", &[])));
    assert!(request.starts_with("SETUP "));
}

#[test]
fn setup_failures() {
    let mut s = announced();
    s.setup(ok());
    let e = failure(s.setup(reply("RTSP/1.0 453 Busy", "", &[])));
    assert_eq!(e.message(), "SETUP failed: RTSP/1.0 453 Busy");
    let mut s = announced();
    s.setup(ok());
    assert_eq!(failure(s.setup(SetupEvent::Timeout)).message(), "SETUP timeout");
    let mut s = announced();
    s.setup(ok());
    let e = failure(s.setup(SetupEvent::ReadError("eof".to_string())));
    assert_eq!(e.message(), "SETUP read error: eof");
    let mut s = announced();
    s.setup(ok());
    s.setup(ok());
    let e = failure(s.setup(SetupEvent::IoError("unreachable".to_string())));
    assert!(matches!(e, SetupError::Io(_)));
    assert_eq!(e.message(), "unreachable");
}

#[test]
fn setup_without_ports_takes_the_usual_one() {
    let mut s = announced();
    s.setup(ok());
    match s.setup(ok()) {
        SetupAction::Connect { audio_port, timing_port } => {
            assert_eq!(audio_port, 6000);
            assert_eq!(timing_port, None);
        }
        _ => panic!("not connected"),
    }
    let (request, _, _) = sent(s.setup(SetupEvent::Connected));
    assert!(request.contains("Session: 1\r\n"));
}

#[test]
fn record_needs_no_answer() {
    for event in [
        SetupEvent::Timeout,
        SetupEvent::ReadError("eof".to_string()),
        reply("RTSP/1.0 500 Oops", "", &[]),
    ] {
        let mut s = announced();
        s.setup(ok());
        s.setup(ok());
        s.setup(SetupEvent::Connected);
        assert!(matches!(s.setup(event), SetupAction::Done));
    }
    let mut s = announced();
    s.setup(ok());
    s.setup(ok());
    s.setup(SetupEvent::Connected);
    assert_eq!(failure(s.setup(SetupEvent::IoError("pipe".to_string()))).message(), "pipe");
}

#[test]
fn unexpected_events_change_nothing() {
    let mut s = session(false);
    assert!(matches!(s.setup(ok()), SetupAction::Nothing));
    assert!(matches!(s.setup(SetupEvent::Connected), SetupAction::Nothing));
    assert_eq!(s.cseq(), 0);
    sent(begin(&mut s));
    assert!(matches!(begin(&mut s), SetupAction::Nothing));
    assert_eq!(s.cseq(), 1);
}

#[test]
fn fresh_sessions_differ() {
    let mut a = AirPlaySession::new(device(false), "h".to_string(), 0);
    let mut b = AirPlaySession::new(device(false), "h".to_string(), 0);
    let (first, _, _) = sent(a.begin_setup());
    let (second, _, _) = sent(b.begin_setup());
    assert!(first.starts_with("OPTIONS * RTSP/1.0\r\nCSeq: 1\r\n"));
    assert_ne!(first, second);
}

#[test]
fn audio_waits_for_the_handshake() {
    let s = announced();
    match s.audio_frames(&[0; 1408], 44100, 2) {
        Err(e) => {
            assert!(matches!(e, AudioError::SocketNotReady));
            assert_eq!(e.message(), "Audio socket not initialized");
        }
        Ok(_) => panic!("audio was taken too early"),
    }
}

#[test]
fn audio_is_cut_into_frames() {
    let s = ready();
    let frames = s.audio_frames(&[5; 1410], 44100, 2).ok().unwrap();
    assert_eq!(frames.len(), 2);
    assert_eq!(frames[0], vec![5; 1408]);
    assert_eq!(frames[1][..2].to_vec(), vec![5, 5]);
    assert_eq!(frames[1][2..].to_vec(), vec![0; 1406]);
    // 704 samples at half the rate fill four frames.
    let frames = s.audio_frames(&[0; 704 * 4], 22050, 2).ok().unwrap();
    assert_eq!(frames.len(), 4);
    assert!(s.audio_frames(&[], 44100, 2).ok().unwrap().is_empty());
}

#[test]
fn packets_are_numbered() {
    let mut s = ready();
    let mut codec = AudioEncoder::new();
    for n in 0..300u32 {
        let frame = vec![n as u8; 1408];
        let packet = s.audio_packet(&frame, 2).ok().unwrap();
        s.packet_sent();
        assert_eq!(packet[..2].to_vec(), vec![0x80, if n == 0 { 0xe0 } else { 0x60 }]);
        assert_eq!(packet[2..4].to_vec(), (n as u16).to_be_bytes().to_vec());
        assert_eq!(packet[4..8].to_vec(), (352 * n).to_be_bytes().to_vec());
        assert_eq!(packet[8..12].to_vec(), vec![0x12, 0x34, 0x56, 0x78]);
        assert_eq!(packet[12..].to_vec(), codec.encode_alac(&frame, 44100, 2).ok().unwrap());
    }
}

#[test]
fn numbers_of_packets_wrap() {
    let mut s = ready();
    for _ in 0..65536 {
        s.packet_with(&[]);
    }
    let packet = s.packet_with(&[1]);
    assert_eq!(packet[2..4].to_vec(), vec![0, 0]);
    assert_eq!(packet[4..8].to_vec(), (352u32 * 65536).to_be_bytes().to_vec());
}

#[test]
fn unsent_packet_leaves_the_mark() {
    let mut s = ready();
    let first = s.audio_packet(&[0; 1408], 2).ok().unwrap();
    let second = s.audio_packet(&[0; 1408], 2).ok().unwrap();
    assert_eq!(first[1], 0xe0);
    assert_eq!(second[1], 0xe0);
    assert_eq!(second[3], 1);
    s.packet_sent();
    assert_eq!(s.audio_packet(&[0; 1408], 2).ok().unwrap()[1], 0x60);
}

#[test]
fn short_audio_is_refused() {
    let mut s = ready();
    match s.audio_packet(&[0; 10], 2) {
        Err(e) => {
            assert!(matches!(
                e,
                AudioError::Encode(EncodeError::ShortAlacFrame { got: 10, need: 1408 })
            ));
            assert_eq!(
                e.message(),
                "Not enough PCM data for ALAC frame: got 10 bytes, need 1408"
            );
        }
        Ok(_) => panic!("a short frame was sent"),
    }
}

#[test]
fn payloads_are_sealed() {
    let mut s = ready();
    s.install_key([3; 32]);
    let cipher = chacha20poly1305::ChaCha20Poly1305::new(&[3; 32].into());
    for n in 0..2u8 {
        let payload = s.encrypt_payload(b"hello").ok().unwrap();
        let mut nonce = [0u8; 12];
        nonce[4] = n;
        assert_eq!(payload.len(), 12 + 5 + 16);
        assert_eq!(payload[..12].to_vec(), nonce.to_vec());
        assert_eq!(cipher.decrypt(&nonce.into(), &payload[12..]).unwrap(), b"hello".to_vec());
    }
    assert_eq!(AudioError::NoKey.message(), "No encryption key");
    assert_eq!(
        AudioError::Encryption.message(),
        format!("Encryption failed: {}", chacha20poly1305::aead::Error)
    );
}

#[test]
fn commands_of_a_session() {
    let mut s = ready();
    let audio = AudioCommand::SendAudio { data: vec![1, 2], sample_rate: 48000, channels: 2 };
    match s.run(RunEvent::Command(audio)) {
        RunAction::SendAudio { data, sample_rate, channels } => {
            assert_eq!(data, vec![1, 2]);
            assert_eq!(sample_rate, 48000);
            assert_eq!(channels, 2);
        }
        _ => panic!("no audio"),
    }
    let volume = RunEvent::Command(AudioCommand::SetVolume(50));
    assert!(matches!(s.run(volume), RunAction::SetVolume(50)));
    assert_eq!(s.cseq(), 4);
    let request = s.volume_request("-6.020600");
    assert_eq!(
        request,
        "SET_PARAMETER rtsp://10.0.0.2:7000/audio RTSP/1.0\r\nCSeq: 5\r\n\
         User-Agent: OuterTune/1.0\r\nContent-Type: text/parameters\r\nContent-Length: 19\r\n\r\n\
         volume: -6.020600\r\n"
    );
    match s.run(RunEvent::Command(AudioCommand::Disconnect)) {
        RunAction::Teardown(request) => assert_eq!(
            request,
            "TEARDOWN rtsp://10.0.0.2:7000/305419896 RTSP/1.0\r\nCSeq: 6\r\n\
             User-Agent: iTunes/12.0 (Macintosh)\r\nSession: S1\r\n\r\n"
        ),
        _ => panic!("no end"),
    }
}

#[test]
fn closed_channel_ends_a_session() {
    assert!(matches!(ready().run(RunEvent::ChannelClosed), RunAction::Teardown(_)));
}

#[test]
fn idle_session_keeps_its_connection() {
    let mut s = ready();
    assert!(matches!(s.run(RunEvent::Tick { now: 15 * SECOND - 1 }), RunAction::Wait));
    match s.run(RunEvent::Tick { now: 15 * SECOND }) {
        RunAction::Keepalive(request) => assert_eq!(
            request,
            "OPTIONS * RTSP/1.0\r\nCSeq: 5\r\nUser-Agent: iTunes/12.0 (Macintosh)\r\n\
             Session: S1\r\n\r\n"
        ),
        _ => panic!("no sign of life"),
    }
    assert!(matches!(s.run(RunEvent::Finished { now: 16 * SECOND }), RunAction::Wait));
    assert!(matches!(s.run(RunEvent::Tick { now: 30 * SECOND }), RunAction::Wait));
    assert!(matches!(s.run(RunEvent::Tick { now: 31 * SECOND }), RunAction::Keepalive(_)));
}

#[test]
fn willing_receiver_is_ready_however_pairing_ends() {
    let key = exchange_key(&[9; 32]);
    let pairings: Vec<Vec<SetupEvent>> = vec![
        vec![reply("RTSP/1.0 200 OK", "", &key)],
        vec![reply("RTSP/1.0 200 OK", "", &[])],
        vec![reply("RTSP/1.0 404 Not Found", "", &[])],
        vec![SetupEvent::ReadError("eof".to_string())],
        vec![SetupEvent::IoError("pipe".to_string())],
        vec![reply("RTSP/1.0 403 Forbidden", "", &[]), ok()],
        vec![reply("RTSP/1.0 403 Forbidden", "", &[]), SetupEvent::ReadError("eof".to_string())],
    ];
    for (n, pairing) in pairings.into_iter().enumerate() {
        let requests = 4 + pairing.len() as u32;
        let mut s = session(true);
        begin(&mut s);
        s.setup(ok());
        for event in pairing {
            s.setup(event);
        }
        s.setup(SetupEvent::Bound { control_port: 1, timing_port: 2 });
        s.setup(reply("RTSP/1.0 500 Oops", "", &[]));
        s.setup(ok());
        s.setup(SetupEvent::Connected);
        assert!(matches!(s.setup(SetupEvent::Timeout), SetupAction::Done));
        assert_eq!(s.cseq(), requests);
        assert!(s.audio_frames(&[], 44100, 2).is_ok());
        assert_eq!(s.encrypt_payload(&[1, 2, 3]).is_ok(), n == 0);
    }
}

#[test]
fn equal_payloads_are_sealed_with_other_nonces() {
    let mut s = ready();
    s.install_key([4; 32]);
    let sealed: Vec<Vec<u8>> = (0..300).map(|_| s.encrypt_payload(&[7; 40]).ok().unwrap()).collect();
    for (i, a) in sealed.iter().enumerate() {
        assert_eq!(a.len(), 40 + 28);
        for b in &sealed[..i] {
            assert_ne!(a[..12], b[..12]);
        }
    }
}
