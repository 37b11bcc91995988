use airplay_bridge::rtp::{
    create_rtp_packet, cut_frames, nonce_and_sealed, nonce_bytes, push_bytes,
};
use airplay_bridge::timing::{
    ntp_time, timing_response, timing_step, TimingAction, TimingEvent,
};

#[test]
fn rtp_packet_of_a_payload() {
    assert_eq!(
        create_rtp_packet(true, 0x0102, 0x03040506, 0x0708090a, &[0xaa, 0xbb]),
        vec![0x80, 0xe0, 1, 2, 3, 4, 5, 6, 7, 8, 9, 10, 0xaa, 0xbb]
    );
    assert_eq!(
        create_rtp_packet(false, 65535, u32::MAX, 0, &[]),
        vec![0x80, 0x60, 255, 255, 255, 255, 255, 255, 0, 0, 0, 0]
    );
}

#[test]
fn rtp_packet_reads_back() {
    let packet = create_rtp_packet(false, 4660, 305419896, 2596069104, &[1, 2, 3]);
    assert_eq!(u16::from_be_bytes([packet[2], packet[3]]), 4660);
    assert_eq!(u32::from_be_bytes([packet[4], packet[5], packet[6], packet[7]]), 305419896);
    assert_eq!(u32::from_be_bytes([packet[8], packet[9], packet[10], packet[11]]), 2596069104);
    assert_eq!(packet[12..].to_vec(), vec![1, 2, 3]);
}

#[test]
fn nonces_hold_their_number() {
    assert_eq!(nonce_bytes(0), [0u8; 12]);
    assert_eq!(nonce_bytes(0x0102030405060708), [0, 0, 0, 0, 8, 7, 6, 5, 4, 3, 2, 1]);
    assert_ne!(nonce_bytes(u64::MAX), nonce_bytes(0));
    assert_eq!(nonce_and_sealed(&nonce_bytes(1), &[9]), vec![0, 0, 0, 0, 1, 0, 0, 0, 0, 0, 0, 0, 9]);
}

#[test]
fn frames_hold_the_pcm() {
    let frames = cut_frames(&[1, 2, 3, 4, 5, 6, 7], 3);
    assert_eq!(frames, vec![vec![1, 2, 3], vec![4, 5, 6], vec![7, 0, 0]]);
    assert_eq!(cut_frames(&[1, 2, 3, 4], 2), vec![vec![1, 2], vec![3, 4]]);
    assert!(cut_frames(&[], 4).is_empty());
}

#[test]
fn bytes_are_appended() {
    let mut out = vec![1u8];
    push_bytes(&mut out, &[2, 3]);
    push_bytes(&mut out, &[]);
    assert_eq!(out, vec![1, 2, 3]);
}

#[test]
fn ntp_timestamps() {
    assert_eq!(ntp_time(0, 0), [0x83, 0xaa, 0x7e, 0x80, 0, 0, 0, 0]);
    assert_eq!(ntp_time(0, 500000000), [0x83, 0xaa, 0x7e, 0x80, 0x80, 0, 0, 0]);
    assert_eq!(ntp_time(1, 999999999), [0x83, 0xaa, 0x7e, 0x81, 0xff, 0xff, 0xff, 0xfb]);
    // The seconds wrap in 2036.
    assert_eq!(ntp_time(4294967296 - 2208988800, 0), [0, 0, 0, 0, 0, 0, 0, 0]);
}

#[test]
fn full_timing_query_is_answered() {
    let mut query: Vec<u8> = (0..32).collect();
    query[1] = 0xd2;
    let now = [1u8, 1, 2, 3, 5, 8, 13, 21];
    let answer = timing_response(&query, &now).unwrap();
    let mut expected = vec![0x80, 0xd3, 2, 3, 0, 0, 0, 0];
    expected.extend_from_slice(&[24, 25, 26, 27, 28, 29, 30, 31]);
    expected.extend_from_slice(&now);
    expected.extend_from_slice(&now);
    assert_eq!(answer, expected);
    assert!(timing_response(&answer, &now).is_none());
}

#[test]
fn short_timing_query_is_answered_without_reference() {
    let query = [0x80u8, 0x52, 7, 8, 0, 0, 0, 0];
    let answer = timing_response(&query, &[9u8; 8]).unwrap();
    let mut expected = vec![0x80, 0xd3, 7, 8];
    expected.extend_from_slice(&[0u8; 12]);
    expected.extend_from_slice(&[9u8; 16]);
    assert_eq!(answer, expected);
}

#[test]
fn other_datagrams_are_not_answered() {
    let now = [0u8; 8];
    assert!(timing_response(&[], &now).is_none());
    assert!(timing_response(&[0x80, 0xd2, 0, 1, 0, 0, 0], &now).is_none());
    assert!(timing_response(&[0x80, 0xd4, 0, 1, 0, 0, 0, 0], &now).is_none());
}

#[test]
fn timing_handler_ends_only_with_its_session() {
    assert!(matches!(timing_step(TimingEvent::Stop), TimingAction::Stop));
    assert!(matches!(timing_step(TimingEvent::SocketError), TimingAction::Listen));
    assert!(matches!(timing_step(TimingEvent::Timeout), TimingAction::Listen));
    let noise = TimingEvent::Datagram { bytes: vec![0u8; 32], now: [0; 8] };
    assert!(matches!(timing_step(noise), TimingAction::Listen));
    let query = TimingEvent::Datagram { bytes: vec![0, 0x52, 0, 0, 0, 0, 0, 0], now: [3; 8] };
    match timing_step(query) {
        TimingAction::Reply(answer) => assert_eq!(answer[16..].to_vec(), vec![3u8; 16]),
        _ => panic!("no reply"),
    }
}
