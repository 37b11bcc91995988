use airplay_bridge::bridge::{any_delivered, audio_command, ids_json};
use airplay_bridge::{AirPlayBridge, AudioCommand, SessionInfo};

fn info(id: &str, tx: u32) -> SessionInfo<u32> {
    SessionInfo { device_id: id.to_string(), device_name: format!("name of {}", id), audio_tx: tx }
}

fn sorted(mut ids: Vec<String>) -> Vec<String> {
    ids.sort();
    ids
}

#[test]
fn new_bridge_is_not_connected() {
    let b: AirPlayBridge<u32> = AirPlayBridge::new();
    assert!(!b.is_connected());
    assert!(b.connected_device_ids().is_empty());
    assert!(b.sessions().is_empty());
    assert!(!b.discovery_running());
    assert_eq!(b.connected_devices_json(), "[]");
}

#[test]
fn registered_session_is_connected() {
    let mut b = AirPlayBridge::new();
    b.register(info("a", 1));
    b.register(info("b", 2));
    assert!(b.is_connected());
    assert!(b.is_device_connected("a"));
    assert!(b.is_device_connected("b"));
    assert!(!b.is_device_connected("A"));
    assert!(!b.is_device_connected("ab"));
    assert_eq!(sorted(b.connected_device_ids()), vec!["a", "b"]);
}

#[test]
fn device_has_one_session() {
    let mut b = AirPlayBridge::new();
    b.register(info("a", 1));
    b.register(info("b", 2));
    b.register(info("a", 3));
    assert_eq!(b.sessions().len(), 2);
    assert_eq!(b.remove("a").unwrap().audio_tx, 3);
    assert_eq!(b.sessions().len(), 1);
    assert_eq!(b.sessions()[0].audio_tx, 2);
}

#[test]
fn removing_undoes_registering() {
    let mut b = AirPlayBridge::new();
    b.register(info("a", 1));
    b.register(info("b", 2));
    let gone = b.remove("b").unwrap();
    assert_eq!(gone.device_id, "b");
    assert_eq!(gone.device_name, "name of b");
    assert!(b.remove("b").is_none());
    assert!(b.is_device_connected("a"));
    assert!(!b.is_device_connected("b"));
}

#[test]
fn connecting_to_a_device() {
    let mut b: AirPlayBridge<u32> = AirPlayBridge::new();
    let ask = |b: &AirPlayBridge<u32>, id: &str, port: i32, flag: u8| {
        b.connect(id.to_string(), "Kitchen".to_string(), "10.0.0.2".to_string(), port, flag)
    };
    let d = ask(&b, "a", 7000, 1).unwrap();
    assert_eq!(d.id, "a");
    assert_eq!(d.name, "Kitchen");
    assert_eq!(d.address, "10.0.0.2");
    assert_eq!(d.port, 7000);
    assert!(d.supports_airplay2);
    assert!(!ask(&b, "a", 0, 0).unwrap().supports_airplay2);
    assert!(!ask(&b, "a", 0, 2).unwrap().supports_airplay2);
    assert_eq!(ask(&b, "a", 65536 + 5, 0).unwrap().port, 5);
    assert_eq!(ask(&b, "a", -1, 0).unwrap().port, 65535);
    b.register(info("a", 1));
    assert!(ask(&b, "a", 7000, 1).is_none());
    assert!(ask(&b, "b", 7000, 1).is_some());
}

#[test]
fn disconnecting_all() {
    let mut b = AirPlayBridge::new();
    for (i, id) in ["a", "b", "c"].iter().enumerate() {
        b.register(info(id, i as u32));
    }
    let gone = b.take_all();
    assert_eq!(sorted(gone.into_iter().map(|s| s.device_id).collect()), vec!["a", "b", "c"]);
    assert!(!b.is_connected());
    b.register(info("d", 4));
    assert_eq!(b.destroy().len(), 1);
    assert!(!b.is_connected());
    assert!(!b.discovery_running());
}

#[test]
fn devices_as_json() {
    let mut b = AirPlayBridge::new();
    b.register(info("a\"b\\", 1));
    assert_eq!(b.connected_devices_json(), "[\"a\\\"b\\\\\"]");
    let ids: Vec<String> = vec![
        "x".to_string(),
        String::new(),
        "\u{8}\u{9}\u{a}\u{c}\u{d}\u{1}\u{1f}\u{7f}/é\u{2028}".to_string(),
    ];
    assert_eq!(
        ids_json(&ids),
        "[\"x\",\"\",\"\\b\\t\\n\\f\\r\\u0001\\u001f\u{7f}/é\u{2028}\"]"
    );
}

#[test]
fn audio_commands_take_their_bits() {
    match audio_command(&[1, 2, 3], 48000, -1) {
        AudioCommand::SendAudio { data, sample_rate, channels } => {
            assert_eq!(data, vec![1, 2, 3]);
            assert_eq!(sample_rate, 48000);
            assert_eq!(channels, u32::MAX);
        }
        _ => panic!("no audio"),
    }
}

#[test]
fn delivery_to_any_session_counts() {
    assert!(!any_delivered(&[]));
    assert!(!any_delivered(&[false, false]));
    assert!(any_delivered(&[false, true, false]));
}
