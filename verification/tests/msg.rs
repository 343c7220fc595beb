use std::time::{SystemTime, UNIX_EPOCH};

use delay_queue::msg_type::{serialize_time, Mode, Msg};
use delay_queue::NANOS_PER_SECOND;

fn now_nanos() -> u64 {
    SystemTime::now()
        .duration_since(UNIX_EPOCH)
        .unwrap()
        .as_nanos() as u64
}

#[test]
fn msg_test_msg_serialize() {
    let msg = Msg::new(
        "queue_name".to_string(),
        "msg".to_string(),
        now_nanos() + 10 * NANOS_PER_SECOND,
        Mode::P2P,
    );
    let msg_json = msg.to_json();
    println!("{msg_json}");
}

#[test]
fn msg_type_test_msg_serialize() {
    let msg = Msg::new(
        "queue_name".to_string(),
        "msg".to_string(),
        now_nanos() + 10 * NANOS_PER_SECOND,
        Mode::P2P,
    );
    let msg_json = msg.to_json();
    println!("{msg_json}");
}

#[test]
fn msg_new_sets_fields() {
    let msg = Msg::new("orders".to_string(), "hello".to_string(), 12345, Mode::Broadcast);
    assert_eq!(msg.queue_name, "orders");
    assert_eq!(msg.msg, "hello");
    assert_eq!(msg.delay_time, 12345);
    assert_eq!(msg.mode, Mode::Broadcast);
}

#[test]
fn msg_id_is_32_hex_chars_without_hyphens() {
    let msg = Msg::new("q".to_string(), "m".to_string(), 0, Mode::P2P);
    assert_eq!(msg.id.len(), 32);
    assert!(msg.id.chars().all(|c| c.is_ascii_hexdigit()));
    assert!(!msg.id.contains('-'));
}

#[test]
fn msg_ids_are_fresh() {
    let a = Msg::new("q".to_string(), "m".to_string(), 0, Mode::P2P);
    let b = Msg::new("q".to_string(), "m".to_string(), 0, Mode::P2P);
    assert_ne!(a.id, b.id);
}

#[test]
fn to_json_exact_text() {
    let msg = Msg {
        id: "deadbeef".to_string(),
        queue_name: "orders".to_string(),
        msg: "hello".to_string(),
        delay_time: 1_700_000_005 * NANOS_PER_SECOND + 500_000_000,
        mode: Mode::P2P,
    };
    assert_eq!(
        msg.to_json(),
        "{\"id\":\"deadbeef\",\"queue_name\":\"orders\",\"msg\":\"hello\",\"delay_time\":1700000005,\"mode\":\"p2p\"}"
    );
}

#[test]
fn to_json_escapes_and_parses_back() {
    let payload = "he\"ll\\o\nworld\t!".to_string();
    let msg = Msg {
        id: "00ff".to_string(),
        queue_name: "a\"b".to_string(),
        msg: payload.clone(),
        delay_time: 42 * NANOS_PER_SECOND,
        mode: Mode::Broadcast,
    };
    let text = msg.to_json();
    let v: serde_json::Value = serde_json::from_str(&text).unwrap();
    assert_eq!(v.get("id").unwrap().as_str().unwrap(), "00ff");
    assert_eq!(v.get("queue_name").unwrap().as_str().unwrap(), "a\"b");
    assert_eq!(v.get("msg").unwrap().as_str().unwrap(), payload);
    assert_eq!(v.get("delay_time").unwrap().as_u64().unwrap(), 42);
    assert_eq!(v.get("mode").unwrap().as_str().unwrap(), "broadcast");
}

#[test]
fn serialize_time_whole_seconds() {
    assert_eq!(serialize_time(0), 0);
    assert_eq!(serialize_time(999_999_999), 0);
    assert_eq!(serialize_time(NANOS_PER_SECOND), 1);
    assert_eq!(serialize_time(10 * NANOS_PER_SECOND + 123), 10);
}

#[test]
fn mode_parses_case_insensitively() {
    assert_eq!(Mode::from_str("p2p").unwrap(), Mode::P2P);
    assert_eq!(Mode::from_str("P2P").unwrap(), Mode::P2P);
    assert_eq!(Mode::from_str("broadcast").unwrap(), Mode::Broadcast);
    assert_eq!(Mode::from_str("BROADCAST").unwrap(), Mode::Broadcast);
    assert_eq!(Mode::from_str("P2p").unwrap(), Mode::P2P);
    assert_eq!(Mode::from_str("BroadCast").unwrap(), Mode::Broadcast);
}

#[test]
fn mode_rejects_other_spellings() {
    assert!(Mode::from_str("").is_err());
    assert!(Mode::from_str("p2").is_err());
    assert!(Mode::from_str("p2pp").is_err());
    assert!(Mode::from_str("fanout").is_err());
    assert!(Mode::from_str(" p2p").is_err());
    assert!(Mode::from_str("broadcast ").is_err());
}

#[test]
fn mode_to_string_round_trips() {
    assert_eq!(Mode::P2P.to_string(), "p2p");
    assert_eq!(Mode::Broadcast.to_string(), "broadcast");
    assert_eq!(Mode::from_str(&Mode::P2P.to_string()).unwrap(), Mode::P2P);
    assert_eq!(Mode::from_str(&Mode::Broadcast.to_string()).unwrap(), Mode::Broadcast);
}

#[test]
fn mode_error_message_text() {
    let e = Mode::from_str("nope").unwrap_err();
    assert_eq!(e.message(), "invalid mode, must be `p2p` or `broadcast`");
}
