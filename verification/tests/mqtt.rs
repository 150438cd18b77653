use maratui::mqtt::{
    cup_counter_topic, parse_cup_counter, ConnectionStatus, Delivery, MqttEvent,
    MqttOutboundMessage, MqttReaction,
};

fn library_and_std(data: &[u8]) -> (Option<u64>, Option<u64>) {
    let expected = core::str::from_utf8(data)
        .ok()
        .map(str::trim)
        .and_then(|s| s.parse::<u64>().ok());
    (parse_cup_counter(data), expected)
}

#[test]
fn counters_are_decimal_numbers() {
    assert_eq!(parse_cup_counter(b"0"), Some(0));
    assert_eq!(parse_cup_counter(b"42"), Some(42));
    assert_eq!(parse_cup_counter(b"+42"), Some(42));
    assert_eq!(parse_cup_counter(b" \t42\r\n"), Some(42));
    assert_eq!(parse_cup_counter(b"0000000000000000000000000007"), Some(7));
    assert_eq!(parse_cup_counter(b"18446744073709551615"), Some(u64::MAX));
    assert_eq!(parse_cup_counter("\u{2003}12\u{3000}\u{a0}\u{85}".as_bytes()), Some(12));
}

#[test]
fn other_payloads_are_refused() {
    for data in [
        &b""[..], b" ", b"+", b"-1", b"-0", b"++1", b"1 2", b"1.0", b"0x10", b"twelve", b"1+",
        b"+ 1", b"18446744073709551616", b"99999999999999999999999", b"12\xff", b"\xc2", b"\xe2\x80",
        b"\xe2\x80\x8b7", b"7\x00", b"\x1f7",
    ] {
        assert_eq!(parse_cup_counter(data), None, "{:?}", data);
    }
}

#[test]
fn every_character_is_trimmed_or_not_as_white_space() {
    for code in 0..0x11_0000u32 {
        if let Some(c) = char::from_u32(code) {
            let (got, expected) = library_and_std(format!("{}5{}", c, c).as_bytes());
            assert_eq!(got, expected, "U+{:04X}", code);
        }
    }
}

#[test]
fn short_byte_strings_agree_with_std() {
    let alphabet = [
        b'0', b'9', b'5', b'+', b'-', b' ', b'\n', 0x0b, 0xc2, 0x85, 0xa0, 0xe1, 0x9a, 0x80, 0xe2,
        0x81, 0x9f, 0xe3, b'/', b':',
    ];
    let mut seed: u64 = 0x1234_5678_9abc;
    for _ in 0..400_000 {
        seed = seed.wrapping_mul(6_364_136_223_846_793_005).wrapping_add(1_442_695_040_888_963_407);
        let len = (seed >> 60) % 9;
        let mut bits = seed >> 3;
        let mut data: Vec<u8> = Vec::new();
        for _ in 0..len {
            data.push(alphabet[(bits % 20) as usize]);
            bits /= 20;
        }
        let (got, expected) = library_and_std(&data);
        assert_eq!(got, expected, "{:?}", data);
    }
}

#[test]
fn written_counts_are_read_back() {
    for count in [0, 9, 10, 99, 12_345, u64::MAX - 1, u64::MAX] {
        assert_eq!(parse_cup_counter(count.to_string().as_bytes()), Some(count));
    }
}

fn message(absolute: bool, suffix: &str, retain: bool) -> MqttOutboundMessage {
    MqttOutboundMessage {
        absolute,
        topic_suffix: suffix.to_owned(),
        payload: String::new(),
        retain,
    }
}

#[test]
fn topics_go_below_the_prefix_unless_absolute() {
    assert_eq!(cup_counter_topic("maratui"), "maratui/cup_counter");
    assert_eq!(message(false, "status", false).topic("maratui"), "maratui/status");
    assert_eq!(message(false, "", false).topic("a/b"), "a/b/");
    assert_eq!(
        message(true, "homeassistant/sensor/config", false).topic("maratui"),
        "homeassistant/sensor/config"
    );
}

#[test]
fn retained_messages_are_delivered_at_least_once() {
    assert_eq!(message(false, "status", true).delivery(), Delivery::AtLeastOnce);
    assert_eq!(message(false, "status", false).delivery(), Delivery::AtMostOnce);
}

fn received(topic: Option<&str>, data: &[u8]) -> MqttEvent {
    MqttEvent::Received { topic: topic.map(str::to_owned), data: data.to_vec() }
}

#[test]
fn events_are_answered() {
    let topic = cup_counter_topic("maratui");
    let answer = |event: MqttEvent| MqttReaction::to_event(&event, &topic);
    assert_eq!(answer(MqttEvent::Connected), MqttReaction::Status(ConnectionStatus::Connected));
    assert_eq!(answer(MqttEvent::Disconnected), MqttReaction::Status(ConnectionStatus::Connecting));
    assert_eq!(answer(received(Some("maratui/cup_counter"), b"17\n")), MqttReaction::Cups(17));
    assert_eq!(answer(received(Some("maratui/cup_counter"), b"many")), MqttReaction::BadCounter);
    assert_eq!(answer(received(Some("maratui/other"), b"17")), MqttReaction::Ignore);
    assert_eq!(answer(received(None, b"17")), MqttReaction::Ignore);
    assert_eq!(answer(MqttEvent::Other), MqttReaction::Ignore);
}

#[test]
fn a_new_connection_needs_a_subscription() {
    assert!(ConnectionStatus::Connected.needs_subscription());
    assert!(!ConnectionStatus::Connecting.needs_subscription());
    assert!(!ConnectionStatus::Disconnected.needs_subscription());
    assert!(!ConnectionStatus::Disabled.needs_subscription());
}
