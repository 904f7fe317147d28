use azure_iot_mqtt::message::{DirectMethodResponse, Message, MessageType, PropertyMap};
use azure_iot_mqtt::packets::{
    receive_start_packets, connect_packet, method_response_packet, ping_packet, property_update_packet,
    subscribe_packet, subscription_filters, twin_request_packet, unsubscribe_packet,
};
use azure_iot_mqtt::sas::{encode_resource_uri, generate_sas, try_generate_sas};
use azure_iot_mqtt::session::{
    after_delivery, cloud_to_device_message, message_from_pairs, connection_accepted, is_valid_topic_name,
    method_invocation, AfterDelivery, ConnectReply, IncomingPacket, MqttSession, ReceiveAction,
};
use azure_iot_mqtt::text::to_decimal;
use azure_iot_mqtt::topics::{
    cloud_bound_messages_topic, device_bound_messages_topic_filter,
    device_bound_messages_topic_prefix, method_response_topic, twin_get_topic, twin_update_topic,
    user_name, KEEP_ALIVE,
};
use azure_iot_mqtt::transports::{AmqpTransport, HttpTransport};
use mqtt::packet::{
    ConnectPacket, PublishPacket, QoSWithPacketIdentifier, SubscribePacket, UnsubscribePacket,
};
use base64::Engine;
use mqtt::{Encodable, QualityOfService, TopicFilter, TopicName};

fn encoded<P: Encodable>(p: &P) -> Vec<u8> {
    let mut buf = Vec::new();
    p.encode(&mut buf).unwrap();
    buf
}

fn publish_bytes(topic: &str, payload: &[u8]) -> Vec<u8> {
    encoded(&PublishPacket::new(
        TopicName::new(topic).unwrap(),
        QoSWithPacketIdentifier::Level0,
        payload,
    ))
}

#[test]
fn topics_have_the_hub_layout() {
    assert_eq!(method_response_topic(200, "17"), "$iothub/methods/res/200/?$rid=17");
    assert_eq!(method_response_topic(-404, "x"), "$iothub/methods/res/-404/?$rid=x");
    assert_eq!(twin_get_topic("0"), "$iothub/twin/GET/?$rid=0");
    assert_eq!(twin_update_topic("5"), "$iothub/twin/PATCH/properties/reported/?$rid=5");
    assert_eq!(device_bound_messages_topic_filter("dev"), "devices/dev/messages/devicebound/#");
    assert_eq!(device_bound_messages_topic_prefix("dev"), "devices/dev/messages/devicebound/");
    assert_eq!(cloud_bound_messages_topic("dev"), "devices/dev/messages/events/");
    assert_eq!(user_name("hub", "dev"), "hub/dev/?api-version=2018-06-30");
}

#[test]
fn decimal_text_matches_display() {
    for n in [0i64, 7, 10, -1, -10, 1586909077, i64::MAX, i64::MIN] {
        assert_eq!(to_decimal(n), n.to_string());
    }
}

#[test]
fn resource_uri_escapes_slashes_controls_and_non_ascii() {
    assert_eq!(
        encode_resource_uri("myiothub.azure-devices.net", "myfirstdevice"),
        "myiothub.azure-devices.net%2Fdevices%2Fmyfirstdevice"
    );
    assert_eq!(encode_resource_uri("h", "a b\t\u{7f}ä"), "h%2Fdevices%2Fa b%09%7F%C3%A4");
}

#[test]
fn sas_token_for_known_key() {
    assert_eq!(
        generate_sas("myiothub.azure-devices.net", "myfirstdevice", "c2VjcmV0", 1586909077),
        "SharedAccessSignature sr=myiothub.azure-devices.net%2Fdevices%2Fmyfirstdevice&sig=2nIUpNv2oD7nr25%2Bv%2FOOEdbN%2FVqpvU2lVqcpB1H4h6A%3D&se=1586909077"
    );
    assert_eq!(
        generate_sas("h", "d", "AAAA", -1),
        "SharedAccessSignature sr=h%2Fdevices%2Fd&sig=GWNqLsw07mMiUMC%2FQalJL3p2rjNnJ%2F5BISB2jHRhmyk%3D&se=-1"
    );
}

#[test]
fn sas_with_invalid_key_is_refused() {
    assert_eq!(try_generate_sas("h", "d", "not base64!", 1), None);
    assert_eq!(
        try_generate_sas("h", "d", "AAAA", -1),
        Some(generate_sas("h", "d", "AAAA", -1))
    );
}

#[test]
fn sas_refuses_non_canonical_base64_keys() {
    assert_eq!(try_generate_sas("h", "d", "AA", 1), None);
    assert_eq!(try_generate_sas("h", "d", "AAB=", 1), None);
    assert_eq!(try_generate_sas("h", "d", "AA==AA==", 1), None);
    assert_eq!(try_generate_sas("h", "d", "AAA=", 1), Some(generate_sas("h", "d", "AAA=", 1)));
    assert_eq!(try_generate_sas("h", "d", "", 1), Some(generate_sas("h", "d", "", 1)));
}

#[test]
fn sas_changes_with_expiry_and_key() {
    let a = generate_sas("h", "d", "AAAA", 1);
    let b = generate_sas("h", "d", "AAAA", 2);
    let c = generate_sas("h", "d", "AAAB", 1);
    assert_ne!(a, b);
    assert_ne!(a, c);
    assert!(a.ends_with("&se=1"));
}

#[test]
fn sas_token_reads_back_as_form_data() {
    let token = generate_sas("myiothub.azure-devices.net", "myfirstdevice", "c2VjcmV0", 1586909077);
    let fields = token.strip_prefix("SharedAccessSignature ").unwrap();
    let pairs: Vec<(String, String)> = serde_urlencoded::from_str(fields).unwrap();
    assert_eq!(pairs.len(), 3);
    assert_eq!(pairs[0], ("sr".to_string(), "myiothub.azure-devices.net/devices/myfirstdevice".to_string()));
    assert_eq!(pairs[1].0, "sig");
    assert_eq!(pairs[1].1, "2nIUpNv2oD7nr25+v/OOEdbN/VqpvU2lVqcpB1H4h6A=");
    assert_eq!(pairs[2], ("se".to_string(), "1586909077".to_string()));
}

#[test]
fn sas_signature_is_a_padded_hmac_tag() {
    for (key, expiry) in [("c2VjcmV0", 1586909077i64), ("AAAA", -1), ("AAAB", 0)] {
        let token = generate_sas("h", "d", key, expiry);
        let sig_start = token.find("&sig=").unwrap() + "&sig=".len();
        let sig_end = token.find("&se=").unwrap();
        let escaped = &token[sig_start..sig_end];
        assert!(escaped.ends_with("%3D"));
        assert!(!escaped[..escaped.len() - 3].ends_with("%3D"));
        let pairs: Vec<(String, String)> =
            serde_urlencoded::from_str(token.strip_prefix("SharedAccessSignature ").unwrap()).unwrap();
        let sig = &pairs[1].1;
        assert_eq!(sig.len(), 44);
        assert!(sig.ends_with('=') && !sig.ends_with("=="));
        let tag = base64::engine::general_purpose::STANDARD.decode(sig).unwrap();
        assert_eq!(tag.len(), 32);
    }
}

#[test]
fn property_map_sets_and_overrides() {
    let mut m = PropertyMap::new();
    assert_eq!(m.get("a"), None);
    m.insert("a".to_string(), "1".to_string());
    m.insert("b".to_string(), "2".to_string());
    m.insert("a".to_string(), "3".to_string());
    assert_eq!(m.get("a"), Some("3".to_string()));
    assert_eq!(m.get("b"), Some("2".to_string()));
    assert_eq!(m.to_pairs().len(), 2);
}

#[test]
fn message_new_has_no_properties() {
    let m = Message::new(vec![1, 2]);
    assert_eq!(m.body, vec![1, 2]);
    assert!(m.properties.to_pairs().is_empty());
    assert!(m.system_properties.to_pairs().is_empty());
}

#[test]
fn property_bag_splits_system_and_application_properties() {
    let m = cloud_to_device_message("%24.mid=42&color=red&%24.to=%2Fdevices%2Fd&color=blue&empty", vec![9]);
    assert_eq!(m.body, vec![9]);
    assert_eq!(m.system_properties.get("mid"), Some("42".to_string()));
    assert_eq!(m.system_properties.get("to"), Some("/devices/d".to_string()));
    assert_eq!(m.properties.get("color"), Some("blue".to_string()));
    assert_eq!(m.properties.get("empty"), Some("".to_string()));
    assert_eq!(m.properties.get("$.mid"), None);
    assert_eq!(m.system_properties.to_pairs().len(), 2);
    assert_eq!(m.properties.to_pairs().len(), 2);
}

#[test]
fn method_invocation_parts_of_topic() {
    let chars: Vec<char> = "reboot/?$rid=12".chars().collect();
    assert_eq!(method_invocation(&chars), Some(("reboot".to_string(), "12".to_string())));
    let chars: Vec<char> = "reboot/?$rid=12/extra".chars().collect();
    assert_eq!(method_invocation(&chars), Some(("reboot".to_string(), "12".to_string())));
    let chars: Vec<char> = "reboot".chars().collect();
    assert_eq!(method_invocation(&chars), None);
    let chars: Vec<char> = "reboot/?$r".chars().collect();
    assert_eq!(method_invocation(&chars), None);
    let chars: Vec<char> = "m/ab\u{e9}cd".chars().collect();
    assert_eq!(method_invocation(&chars), Some(("m".to_string(), "".to_string())));
    let chars: Vec<char> = "m/abcd\u{e9}x".chars().collect();
    assert_eq!(method_invocation(&chars), Some(("m".to_string(), "x".to_string())));
    let chars: Vec<char> = "m/abcde\u{e9}".chars().collect();
    assert_eq!(method_invocation(&chars), None);
}

fn session() -> MqttSession {
    MqttSession::new("dev")
}

#[test]
fn session_topics() {
    let s = session();
    assert_eq!(s.d2c_topic(), "devices/dev/messages/events/");
    assert_eq!(s.rx_topic_prefix(), "devices/dev/messages/devicebound/");
}

#[test]
fn receive_cloud_to_device_message() {
    let s = session();
    let action = s.on_packet(IncomingPacket::Publish {
        topic: "devices/dev/messages/devicebound/%24.mid=1&k=v".to_string(),
        payload: b"hello".to_vec(),
    });
    match action {
        ReceiveAction::Deliver(MessageType::C2DMessage(m)) => {
            assert_eq!(m.body, b"hello".to_vec());
            assert_eq!(m.system_properties.get("mid"), Some("1".to_string()));
            assert_eq!(m.properties.get("k"), Some("v".to_string()));
        }
        _ => panic!("expected a cloud-to-device message"),
    }
}

#[test]
fn receive_strips_repeated_prefix() {
    let s = session();
    let action = s.on_packet(IncomingPacket::Publish {
        topic: "devices/dev/messages/devicebound/devices/dev/messages/devicebound/a=b".to_string(),
        payload: vec![],
    });
    match action {
        ReceiveAction::Deliver(MessageType::C2DMessage(m)) => {
            assert_eq!(m.properties.get("a"), Some("b".to_string()));
        }
        _ => panic!("expected a cloud-to-device message"),
    }
}

#[test]
fn receive_desired_property_update() {
    let s = session();
    let action = s.on_packet(IncomingPacket::Publish {
        topic: "$iothub/twin/PATCH/properties/desired/?$version=3".to_string(),
        payload: b"{}".to_vec(),
    });
    match action {
        ReceiveAction::Deliver(MessageType::DesiredPropertyUpdate(m)) => {
            assert_eq!(m.body, b"{}".to_vec())
        }
        _ => panic!("expected a desired property update"),
    }
}

#[test]
fn receive_direct_method() {
    let s = session();
    let action = s.on_packet(IncomingPacket::Publish {
        topic: "$iothub/methods/POST/reboot/?$rid=7".to_string(),
        payload: b"{\"delay\":1}".to_vec(),
    });
    match action {
        ReceiveAction::Deliver(MessageType::DirectMethod(inv)) => {
            assert_eq!(inv.method_name, "reboot");
            assert_eq!(inv.request_id, "7");
            assert_eq!(inv.message.body, b"{\"delay\":1}".to_vec());
        }
        _ => panic!("expected a direct method"),
    }
}

#[test]
fn receive_malformed_direct_method_aborts() {
    let s = session();
    let action = s.on_packet(IncomingPacket::Publish {
        topic: "$iothub/methods/POST/reboot".to_string(),
        payload: vec![],
    });
    assert!(matches!(action, ReceiveAction::Abort));
}

#[test]
fn receive_passes_over_other_packets() {
    let s = session();
    assert!(matches!(s.on_packet(IncomingPacket::PingResponse), ReceiveAction::Continue));
    assert!(matches!(s.on_packet(IncomingPacket::Other), ReceiveAction::Continue));
    assert!(matches!(s.on_packet(IncomingPacket::Unreadable), ReceiveAction::Continue));
    let action = s.on_packet(IncomingPacket::Publish {
        topic: "$iothub/twin/res/200/?$rid=0".to_string(),
        payload: vec![],
    });
    assert!(matches!(action, ReceiveAction::Continue));
    let action = s.on_packet(IncomingPacket::Publish {
        topic: "devices/other/messages/devicebound/a=b".to_string(),
        payload: vec![],
    });
    assert!(matches!(action, ReceiveAction::Continue));
}

#[test]
fn receive_run_delivers_each_handled_publish_in_order() {
    let s = session();
    let packets = vec![
        IncomingPacket::Publish {
            topic: "devices/dev/messages/devicebound/k=1".to_string(),
            payload: vec![1],
        },
        IncomingPacket::PingResponse,
        IncomingPacket::Publish {
            topic: "$iothub/twin/PATCH/properties/desired/?$version=2".to_string(),
            payload: vec![2],
        },
        IncomingPacket::Publish { topic: "$iothub/twin/res/200/?$rid=0".to_string(), payload: vec![] },
        IncomingPacket::Publish {
            topic: "$iothub/methods/POST/reboot/?$rid=5".to_string(),
            payload: vec![3],
        },
        IncomingPacket::Other,
    ];
    let mut delivered = Vec::new();
    for packet in packets {
        match s.on_packet(packet) {
            ReceiveAction::Continue => {}
            ReceiveAction::Abort => panic!("run aborted"),
            ReceiveAction::Deliver(m) => {
                delivered.push(m);
                assert!(matches!(after_delivery(true), AfterDelivery::KeepReceiving));
            }
        }
    }
    assert_eq!(delivered.len(), 3);
    match &delivered[0] {
        MessageType::C2DMessage(m) => {
            assert_eq!(m.body, vec![1]);
            assert_eq!(m.properties.get("k"), Some("1".to_string()));
        }
        _ => panic!("first delivery is not the cloud-to-device message"),
    }
    match &delivered[1] {
        MessageType::DesiredPropertyUpdate(m) => assert_eq!(m.body, vec![2]),
        _ => panic!("second delivery is not the property update"),
    }
    match &delivered[2] {
        MessageType::DirectMethod(inv) => {
            assert_eq!(inv.method_name, "reboot");
            assert_eq!(inv.request_id, "5");
            assert_eq!(inv.message.body, vec![3]);
        }
        _ => panic!("third delivery is not the direct method"),
    }
}

#[test]
fn receive_starts_with_subscription_then_twin_request() {
    assert_eq!(receive_start_packets(), vec![subscribe_packet(), twin_request_packet("0")]);
    assert_eq!(receive_start_packets()[1], frame(0x30, mqtt_str("$iothub/twin/GET/?$rid=0")));
}

#[test]
fn message_from_pairs_splits_and_overrides() {
    let pairs = vec![
        ("$.mid".to_string(), "1".to_string()),
        ("a".to_string(), "x".to_string()),
        ("$.mid".to_string(), "2".to_string()),
        ("a".to_string(), "y".to_string()),
        ("$".to_string(), "z".to_string()),
    ];
    let m = message_from_pairs(&pairs, vec![7]);
    assert_eq!(m.body, vec![7]);
    assert_eq!(m.system_properties.get("mid"), Some("2".to_string()));
    assert_eq!(m.system_properties.to_pairs().len(), 1);
    assert_eq!(m.properties.get("a"), Some("y".to_string()));
    assert_eq!(m.properties.get("$"), Some("z".to_string()));
    assert_eq!(m.properties.to_pairs().len(), 2);
}

#[test]
fn loop_keeps_receiving_until_handler_is_gone() {
    assert!(matches!(after_delivery(true), AfterDelivery::KeepReceiving));
    assert!(matches!(after_delivery(false), AfterDelivery::Unsubscribe));
}

#[test]
fn connection_accepted_only_on_accepting_connack() {
    assert!(connection_accepted(&ConnectReply::Connack(0)));
    assert!(!connection_accepted(&ConnectReply::Connack(5)));
    assert!(!connection_accepted(&ConnectReply::Other));
    assert!(!connection_accepted(&ConnectReply::Unreadable));
}

#[test]
fn topic_name_validity() {
    assert!(is_valid_topic_name("devices/dev/messages/events/"));
    assert!(!is_valid_topic_name(""));
    assert!(!is_valid_topic_name("a/#"));
    assert!(!is_valid_topic_name("a/+/b"));
    assert!(!is_valid_topic_name(&"x".repeat(65536)));
    assert!(is_valid_topic_name(&"x".repeat(65535)));
}

#[test]
fn connect_packet_matches_mqtt_crate() {
    let mut expected = ConnectPacket::new("dev");
    expected.set_clean_session(false);
    expected.set_keep_alive(KEEP_ALIVE);
    expected.set_user_name(Some("hub/dev/?api-version=2018-06-30".to_string()));
    expected.set_password(Some("token".to_string()));
    let bytes = connect_packet("hub", "dev", "token");
    assert_eq!(bytes, encoded(&expected));
    assert_eq!(bytes[0], 0x10);
}

#[test]
fn ping_packet_bytes() {
    assert_eq!(ping_packet(), vec![0xc0, 0x00]);
}

#[test]
fn publish_packets_match_mqtt_crate() {
    let s = session();
    assert_eq!(s.message_packet(b"hi"), publish_bytes("devices/dev/messages/events/", b"hi"));
    assert_eq!(
        property_update_packet("3", "{\"a\":1}"),
        publish_bytes("$iothub/twin/PATCH/properties/reported/?$rid=3", b"{\"a\":1}")
    );
    assert_eq!(twin_request_packet("0"), publish_bytes("$iothub/twin/GET/?$rid=0", b""));
    let response = DirectMethodResponse { request_id: "9".to_string(), status: 200, body: b"ok".to_vec() };
    assert_eq!(
        method_response_packet(&response),
        publish_bytes("$iothub/methods/res/200/?$rid=9", b"ok")
    );
}

fn remaining_length(mut n: usize) -> Vec<u8> {
    let mut out = Vec::new();
    loop {
        let low = (n % 128) as u8;
        n /= 128;
        if n == 0 {
            out.push(low);
            return out;
        }
        out.push(low | 0x80);
    }
}

fn frame(first: u8, rest: Vec<u8>) -> Vec<u8> {
    let mut out = vec![first];
    out.extend(remaining_length(rest.len()));
    out.extend(rest);
    out
}

fn mqtt_str(s: &str) -> Vec<u8> {
    let mut out = vec![(s.len() / 256) as u8, (s.len() % 256) as u8];
    out.extend_from_slice(s.as_bytes());
    out
}

#[test]
fn remaining_length_field_bytes() {
    assert_eq!(remaining_length(0), vec![0x00]);
    assert_eq!(remaining_length(127), vec![0x7f]);
    assert_eq!(remaining_length(128), vec![0x80, 0x01]);
    assert_eq!(remaining_length(16_383), vec![0xff, 0x7f]);
    assert_eq!(remaining_length(16_384), vec![0x80, 0x80, 0x01]);
}

#[test]
fn publish_packets_have_mqtt_layout() {
    assert_eq!(twin_request_packet("0"), frame(0x30, mqtt_str("$iothub/twin/GET/?$rid=0")));
    let body = "x".repeat(300);
    let mut rest = mqtt_str("$iothub/twin/PATCH/properties/reported/?$rid=7");
    rest.extend_from_slice(body.as_bytes());
    let packet = property_update_packet("7", &body);
    assert_eq!(packet, frame(0x30, rest));
    assert_eq!(packet[1] & 0x80, 0x80);
}

#[test]
fn connect_packet_has_mqtt_layout() {
    let mut rest = mqtt_str("MQTT");
    rest.extend([4u8, 0xc0, (KEEP_ALIVE / 256) as u8, (KEEP_ALIVE % 256) as u8]);
    rest.extend(mqtt_str("dev"));
    rest.extend(mqtt_str("hub/dev/?api-version=2018-06-30"));
    rest.extend(mqtt_str("token"));
    assert_eq!(connect_packet("hub", "dev", "token"), frame(0x10, rest));
}

#[test]
fn subscription_packets_have_mqtt_layout() {
    let mut sub = vec![0u8, 10];
    let mut unsub = vec![0u8, 10];
    for f in subscription_filters() {
        sub.extend(mqtt_str(&f));
        sub.push(0);
        unsub.extend(mqtt_str(&f));
    }
    assert_eq!(subscribe_packet(), frame(0x82, sub));
    assert_eq!(unsubscribe_packet(), frame(0xa2, unsub));
}

#[test]
fn subscription_packets_match_mqtt_crate() {
    let filters = subscription_filters();
    assert_eq!(
        filters,
        vec![
            "$iothub/methods/POST/#".to_string(),
            "devices/FirstDevice/messages/devicebound/#".to_string(),
            "$iothub/twin/res/#".to_string(),
            "$iothub/twin/PATCH/properties/desired/#".to_string(),
        ]
    );
    let subs: Vec<(TopicFilter, QualityOfService)> = filters
        .iter()
        .map(|f| (TopicFilter::new(f.as_str()).unwrap(), QualityOfService::Level0))
        .collect();
    assert_eq!(subscribe_packet(), encoded(&SubscribePacket::new(10, subs)));
    let unsubs: Vec<TopicFilter> =
        filters.iter().map(|f| TopicFilter::new(f.as_str()).unwrap()).collect();
    assert_eq!(unsubscribe_packet(), encoded(&UnsubscribePacket::new(10, unsubs)));
}

#[test]
fn http_transport_addresses_events() {
    let t = HttpTransport::new("myhub".to_string(), "dev".to_string(), "sas".to_string());
    assert_eq!(
        t.events_uri(),
        "https://myhub.azure-devices.net/devices/dev/messages/events?api-version=2019-03-30"
    );
    assert_eq!(t.content_type(), "application/json");
    assert_eq!(t.sas(), "sas");
    let _ = AmqpTransport::new("h".to_string(), "d".to_string(), "s".to_string());
}
