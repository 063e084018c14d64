use minqtt::decode::{decode_ack, decode_connack, decode_packet, decode_pingresp, decode_suback,
    IncomingPacket};
use minqtt::error::MqttError;
use minqtt::packet::{encode_disconnect, encode_puback, encode_pubcomp, encode_pubrec,
    encode_pubrel, encode_subscribe, MqttConnect, MqttPingReq, MqttPublish, MqttSubscribe,
    PacketType, SubscribeFilter};
use minqtt::varint::{decode_varint, encode_varint, varint_incomplete, VARINT_MAX};

#[test]
fn varint_encodes_boundary_values() {
    assert_eq!(encode_varint(0).unwrap(), vec![0x00]);
    assert_eq!(encode_varint(127).unwrap(), vec![0x7F]);
    assert_eq!(encode_varint(128).unwrap(), vec![0x80, 0x01]);
    assert_eq!(encode_varint(16383).unwrap(), vec![0xFF, 0x7F]);
    assert_eq!(encode_varint(16384).unwrap(), vec![0x80, 0x80, 0x01]);
    assert_eq!(encode_varint(268435455).unwrap(), vec![0xFF, 0xFF, 0xFF, 0x7F]);
}

#[test]
fn varint_rejects_values_over_the_cap() {
    assert_eq!(encode_varint(268435456), Err(MqttError::EncodingError));
    assert_eq!(encode_varint(u32::MAX), Err(MqttError::EncodingError));
    assert_eq!(VARINT_MAX, 268435455);
}

#[test]
fn varint_round_trips() {
    for v in [0u32, 1, 127, 128, 129, 16383, 16384, 42424, 2097151, 2097152, 268435455] {
        let encoded = encode_varint(v).unwrap();
        let (value, consumed) = decode_varint(&encoded).unwrap();
        assert_eq!(value, v);
        assert_eq!(consumed, encoded.len());
    }
}

#[test]
fn varint_decode_stops_at_terminator() {
    let (value, consumed) = decode_varint(&[0x80, 0x01, 0xFF, 0xFF]).unwrap();
    assert_eq!(value, 128);
    assert_eq!(consumed, 2);
}

#[test]
fn varint_decode_rejects_five_continuations_and_truncation() {
    assert_eq!(decode_varint(&[0x80, 0x80, 0x80, 0x80]), Err(MqttError::MalformedVarInt));
    assert_eq!(decode_varint(&[0x80]), Err(MqttError::MalformedVarInt));
    assert_eq!(decode_varint(&[]), Err(MqttError::MalformedVarInt));
}

#[test]
fn varint_incomplete_tracks_continuation_bytes() {
    assert!(varint_incomplete(&[]));
    assert!(varint_incomplete(&[0x80]));
    assert!(varint_incomplete(&[0x80, 0x80, 0x80]));
    assert!(!varint_incomplete(&[0x7F]));
    assert!(!varint_incomplete(&[0x80, 0x01]));
    assert!(!varint_incomplete(&[0x80, 0x80, 0x80, 0x80]));
}

#[test]
fn connect_encodes_byte_exact() {
    let packet = MqttConnect::new("abc").encode().unwrap();
    assert_eq!(
        packet,
        vec![
            0x10, 0x0F, 0x00, 0x04, 0x4D, 0x51, 0x54, 0x54, 0x04, 0x02, 0x00, 0x3C, 0x00, 0x03,
            0x61, 0x62, 0x63,
        ],
    );
}

#[test]
fn connect_encodes_options() {
    let packet = MqttConnect::with_options("id", false, 30).encode().unwrap();
    assert_eq!(
        packet,
        vec![0x10, 0x0E, 0x00, 0x04, 0x4D, 0x51, 0x54, 0x54, 0x04, 0x00, 0x00, 0x1E, 0x00, 0x02,
            0x69, 0x64],
    );
}

#[test]
fn connect_rejects_oversized_client_id() {
    let huge = "a".repeat(65536);
    let opts = MqttConnect::new(&huge);
    assert_eq!(opts.encode(), Err(MqttError::InvalidClientId));
}

#[test]
fn publish_round_trips_qos0() {
    let msg = MqttPublish::new("a/b".to_string(), vec![0x01, 0x02], false, 0, false);
    let packet = msg.encode().unwrap();
    let first_byte = packet[0];
    let (remaining, consumed) = decode_varint(&packet[1..]).unwrap();
    let body = &packet[1 + consumed..];
    assert_eq!(body.len(), remaining as usize);
    let decoded = MqttPublish::decode(first_byte, body).unwrap();
    assert_eq!(decoded.topic, "a/b");
    assert_eq!(decoded.payload, vec![0x01, 0x02]);
    assert_eq!(decoded.qos, 0);
    assert!(!decoded.dup);
    assert!(!decoded.retain);
    assert_eq!(decoded.packet_id, None);
}

#[test]
fn publish_round_trips_qos1_with_identifier() {
    let msg = MqttPublish {
        topic: "sensors/one".to_string(),
        payload: vec![9, 8, 7],
        dup: true,
        qos: 1,
        retain: true,
        packet_id: Some(513),
    };
    let packet = msg.encode().unwrap();
    let (_, consumed) = decode_varint(&packet[1..]).unwrap();
    let decoded = MqttPublish::decode(packet[0], &packet[1 + consumed..]).unwrap();
    assert_eq!(decoded.topic, "sensors/one");
    assert_eq!(decoded.payload, vec![9, 8, 7]);
    assert_eq!(decoded.qos, 1);
    assert!(decoded.dup);
    assert!(decoded.retain);
    assert_eq!(decoded.packet_id, Some(513));
}

#[test]
fn publish_payload_is_binary_safe() {
    let msg = MqttPublish::new("t".to_string(), vec![0xFF, 0x00, 0x80], false, 0, false);
    let packet = msg.encode().unwrap();
    let (_, consumed) = decode_varint(&packet[1..]).unwrap();
    let decoded = MqttPublish::decode(packet[0], &packet[1 + consumed..]).unwrap();
    assert_eq!(decoded.payload, vec![0xFF, 0x00, 0x80]);
}

#[test]
fn publish_rejects_bad_topics() {
    let empty = MqttPublish::new(String::new(), vec![1], false, 0, false);
    assert_eq!(empty.encode(), Err(MqttError::InvalidTopic));
    let hash = MqttPublish::new("a/#".to_string(), vec![1], false, 0, false);
    assert_eq!(hash.encode(), Err(MqttError::InvalidTopic));
    let plus = MqttPublish::new("a/+/b".to_string(), vec![1], false, 0, false);
    assert_eq!(plus.encode(), Err(MqttError::InvalidTopic));
}

#[test]
fn publish_decode_reads_flags_from_fixed_header() {
    // type 3, DUP set, QoS 1, RETAIN set: 0011 1011
    let body = [0x00, 0x01, 0x74, 0x00, 0x09, 0xAB];
    let decoded = MqttPublish::decode(0x3B, &body).unwrap();
    assert!(decoded.dup);
    assert!(decoded.retain);
    assert_eq!(decoded.qos, 1);
    assert_eq!(decoded.topic, "t");
    assert_eq!(decoded.packet_id, Some(9));
    assert_eq!(decoded.payload, vec![0xAB]);
}

#[test]
fn publish_decode_rejects_reserved_qos() {
    assert_eq!(
        MqttPublish::decode(0x36, &[0x00, 0x01, 0x74]),
        Err(MqttError::MalformedPublish),
    );
}

#[test]
fn publish_decode_rejects_truncated_bodies() {
    assert_eq!(MqttPublish::decode(0x30, &[0x00]), Err(MqttError::MalformedPublish));
    assert_eq!(MqttPublish::decode(0x30, &[0x00, 0x05, 0x61]), Err(MqttError::MalformedPublish));
    // QoS 1 announces a packet identifier that is not there
    assert_eq!(MqttPublish::decode(0x32, &[0x00, 0x01, 0x74]), Err(MqttError::MalformedPublish));
}

#[test]
fn publish_decode_rejects_invalid_utf8_topics() {
    assert_eq!(MqttPublish::decode(0x30, &[0x00, 0x01, 0xFF]), Err(MqttError::InvalidUtf8));
}

#[test]
fn publish_decode_handles_multibyte_topics() {
    // a topic of one two-byte character: C3 A9 is e-acute
    let decoded = MqttPublish::decode(0x30, &[0x00, 0x02, 0xC3, 0xA9, 0x01]).unwrap();
    assert_eq!(decoded.topic, "\u{e9}");
    assert_eq!(decoded.payload, vec![0x01]);
}

#[test]
fn subscribe_encodes_single_filter() {
    let packet = MqttSubscribe::new("topic".to_string(), 7).encode().unwrap();
    assert_eq!(
        packet,
        vec![0x82, 0x0A, 0x00, 0x07, 0x00, 0x05, 0x74, 0x6F, 0x70, 0x69, 0x63, 0x00],
    );
}

#[test]
fn subscribe_encodes_filter_list_in_order() {
    let filters = vec![
        SubscribeFilter { topic_filter: "a".to_string(), requested_qos: 1 },
        SubscribeFilter { topic_filter: "b/#".to_string(), requested_qos: 0 },
    ];
    let packet = encode_subscribe(9, &filters).unwrap();
    assert_eq!(
        packet,
        vec![
            0x82, 0x0C, 0x00, 0x09, 0x00, 0x01, 0x61, 0x01, 0x00, 0x03, 0x62, 0x2F, 0x23, 0x00,
        ],
    );
}

#[test]
fn pingreq_and_disconnect_are_two_bytes() {
    assert_eq!(MqttPingReq {}.encode(), vec![0xC0, 0x00]);
    assert_eq!(encode_disconnect(), vec![0xE0, 0x00]);
}

#[test]
fn ack_packets_encode_exactly() {
    assert_eq!(encode_puback(9), vec![0x40, 0x02, 0x00, 0x09]);
    assert_eq!(encode_pubrec(256), vec![0x50, 0x02, 0x01, 0x00]);
    assert_eq!(encode_pubrel(65535), vec![0x62, 0x02, 0xFF, 0xFF]);
    assert_eq!(encode_pubcomp(1), vec![0x70, 0x02, 0x00, 0x01]);
}

#[test]
fn connack_decodes_accept_and_reject_codes() {
    let ok = decode_connack(&[0x00, 0x00]).unwrap();
    assert!(!ok.session_present);
    assert_eq!(ok.return_code, 0);
    let rejected = decode_connack(&[0x01, 0x05]).unwrap();
    assert!(rejected.session_present);
    assert_eq!(rejected.return_code, 5);
}

#[test]
fn connack_rejects_wrong_length_and_unknown_codes() {
    assert_eq!(decode_connack(&[0x00]), Err(MqttError::MalformedConnAck));
    assert_eq!(decode_connack(&[0x00, 0x00, 0x00]), Err(MqttError::MalformedConnAck));
    assert_eq!(decode_connack(&[0x00, 0x06]), Err(MqttError::MalformedConnAck));
}

#[test]
fn ack_decodes_big_endian_identifier() {
    assert_eq!(decode_ack(&[0x01, 0x02]).unwrap(), 258);
    assert_eq!(decode_ack(&[0x07]), Err(MqttError::MalformedAck));
    assert_eq!(decode_ack(&[0, 0, 0]), Err(MqttError::MalformedAck));
}

#[test]
fn suback_decodes_results_in_order() {
    let suback = decode_suback(&[0x00, 0x07, 0x00, 0x01]).unwrap();
    assert_eq!(suback.packet_id, 7);
    assert_eq!(suback.granted, vec![0x00, 0x01]);
    let failure = decode_suback(&[0x00, 0x07, 0x02, 0x80]).unwrap();
    assert_eq!(failure.granted, vec![0x02, 0x80]);
}

#[test]
fn suback_rejects_bad_bodies() {
    assert_eq!(decode_suback(&[0x00]), Err(MqttError::MalformedAck));
    assert_eq!(decode_suback(&[0x00, 0x07, 0x03]), Err(MqttError::MalformedAck));
}

#[test]
fn pingresp_body_must_be_empty() {
    assert!(decode_pingresp(&[]).is_ok());
    assert_eq!(decode_pingresp(&[0x00]), Err(MqttError::MalformedPingResp));
}

#[test]
fn decode_packet_dispatches_on_type_code() {
    assert!(matches!(
        decode_packet(0x20, &[0x00, 0x00]).unwrap(),
        IncomingPacket::ConnAck(_)
    ));
    assert!(matches!(
        decode_packet(0x30, &[0x00, 0x01, 0x74]).unwrap(),
        IncomingPacket::Publish(_)
    ));
    assert!(matches!(decode_packet(0x40, &[0x00, 0x09]).unwrap(), IncomingPacket::PubAck(9)));
    assert!(matches!(decode_packet(0x50, &[0x00, 0x09]).unwrap(), IncomingPacket::PubRec(9)));
    assert!(matches!(decode_packet(0x62, &[0x00, 0x09]).unwrap(), IncomingPacket::PubRel(9)));
    assert!(matches!(decode_packet(0x70, &[0x00, 0x09]).unwrap(), IncomingPacket::PubComp(9)));
    assert!(matches!(
        decode_packet(0x90, &[0x00, 0x07, 0x00]).unwrap(),
        IncomingPacket::SubAck(_)
    ));
    assert!(matches!(decode_packet(0xD0, &[]).unwrap(), IncomingPacket::PingResp));
}

#[test]
fn decode_packet_passes_unexpected_codes_through() {
    assert!(matches!(decode_packet(0x10, &[0xAA]).unwrap(), IncomingPacket::Unknown(1)));
    assert!(matches!(decode_packet(0xC0, &[]).unwrap(), IncomingPacket::Unknown(12)));
    assert!(matches!(decode_packet(0xE0, &[]).unwrap(), IncomingPacket::Unknown(14)));
    assert!(matches!(decode_packet(0xF0, &[1, 2, 3]).unwrap(), IncomingPacket::Unknown(15)));
    assert!(matches!(decode_packet(0x00, &[]).unwrap(), IncomingPacket::Unknown(0)));
}

#[test]
fn decode_packet_propagates_decoder_errors() {
    assert_eq!(decode_packet(0x20, &[0x00]), Err(MqttError::MalformedConnAck));
    assert_eq!(decode_packet(0xD0, &[0x00]), Err(MqttError::MalformedPingResp));
    assert_eq!(decode_packet(0x40, &[0x00]), Err(MqttError::MalformedAck));
}

#[test]
fn packet_type_codes_round_trip() {
    let types = [
        PacketType::Connect,
        PacketType::ConnAck,
        PacketType::Publish,
        PacketType::PubAck,
        PacketType::PubRec,
        PacketType::PubRel,
        PacketType::PubComp,
        PacketType::Subscribe,
        PacketType::SubAck,
        PacketType::Unsubscribe,
        PacketType::UnsubAck,
        PacketType::PingReq,
        PacketType::PingResp,
        PacketType::Disconnect,
    ];
    for t in types {
        assert_eq!(PacketType::from_code(t.code()), Some(t));
    }
    assert_eq!(PacketType::from_code(0), None);
    assert_eq!(PacketType::from_code(15), None);
}
