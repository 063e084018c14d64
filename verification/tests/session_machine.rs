use minqtt::decode::ConnAck;
use minqtt::error::{DisconnectReason, MqttError};
use minqtt::packet::{MqttConnect, SubscribeFilter};
use minqtt::session::{AckKind, AckTimeoutAction, Phase, SessionEvent, SessionState, TickAction};

fn connected_session() -> SessionState {
    let mut s = SessionState::new(MqttConnect::new("client"));
    s.connect(0).unwrap();
    let ev = s.on_connack(ConnAck { session_present: false, return_code: 0 }, 0);
    assert!(matches!(ev, SessionEvent::Connected));
    assert_eq!(s.phase, Phase::Connected);
    s
}

#[test]
fn connect_emits_packet_and_enters_connecting() {
    let mut s = SessionState::new(MqttConnect::new("abc"));
    assert_eq!(s.phase, Phase::Disconnected);
    let packet = s.connect(5).unwrap();
    assert_eq!(
        packet,
        vec![
            0x10, 0x0F, 0x00, 0x04, 0x4D, 0x51, 0x54, 0x54, 0x04, 0x02, 0x00, 0x3C, 0x00, 0x03,
            0x61, 0x62, 0x63,
        ],
    );
    assert_eq!(s.phase, Phase::Connecting);
    assert_eq!(s.last_activity, 5);
}

#[test]
fn connack_rejection_reports_the_code() {
    let mut s = SessionState::new(MqttConnect::new("abc"));
    s.connect(0).unwrap();
    let ev = s.on_connack(ConnAck { session_present: false, return_code: 4 }, 1);
    assert!(matches!(ev, SessionEvent::ConnectFailed(4)));
    assert_eq!(s.phase, Phase::Disconnected);
}

#[test]
fn connack_outside_connecting_is_a_protocol_violation() {
    let mut s = connected_session();
    let ev = s.on_connack(ConnAck { session_present: false, return_code: 0 }, 9);
    assert!(matches!(ev, SessionEvent::Disconnected(DisconnectReason::ProtocolViolation)));
    assert_eq!(s.phase, Phase::Disconnected);
}

#[test]
fn connecting_times_out_without_connack() {
    let mut s = SessionState::new(MqttConnect::new("abc"));
    s.connect(0).unwrap();
    assert!(matches!(s.tick(59_999), TickAction::Idle));
    let action = s.tick(60_000);
    assert!(matches!(
        action,
        TickAction::SessionExpired(DisconnectReason::ConnectTimeout)
    ));
    assert_eq!(s.phase, Phase::Disconnected);
}

#[test]
fn suback_resolves_requests_in_request_order() {
    let mut s = connected_session();
    s.next_packet_id = 7;
    let filters = vec![
        SubscribeFilter { topic_filter: "first".to_string(), requested_qos: 0 },
        SubscribeFilter { topic_filter: "second".to_string(), requested_qos: 1 },
    ];
    let packet = s.subscribe(&filters, 1).unwrap();
    // one identifier for the whole request, big-endian 7 after the length
    assert_eq!(packet[2], 0x00);
    assert_eq!(packet[3], 0x07);
    assert_eq!(s.pending.len(), 1);
    assert_eq!(s.pending[0].packet_id, 7);
    assert_eq!(s.pending[0].kind, AckKind::SubAck);

    let events = s.on_suback(7, &vec![0x00, 0x01]);
    assert_eq!(events.len(), 2);
    match &events[0] {
        SessionEvent::Subscribed { topic, granted_qos } => {
            assert_eq!(topic, "first");
            assert_eq!(*granted_qos, 0);
        },
        _ => panic!("first filter should resolve first"),
    }
    match &events[1] {
        SessionEvent::Subscribed { topic, granted_qos } => {
            assert_eq!(topic, "second");
            assert_eq!(*granted_qos, 1);
        },
        _ => panic!("second filter should resolve second"),
    }
    assert_eq!(s.pending.len(), 0);
}

#[test]
fn suback_failure_byte_resolves_to_failed_subscription() {
    let mut s = connected_session();
    s.next_packet_id = 7;
    let filters = vec![
        SubscribeFilter { topic_filter: "good".to_string(), requested_qos: 0 },
        SubscribeFilter { topic_filter: "bad".to_string(), requested_qos: 2 },
    ];
    s.subscribe(&filters, 1).unwrap();
    let events = s.on_suback(7, &vec![0x00, 0x80]);
    assert!(matches!(&events[0], SessionEvent::Subscribed { .. }));
    match &events[1] {
        SessionEvent::SubscribeFailed { topic } => assert_eq!(topic, "bad"),
        _ => panic!("0x80 must resolve to a failed subscription"),
    }
}

#[test]
fn suback_with_unknown_identifier_is_ignored() {
    let mut s = connected_session();
    let filters = vec![SubscribeFilter { topic_filter: "t".to_string(), requested_qos: 0 }];
    s.subscribe(&filters, 1).unwrap();
    let events = s.on_suback(999, &vec![0x00]);
    assert!(events.is_empty());
    assert_eq!(s.pending.len(), 1);
}

#[test]
fn suback_result_count_mismatch_is_fatal() {
    let mut s = connected_session();
    s.next_packet_id = 7;
    let filters = vec![
        SubscribeFilter { topic_filter: "a".to_string(), requested_qos: 0 },
        SubscribeFilter { topic_filter: "b".to_string(), requested_qos: 0 },
    ];
    s.subscribe(&filters, 1).unwrap();
    let events = s.on_suback(7, &vec![0x00]);
    assert_eq!(events.len(), 1);
    assert!(matches!(
        events[0],
        SessionEvent::Disconnected(DisconnectReason::ProtocolViolation)
    ));
    assert_eq!(s.phase, Phase::Disconnected);
    assert_eq!(s.pending.len(), 0);
}

#[test]
fn keep_alive_sends_pingreq_then_expires() {
    let mut s = connected_session();
    // keep-alive 60 s -> 60000 ms interval
    assert!(matches!(s.tick(59_999), TickAction::Idle));
    match s.tick(60_000) {
        TickAction::SendPingReq(bytes) => assert_eq!(bytes, vec![0xC0, 0x00]),
        _ => panic!("an idle interval must emit PINGREQ"),
    }
    // a pending entry to observe the teardown
    s.publish("t".to_string(), vec![1], 1, false, 60_000).unwrap();
    assert_eq!(s.pending.len(), 1);
    assert!(matches!(s.tick(119_999), TickAction::Idle));
    let action = s.tick(120_000);
    assert!(matches!(
        action,
        TickAction::SessionExpired(DisconnectReason::KeepAliveTimeout)
    ));
    assert_eq!(s.phase, Phase::Disconnected);
    assert_eq!(s.pending.len(), 0);
}

#[test]
fn pingresp_resets_the_keep_alive_clock() {
    let mut s = connected_session();
    match s.tick(60_000) {
        TickAction::SendPingReq(_) => {},
        _ => panic!("an idle interval must emit PINGREQ"),
    }
    s.on_pingresp(60_500);
    assert!(matches!(s.tick(120_000), TickAction::Idle));
    match s.tick(120_500) {
        TickAction::SendPingReq(_) => {},
        _ => panic!("the clock must restart from the PINGRESP"),
    }
}

#[test]
fn publish_qos0_is_fire_and_forget() {
    let mut s = connected_session();
    let packet = s.publish("a/b".to_string(), vec![1, 2], 0, false, 3).unwrap();
    assert_eq!(packet[0], 0x30);
    assert_eq!(s.pending.len(), 0);
    assert_eq!(s.next_packet_id, 1);
}

#[test]
fn publish_qos1_records_pending_puback() {
    let mut s = connected_session();
    let packet = s.publish("a".to_string(), vec![1], 1, false, 3).unwrap();
    assert_eq!(packet[0], 0x32);
    // variable header: topic length 1, "a", then packet identifier 1
    assert_eq!(&packet[2..], &[0x00, 0x01, 0x61, 0x00, 0x01, 0x01]);
    assert_eq!(s.pending.len(), 1);
    assert_eq!(s.pending[0].packet_id, 1);
    assert_eq!(s.pending[0].kind, AckKind::PubAck);
    assert_eq!(s.next_packet_id, 2);
}

#[test]
fn publish_rejects_wildcard_topics_without_state_change() {
    let mut s = connected_session();
    assert_eq!(
        s.publish("a/#".to_string(), vec![], 1, false, 3),
        Err(MqttError::InvalidTopic),
    );
    assert_eq!(s.pending.len(), 0);
    assert_eq!(s.next_packet_id, 1);
}

#[test]
fn puback_clears_once_and_is_idempotent() {
    let mut s = connected_session();
    s.publish("a".to_string(), vec![1], 1, false, 3).unwrap();
    assert_eq!(s.pending.len(), 1);
    s.on_puback(1);
    assert_eq!(s.pending.len(), 0);
    let phase = s.phase;
    let next = s.next_packet_id;
    let last = s.last_activity;
    s.on_puback(1);
    assert_eq!(s.pending.len(), 0);
    assert_eq!(s.phase, phase);
    assert_eq!(s.next_packet_id, next);
    assert_eq!(s.last_activity, last);
}

#[test]
fn qos2_outbound_walks_pubrec_pubrel_pubcomp() {
    let mut s = connected_session();
    s.publish("q".to_string(), vec![5], 2, false, 3).unwrap();
    assert_eq!(s.pending[0].kind, AckKind::PubRec);
    let pubrel = s.on_pubrec(1, 4).unwrap();
    assert_eq!(pubrel, vec![0x62, 0x02, 0x00, 0x01]);
    assert_eq!(s.pending.len(), 1);
    assert_eq!(s.pending[0].kind, AckKind::PubComp);
    assert_eq!(s.on_pubrec(1, 5), None);
    s.on_pubcomp(1);
    assert_eq!(s.pending.len(), 0);
    s.on_pubcomp(1);
    assert_eq!(s.pending.len(), 0);
}

#[test]
fn inbound_qos1_publish_is_acknowledged() {
    let mut s = connected_session();
    let msg = minqtt::packet::MqttPublish {
        topic: "in".to_string(),
        payload: vec![1],
        dup: false,
        qos: 1,
        retain: false,
        packet_id: Some(9),
    };
    let (reply, event) = s.on_publish(msg, 4);
    assert_eq!(reply.unwrap(), vec![0x40, 0x02, 0x00, 0x09]);
    match event {
        SessionEvent::MessageReceived(m) => {
            assert_eq!(m.topic, "in");
            assert_eq!(m.payload, vec![1]);
        },
        _ => panic!("an inbound publish must be delivered"),
    }
}

#[test]
fn inbound_qos2_publish_tracks_pubrel() {
    let mut s = connected_session();
    let msg = minqtt::packet::MqttPublish {
        topic: "in".to_string(),
        payload: vec![],
        dup: false,
        qos: 2,
        retain: false,
        packet_id: Some(5),
    };
    let (reply, _) = s.on_publish(msg, 4);
    assert_eq!(reply.unwrap(), vec![0x50, 0x02, 0x00, 0x05]);
    assert_eq!(s.incoming_qos2, vec![5]);
    let pubcomp = s.on_pubrel(5, 6);
    assert_eq!(pubcomp, vec![0x70, 0x02, 0x00, 0x05]);
    assert!(s.incoming_qos2.is_empty());
    // a retransmitted PUBREL still gets its PUBCOMP
    let again = s.on_pubrel(5, 7);
    assert_eq!(again, vec![0x70, 0x02, 0x00, 0x05]);
}

#[test]
fn packet_identifiers_skip_outstanding_and_wrap() {
    let mut s = connected_session();
    s.publish("a".to_string(), vec![], 1, false, 1).unwrap();
    s.publish("a".to_string(), vec![], 1, false, 1).unwrap();
    assert_eq!(s.pending[0].packet_id, 1);
    assert_eq!(s.pending[1].packet_id, 2);
    // identifier 1 is acknowledged; the counter keeps moving forward
    s.on_puback(1);
    s.publish("a".to_string(), vec![], 1, false, 1).unwrap();
    assert_eq!(s.pending[1].packet_id, 3);
    // wrap: the counter passes 65535 back to 1, skipping outstanding 2 and 3
    s.next_packet_id = 65535;
    s.publish("a".to_string(), vec![], 1, false, 1).unwrap();
    assert_eq!(s.pending[2].packet_id, 65535);
    assert_eq!(s.next_packet_id, 1);
    s.publish("a".to_string(), vec![], 1, false, 1).unwrap();
    assert_eq!(s.pending[3].packet_id, 1);
    s.publish("a".to_string(), vec![], 1, false, 1).unwrap();
    assert_eq!(s.pending[4].packet_id, 4);
}

#[test]
fn unanswered_publish_retransmits_with_dup_then_times_out() {
    let mut s = connected_session();
    let sent = s.publish("a".to_string(), vec![7], 1, false, 0).unwrap();
    assert!(matches!(s.check_ack_timeout(59_999), AckTimeoutAction::Idle));
    match s.check_ack_timeout(60_000) {
        AckTimeoutAction::Retransmit(bytes) => {
            assert_eq!(bytes[0], sent[0] | 0x08);
            assert_eq!(&bytes[1..], &sent[1..]);
        },
        _ => panic!("an overdue publish must be retransmitted once"),
    }
    assert_eq!(s.pending.len(), 1);
    assert!(matches!(s.check_ack_timeout(60_001), AckTimeoutAction::Idle));
    match s.check_ack_timeout(120_000) {
        AckTimeoutAction::TimedOut(SessionEvent::PublishTimedOut { packet_id }) => {
            assert_eq!(packet_id, 1);
        },
        _ => panic!("a publish out of retries must time out"),
    }
    assert_eq!(s.pending.len(), 0);
}

#[test]
fn unanswered_subscribe_retries_once_then_times_out() {
    let mut s = connected_session();
    let filters = vec![SubscribeFilter { topic_filter: "t".to_string(), requested_qos: 0 }];
    let sent = s.subscribe(&filters, 0).unwrap();
    match s.check_ack_timeout(60_000) {
        AckTimeoutAction::Retransmit(bytes) => assert_eq!(bytes, sent),
        _ => panic!("an overdue subscribe must be retried once"),
    }
    match s.check_ack_timeout(120_000) {
        AckTimeoutAction::TimedOut(SessionEvent::SubscribeTimedOut { packet_id }) => {
            assert_eq!(packet_id, 1);
        },
        _ => panic!("a subscribe out of retries must time out"),
    }
}

#[test]
fn malformed_connack_forces_disconnect() {
    // a CONNACK body of length 1 is malformed, and the session tears down
    assert_eq!(
        minqtt::decode::decode_connack(&[0x00]),
        Err(MqttError::MalformedConnAck),
    );
    let mut s = connected_session();
    s.publish("a".to_string(), vec![], 1, false, 1).unwrap();
    let ev = s.on_decode_error();
    assert!(matches!(ev, SessionEvent::Disconnected(DisconnectReason::ProtocolViolation)));
    assert_eq!(s.phase, Phase::Disconnected);
    assert_eq!(s.pending.len(), 0);
}

#[test]
fn orderly_disconnect_clears_pending_and_completes() {
    let mut s = connected_session();
    s.publish("a".to_string(), vec![], 1, false, 1).unwrap();
    let packet = s.disconnect();
    assert_eq!(packet, vec![0xE0, 0x00]);
    assert_eq!(s.phase, Phase::Disconnecting);
    assert_eq!(s.pending.len(), 0);
    s.on_disconnect_sent();
    assert_eq!(s.phase, Phase::Disconnected);
}
