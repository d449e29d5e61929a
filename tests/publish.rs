use share_leader::publish::{build_publish, fits_packet_size, MqttMessage};
use share_leader::qos::QoS;
use share_leader::subscriber::Subscriber;

fn message(from: &str, retain: bool) -> MqttMessage {
    MqttMessage {
        client_id: from.to_string(),
        payload: b"x".to_vec(),
        retain,
        format_indicator: Some(1),
        expiry_interval: Some(30),
        response_topic: Some("reply".to_string()),
        correlation_data: Some(vec![9, 8]),
        user_properties: vec![("k".to_string(), "v".to_string())],
        content_type: Some("text/plain".to_string()),
    }
}

fn subscriber(id: &str, qos: QoS, nolocal: bool, preserve_retain: bool, sid: Option<usize>) -> Subscriber {
    Subscriber {
        client_id: id.to_string(),
        qos,
        subscription_identifier: sid,
        nolocal,
        preserve_retain,
    }
}

#[test]
fn publish_copies_message_fields() {
    let s = subscriber("c1", QoS::ExactlyOnce, false, true, Some(4));
    let (p, props) = build_publish(QoS::AtLeastOnce, s, "t/a".to_string(), message("p", true)).unwrap();
    assert_eq!(p.qos, QoS::AtLeastOnce);
    assert!(p.retain);
    assert!(!p.dup);
    assert_eq!(p.pkid, 0);
    assert_eq!(p.topic, "t/a");
    assert_eq!(p.payload, b"x".to_vec());
    assert_eq!(props.subscription_identifiers, vec![4]);
    assert_eq!(props.payload_format_indicator, Some(1));
    assert_eq!(props.message_expiry_interval, Some(30));
    assert_eq!(props.response_topic, Some("reply".to_string()));
    assert_eq!(props.correlation_data, Some(vec![9, 8]));
    assert_eq!(props.user_properties, vec![("k".to_string(), "v".to_string())]);
    assert_eq!(props.content_type, Some("text/plain".to_string()));
    assert_eq!(props.topic_alias, None);
}

#[test]
fn retain_dropped_without_preserve_retain() {
    let s = subscriber("c1", QoS::AtMostOnce, false, false, None);
    let (p, props) = build_publish(QoS::ExactlyOnce, s, "t".to_string(), message("p", true)).unwrap();
    assert!(!p.retain);
    assert_eq!(p.qos, QoS::AtMostOnce);
    assert!(props.subscription_identifiers.is_empty());
}

#[test]
fn nolocal_skips_own_message() {
    let s = subscriber("c1", QoS::AtLeastOnce, true, false, None);
    assert!(build_publish(QoS::ExactlyOnce, s, "t".to_string(), message("c1", false)).is_none());
    let s = subscriber("c1", QoS::AtLeastOnce, true, false, None);
    assert!(build_publish(QoS::ExactlyOnce, s, "t".to_string(), message("c2", false)).is_some());
    let s = subscriber("c1", QoS::AtLeastOnce, false, false, None);
    assert!(build_publish(QoS::ExactlyOnce, s, "t".to_string(), message("c1", false)).is_some());
}

#[test]
fn packet_size_limit() {
    assert!(fits_packet_size(10, 10));
    assert!(!fits_packet_size(11, 10));
    assert!(fits_packet_size(0, 0));
}
