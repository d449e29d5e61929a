use vstd::prelude::*;
use crate::qos::{QoS, min_level, min_qos};
use crate::subscriber::Subscriber;

verus! {

/// A message as the log holds it, decoded.
#[derive(Clone, Debug)]
pub struct MqttMessage {
    /// The client that published it.
    pub client_id: String,
    pub payload: Vec<u8>,
    pub retain: bool,
    pub format_indicator: Option<u8>,
    pub expiry_interval: Option<u32>,
    pub response_topic: Option<String>,
    pub correlation_data: Option<Vec<u8>>,
    pub user_properties: Vec<(String, String)>,
    pub content_type: Option<String>,
}

/// The fixed part of an outgoing PUBLISH packet.
#[derive(Clone, Debug)]
pub struct Publish {
    pub dup: bool,
    pub qos: QoS,
    pub pkid: u16,
    pub retain: bool,
    pub topic: String,
    pub payload: Vec<u8>,
}

/// The properties of an outgoing PUBLISH packet.
#[derive(Clone, Debug)]
pub struct PublishProperties {
    pub payload_format_indicator: Option<u8>,
    pub message_expiry_interval: Option<u32>,
    pub topic_alias: Option<u16>,
    pub response_topic: Option<String>,
    pub correlation_data: Option<Vec<u8>>,
    pub user_properties: Vec<(String, String)>,
    pub subscription_identifiers: Vec<usize>,
    pub content_type: Option<String>,
}

/// A subscriber with no-local set does not receive what its own client published.
pub open spec fn is_local_skip(sub: Subscriber, msg: MqttMessage) -> bool {
    sub.nolocal && sub.client_id@ == msg.client_id@
}

/// The subscription identifiers that go out to `sub`: its own, if it has one.
pub open spec fn sub_ids_of(sub: Subscriber) -> Seq<usize> {
    match sub.subscription_identifier {
        Some(id) => seq![id],
        None => Seq::empty(),
    }
}

/// The PUBLISH packet that `sub` receives for `msg`, under a cluster whose
/// highest guarantee is `max_qos`.
pub open spec fn publish_for(max_qos: QoS, sub: Subscriber, topic_name: String, msg: MqttMessage, p: Publish) -> bool {
    &&& !p.dup
    &&& p.qos.level() == min_level(max_qos.level(), sub.qos.level())
    &&& p.pkid == 0
    &&& p.retain == (sub.preserve_retain && msg.retain)
    &&& p.topic@ == topic_name@
    &&& p.payload@ == msg.payload@
}

/// The properties that go with the PUBLISH that `sub` receives for `msg`.
pub open spec fn properties_for(sub: Subscriber, msg: MqttMessage, props: PublishProperties) -> bool {
    &&& props.payload_format_indicator == msg.format_indicator
    &&& props.message_expiry_interval == msg.expiry_interval
    &&& props.topic_alias is None
    &&& props.response_topic == msg.response_topic
    &&& props.correlation_data == msg.correlation_data
    &&& props.user_properties == msg.user_properties
    &&& props.subscription_identifiers@ == sub_ids_of(sub)
    &&& props.content_type == msg.content_type
}

/// Builds the packet that delivers `msg` to `subscribe` on topic `topic_name`;
/// `None` where the subscriber's no-local option keeps its own message from it.
pub fn build_publish(max_qos: QoS, subscribe: Subscriber, topic_name: String, msg: MqttMessage) -> (r: Option<(Publish, PublishProperties)>)
    ensures
        r is None <==> is_local_skip(subscribe, msg),
        r matches Some((p, props)) ==> publish_for(max_qos, subscribe, topic_name, msg, p)
            && properties_for(subscribe, msg, props),
{
    let mut sub_id: Vec<usize> = Vec::new();
    if let Some(id) = subscribe.subscription_identifier {
        sub_id.push(id);
    }
    assert(sub_id@ == sub_ids_of(subscribe));

    let qos = min_qos(max_qos, subscribe.qos);
    let retain = if subscribe.preserve_retain {
        msg.retain
    } else {
        false
    };

    if subscribe.nolocal && subscribe.client_id == msg.client_id {
        return None;
    }

    let publish = Publish { dup: false, qos, pkid: 0, retain, topic: topic_name, payload: msg.payload };
    let properties = PublishProperties {
        payload_format_indicator: msg.format_indicator,
        message_expiry_interval: msg.expiry_interval,
        topic_alias: None,
        response_topic: msg.response_topic,
        correlation_data: msg.correlation_data,
        user_properties: msg.user_properties,
        subscription_identifiers: sub_id,
        content_type: msg.content_type,
    };
    Some((publish, properties))
}

/// Whether a payload of `payload_len` bytes may go to a connection that
/// accepts packets of at most `max_packet_size` bytes.
pub fn fits_packet_size(payload_len: usize, max_packet_size: u32) -> (r: bool)
    ensures
        r == (payload_len <= max_packet_size),
{
    payload_len as u64 <= max_packet_size as u64
}

} // verus!
