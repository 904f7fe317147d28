//! MQTT packets a device sends to the hub, framed by the `mqtt` crate.

use vstd::prelude::*;
use vstd::string::*;
use vstd::utf8::*;
use crate::message::DirectMethodResponse;
use crate::topics::{
    cloud_bound_messages_topic, cloud_bound_topic_text, device_bound_messages_topic_filter,
    device_bound_filter_text, device_bound_messages_topic_prefix, device_bound_prefix_text,
    method_response_topic, method_response_topic_text, twin_get_topic, twin_get_topic_text,
    twin_update_topic, twin_update_topic_text, user_name, user_name_text, KEEP_ALIVE,
    METHOD_POST_TOPIC_FILTER, METHOD_POST_TOPIC_PREFIX, TWIN_PATCH_TOPIC_FILTER,
    TWIN_PATCH_TOPIC_PREFIX, TWIN_RESPONSE_TOPIC_FILTER,
};
use crate::text::chars_of;
use mqtt::packet::{
    ConnectPacket, PingreqPacket, PublishPacket, QoSWithPacketIdentifier, SubscribePacket,
    UnsubscribePacket,
};
use mqtt::{Encodable, QualityOfService, TopicFilter, TopicName};

verus! {

/// Delivery guarantee of an MQTT message or subscription.
#[derive(Clone, Copy, PartialEq, Eq, Debug)]
pub enum Qos {
    AtMostOnce,
    AtLeastOnce,
    ExactlyOnce,
}

/// The number MQTT gives a quality of service.
pub open spec fn qos_level(qos: Qos) -> int {
    match qos {
        Qos::AtMostOnce => 0,
        Qos::AtLeastOnce => 1,
        Qos::ExactlyOnce => 2,
    }
}

/// A 16-bit value as two bytes, the most significant first.
pub open spec fn u16_be(v: int) -> Seq<u8> {
    seq![(v / 256) as u8, (v % 256) as u8]
}

/// An MQTT string: the count of its UTF-8 bytes as two bytes, then the bytes.
pub open spec fn mqtt_string(s: Seq<char>) -> Seq<u8> {
    u16_be(utf8_len(s)) + encode_utf8(s)
}

/// The remaining-length field: seven bits a byte, the lowest first, the top
/// bit set on every byte but the last.
pub open spec fn remaining_length_bytes(n: nat) -> Seq<u8>
    decreases n,
{
    if n < 128 {
        seq![n as u8]
    } else {
        seq![(n % 128 + 128) as u8] + remaining_length_bytes(n / 128)
    }
}

/// A control packet: its first byte, the length of the rest, the rest.
pub open spec fn mqtt_packet(first: u8, rest: Seq<u8>) -> Seq<u8> {
    seq![first] + remaining_length_bytes(rest.len()) + rest
}

/// Bytes of a CONNECT packet (protocol `MQTT`, level 4, i.e. 3.1.1) with a
/// user name and a password and no will.
pub open spec fn mqtt_connect_bytes(
    client_id: Seq<char>,
    keep_alive: u16,
    clean_session: bool,
    user_name: Seq<char>,
    password: Seq<char>,
) -> Seq<u8> {
    let flags: u8 = if clean_session {
        0xc2
    } else {
        0xc0
    };
    mqtt_packet(
        0x10,
        mqtt_string(seq!['M', 'Q', 'T', 'T']) + seq![4u8, flags] + u16_be(keep_alive as int)
            + mqtt_string(client_id) + mqtt_string(user_name) + mqtt_string(password),
    )
}

/// Bytes of a PUBLISH packet, neither duplicate nor retained; the packet id
/// is written only above quality of service 0.
pub open spec fn mqtt_publish_bytes(
    topic: Seq<char>,
    qos: Qos,
    packet_id: u16,
    payload: Seq<u8>,
) -> Seq<u8> {
    let id = if qos == Qos::AtMostOnce {
        Seq::empty()
    } else {
        u16_be(packet_id as int)
    };
    mqtt_packet((0x30 + 2 * qos_level(qos)) as u8, mqtt_string(topic) + id + payload)
}

/// A topic filter `mqtt::TopicFilter::new` accepts: not empty, at most 65535
/// bytes, `#` only as the whole last level, `+` only as a whole level.
pub open spec fn valid_topic_filter(filter: Seq<char>) -> bool {
    &&& filter.len() > 0
    &&& utf8_len(filter) <= 65535
    &&& forall|i: int|
        0 <= i < filter.len() && #[trigger] filter[i] == '#' ==> (i == 0 || filter[i - 1] == '/') && i
            == filter.len() - 1
    &&& forall|i: int|
        0 <= i < filter.len() && #[trigger] filter[i] == '+' ==> (i == 0 || filter[i - 1] == '/') && (i
            == filter.len() - 1 || filter[i + 1] == '/')
}

/// The filters of a SUBSCRIBE packet, each followed by its quality of service.
pub open spec fn subscribe_payload(filters: Seq<Seq<char>>, qos: Qos) -> Seq<u8>
    decreases filters.len(),
{
    if filters.len() == 0 {
        Seq::empty()
    } else {
        subscribe_payload(filters.drop_last(), qos) + mqtt_string(filters.last()) + seq![
            qos_level(qos) as u8,
        ]
    }
}

/// The filters of an UNSUBSCRIBE packet.
pub open spec fn unsubscribe_payload(filters: Seq<Seq<char>>) -> Seq<u8>
    decreases filters.len(),
{
    if filters.len() == 0 {
        Seq::empty()
    } else {
        unsubscribe_payload(filters.drop_last()) + mqtt_string(filters.last())
    }
}

/// Bytes of a SUBSCRIBE packet, every filter at the same quality of service.
pub open spec fn mqtt_subscribe_bytes(packet_id: u16, filters: Seq<Seq<char>>, qos: Qos) -> Seq<u8> {
    mqtt_packet(0x82, u16_be(packet_id as int) + subscribe_payload(filters, qos))
}

/// Bytes of an UNSUBSCRIBE packet.
pub open spec fn mqtt_unsubscribe_bytes(packet_id: u16, filters: Seq<Seq<char>>) -> Seq<u8> {
    mqtt_packet(0xa2, u16_be(packet_id as int) + unsubscribe_payload(filters))
}

/// Number of bytes of the UTF-8 encoding of a text.
pub open spec fn utf8_len(s: Seq<char>) -> int {
    encode_utf8(s).len() as int
}

/// A topic name the `mqtt` crate accepts: not empty, at most 65535 bytes,
/// without the wildcards `#` and `+`.
pub open spec fn valid_topic_name(topic: Seq<char>) -> bool {
    &&& topic.len() > 0
    &&& utf8_len(topic) <= 65535
    &&& !topic.contains('#')
    &&& !topic.contains('+')
}

/// The texts of a list of strings.
pub open spec fn string_texts(v: Seq<String>) -> Seq<Seq<char>> {
    v.map_values(|s: String| s@)
}

/// `ConnectPacket` built with these fields (user name and password set), then
/// encoded into a vector, which cannot fail.
#[verifier::external_body]
fn encode_connect(
    client_id: &str,
    keep_alive: u16,
    clean_session: bool,
    user_name: &str,
    password: &str,
) -> (res: Option<Vec<u8>>)
    requires
        utf8_len(client_id@) <= 65535,
        utf8_len(user_name@) <= 65535,
        utf8_len(password@) <= 65535,
    ensures
        res is Some,
        res is Some ==> res->0@ == mqtt_connect_bytes(
            client_id@,
            keep_alive,
            clean_session,
            user_name@,
            password@,
        ),
{
    let mut packet = ConnectPacket::new(client_id);
    packet.set_clean_session(clean_session);
    packet.set_keep_alive(keep_alive);
    packet.set_user_name(Some(user_name.to_owned()));
    packet.set_password(Some(password.to_owned()));
    let mut buf = Vec::new();
    match packet.encode(&mut buf) {
        Ok(()) => Some(buf),
        Err(_) => None,
    }
}

/// `PublishPacket` to a topic `TopicName::new` accepts, encoded into a vector.
/// The remaining length stays within MQTT's maximum, `0x0fff_ffff`, which
/// `FixedHeader::new` debug-asserts.
#[verifier::external_body]
fn encode_publish(topic: &str, qos: Qos, packet_id: u16, payload: &[u8]) -> (res: Option<Vec<u8>>)
    requires
        valid_topic_name(topic@),
        utf8_len(topic@) + 4 + payload@.len() <= 0x0fff_ffff,
    ensures
        res is Some,
        res is Some ==> res->0@ == mqtt_publish_bytes(topic@, qos, packet_id, payload@),
{
    let level = match qos {
        Qos::AtMostOnce => QualityOfService::Level0,
        Qos::AtLeastOnce => QualityOfService::Level1,
        Qos::ExactlyOnce => QualityOfService::Level2,
    };
    let packet = PublishPacket::new(TopicName::new(topic).ok()?, QoSWithPacketIdentifier::new(level, packet_id), payload);
    let mut buf = Vec::new();
    match packet.encode(&mut buf) {
        Ok(()) => Some(buf),
        Err(_) => None,
    }
}

/// `PingreqPacket` encoded: its two fixed bytes.
#[verifier::external_body]
fn encode_pingreq() -> (res: Option<Vec<u8>>)
    ensures
        res is Some,
        res is Some ==> res->0@ == seq![0xc0u8, 0x00u8],
{
    let mut buf = Vec::new();
    match PingreqPacket::new().encode(&mut buf) {
        Ok(()) => Some(buf),
        Err(_) => None,
    }
}

/// `SubscribePacket` for accepted filters, encoded into a vector. Fewer than
/// 4096 filters keep the remaining length within MQTT's maximum.
#[verifier::external_body]
fn encode_subscribe(packet_id: u16, filters: &[String], qos: Qos) -> (res: Option<Vec<u8>>)
    requires
        forall|i: int| 0 <= i < filters@.len() ==> valid_topic_filter(#[trigger] filters@[i]@),
        filters@.len() < 4096,
    ensures
        res is Some,
        res is Some ==> res->0@ == mqtt_subscribe_bytes(packet_id, string_texts(filters@), qos),
{
    let level = match qos {
        Qos::AtMostOnce => QualityOfService::Level0,
        Qos::AtLeastOnce => QualityOfService::Level1,
        Qos::ExactlyOnce => QualityOfService::Level2,
    };
    let mut subscriptions = Vec::new();
    for filter in filters {
        subscriptions.push((TopicFilter::new(filter.as_str()).ok()?, level));
    }
    let mut buf = Vec::new();
    match SubscribePacket::new(packet_id, subscriptions).encode(&mut buf) {
        Ok(()) => Some(buf),
        Err(_) => None,
    }
}

/// `UnsubscribePacket` for accepted filters, encoded into a vector. Fewer than
/// 4096 filters keep the remaining length within MQTT's maximum.
#[verifier::external_body]
fn encode_unsubscribe(packet_id: u16, filters: &[String]) -> (res: Option<Vec<u8>>)
    requires
        forall|i: int| 0 <= i < filters@.len() ==> valid_topic_filter(#[trigger] filters@[i]@),
        filters@.len() < 4096,
    ensures
        res is Some,
        res is Some ==> res->0@ == mqtt_unsubscribe_bytes(packet_id, string_texts(filters@)),
{
    let mut unsubscriptions = Vec::new();
    for filter in filters {
        unsubscriptions.push(TopicFilter::new(filter.as_str()).ok()?);
    }
    let mut buf = Vec::new();
    match UnsubscribePacket::new(packet_id, unsubscriptions).encode(&mut buf) {
        Ok(()) => Some(buf),
        Err(_) => None,
    }
}

} // verus!

verus! {

/// The CONNECT packet of a device: its id as client id, a persistent
/// session, the keep-alive interval, the hub user name, the token as password.
pub fn connect_packet(hub_name: &str, device_id: &str, token: &str) -> (res: Vec<u8>)
    requires
        utf8_len(device_id@) <= 65535,
        utf8_len(user_name_text(hub_name@, device_id@)) <= 65535,
        utf8_len(token@) <= 65535,
    ensures
        res@ == mqtt_connect_bytes(
            device_id@,
            KEEP_ALIVE,
            false,
            user_name_text(hub_name@, device_id@),
            token@,
        ),
{
    let name = user_name(hub_name, device_id);
    encode_connect(device_id, KEEP_ALIVE, false, name.as_str(), token).unwrap()
}

/// The PINGREQ packet.
pub fn ping_packet() -> (res: Vec<u8>)
    ensures
        res@ == seq![0xc0u8, 0x00u8],
{
    encode_pingreq().unwrap()
}

/// A QoS 0 PUBLISH packet.
pub(crate) fn publish_at_most_once(topic: &str, payload: &[u8]) -> (res: Vec<u8>)
    requires
        valid_topic_name(topic@),
        utf8_len(topic@) + 4 + payload@.len() <= 0x0fff_ffff,
    ensures
        res@ == mqtt_publish_bytes(topic@, Qos::AtMostOnce, 0, payload@),
{
    encode_publish(topic, Qos::AtMostOnce, 0, payload).unwrap()
}

/// The PUBLISH packet reporting twin properties under a request id.
pub fn property_update_packet(request_id: &str, body: &str) -> (res: Vec<u8>)
    requires
        valid_topic_name(twin_update_topic_text(request_id@)),
        utf8_len(twin_update_topic_text(request_id@)) + 4 + utf8_len(body@) <= 0x0fff_ffff,
    ensures
        res@ == mqtt_publish_bytes(
            twin_update_topic_text(request_id@),
            Qos::AtMostOnce,
            0,
            encode_utf8(body@),
        ),
{
    let topic = twin_update_topic(request_id);
    publish_at_most_once(topic.as_str(), body.as_bytes())
}

/// The PUBLISH packet asking for the whole twin, with an empty payload.
pub fn twin_request_packet(request_id: &str) -> (res: Vec<u8>)
    requires
        valid_topic_name(twin_get_topic_text(request_id@)),
    ensures
        res@ == mqtt_publish_bytes(
            twin_get_topic_text(request_id@),
            Qos::AtMostOnce,
            0,
            Seq::<u8>::empty(),
        ),
{
    let topic = twin_get_topic(request_id);
    let empty: Vec<u8> = Vec::new();
    publish_at_most_once(topic.as_str(), empty.as_slice())
}

/// The PUBLISH packet answering a direct method.
pub fn method_response_packet(response: &DirectMethodResponse) -> (res: Vec<u8>)
    requires
        valid_topic_name(method_response_topic_text(response.status as int, response.request_id@)),
        utf8_len(method_response_topic_text(response.status as int, response.request_id@)) + 4
            + response.body@.len() <= 0x0fff_ffff,
    ensures
        res@ == mqtt_publish_bytes(
            method_response_topic_text(response.status as int, response.request_id@),
            Qos::AtMostOnce,
            0,
            response.body@,
        ),
{
    let topic = method_response_topic(response.status, response.request_id.as_str());
    publish_at_most_once(topic.as_str(), response.body.as_slice())
}

/// The device whose cloud-to-device filter the subscription names.
pub open spec fn subscribed_device() -> Seq<char> {
    "FirstDevice"@
}

/// The filters the device subscribes to: direct methods, cloud-to-device
/// messages of `FirstDevice`, twin responses and desired-property updates.
pub open spec fn subscription_filter_texts() -> Seq<Seq<char>> {
    seq![
        METHOD_POST_TOPIC_FILTER@,
        device_bound_filter_text(subscribed_device()),
        TWIN_RESPONSE_TOPIC_FILTER@,
        TWIN_PATCH_TOPIC_FILTER@,
    ]
}

/// The filters of the subscription, in order.
pub fn subscription_filters() -> (res: Vec<String>)
    ensures
        res@.len() == 4,
        string_texts(res@) == subscription_filter_texts(),
{
    let mut res: Vec<String> = Vec::new();
    res.push(METHOD_POST_TOPIC_FILTER.to_owned());
    res.push(device_bound_messages_topic_filter("FirstDevice"));
    res.push(TWIN_RESPONSE_TOPIC_FILTER.to_owned());
    res.push(TWIN_PATCH_TOPIC_FILTER.to_owned());
    assert(string_texts(res@) =~= subscription_filter_texts());
    res
}

/// Packet identifier of the subscription and of its cancellation.
pub const SUBSCRIPTION_PACKET_ID: u16 = 10;

proof fn lemma_literal_filter_valid(f: Seq<char>)
    requires
        f.len() > 0,
        f[f.len() - 1] == '#',
        f.len() == 1 || f[f.len() - 2] == '/',
        forall|i: int| 0 <= i < f.len() - 1 ==> #[trigger] f[i] != '#' && f[i] != '+',
        is_ascii_chars(f),
        f.len() <= 65535,
    ensures
        valid_topic_filter(f),
{
    is_ascii_chars_encode_utf8(f);
}

/// The four subscription filters are accepted by the `mqtt` crate.
pub proof fn law_subscription_filters_are_valid()
    ensures
        forall|i: int| 0 <= i < 4 ==> valid_topic_filter(#[trigger] subscription_filter_texts()[i]),
{
    reveal_strlit("$iothub/methods/POST/#");
    reveal_strlit("devices/");
    reveal_strlit("FirstDevice");
    reveal_strlit("/messages/devicebound/");
    reveal_strlit("#");
    reveal_strlit("devices/FirstDevice/messages/devicebound/#");
    reveal_strlit("$iothub/twin/res/#");
    reveal_strlit("$iothub/twin/PATCH/properties/desired/#");
    let f0 = METHOD_POST_TOPIC_FILTER@;
    let f1 = device_bound_filter_text(subscribed_device());
    let f2 = TWIN_RESPONSE_TOPIC_FILTER@;
    let f3 = TWIN_PATCH_TOPIC_FILTER@;
    assert(f1 =~= "devices/FirstDevice/messages/devicebound/#"@);
    assert forall|i: int| 0 <= i < f0.len() - 1 implies #[trigger] f0[i] != '#' && f0[i] != '+' by {}
    assert(is_ascii_chars(f0));
    lemma_literal_filter_valid(f0);
    assert forall|i: int| 0 <= i < f1.len() - 1 implies #[trigger] f1[i] != '#' && f1[i] != '+' by {}
    assert(is_ascii_chars(f1));
    lemma_literal_filter_valid(f1);
    assert forall|i: int| 0 <= i < f2.len() - 1 implies #[trigger] f2[i] != '#' && f2[i] != '+' by {}
    assert(is_ascii_chars(f2));
    lemma_literal_filter_valid(f2);
    assert forall|i: int| 0 <= i < f3.len() - 1 implies #[trigger] f3[i] != '#' && f3[i] != '+' by {}
    assert(is_ascii_chars(f3));
    lemma_literal_filter_valid(f3);
    assert(subscription_filter_texts()[0] == f0);
    assert(subscription_filter_texts()[1] == f1);
    assert(subscription_filter_texts()[2] == f2);
    assert(subscription_filter_texts()[3] == f3);
}

/// The SUBSCRIBE packet: every subscription filter at QoS 0.
pub fn subscribe_packet() -> (res: Vec<u8>)
    ensures
        res@ == mqtt_subscribe_bytes(SUBSCRIPTION_PACKET_ID, subscription_filter_texts(), Qos::AtMostOnce),
{
    let filters = subscription_filters();
    proof {
        law_subscription_filters_are_valid();
        assert(forall|i: int| 0 <= i < 4 ==> #[trigger] string_texts(filters@)[i] == filters@[i]@);
    }
    encode_subscribe(SUBSCRIPTION_PACKET_ID, filters.as_slice(), Qos::AtMostOnce).unwrap()
}

/// The UNSUBSCRIBE packet for the same filters.
pub fn unsubscribe_packet() -> (res: Vec<u8>)
    ensures
        res@ == mqtt_unsubscribe_bytes(SUBSCRIPTION_PACKET_ID, subscription_filter_texts()),
{
    let filters = subscription_filters();
    proof {
        law_subscription_filters_are_valid();
        assert(forall|i: int| 0 <= i < 4 ==> #[trigger] string_texts(filters@)[i] == filters@[i]@);
    }
    encode_unsubscribe(SUBSCRIPTION_PACKET_ID, filters.as_slice()).unwrap()
}

/// The request id of the twin request sent when the receive loop starts.
pub open spec fn initial_twin_request_id() -> Seq<char> {
    seq!['0']
}

proof fn lemma_initial_twin_topic_valid()
    ensures
        valid_topic_name(twin_get_topic_text(initial_twin_request_id())),
{
    reveal_strlit("$iothub/twin/GET/");
    reveal_strlit("?$rid=");
    let t = twin_get_topic_text(initial_twin_request_id());
    assert(is_ascii_chars(t));
    is_ascii_chars_encode_utf8(t);
    assert forall|i: int| 0 <= i < t.len() implies #[trigger] t[i] != '#' && t[i] != '+' by {}
}

/// The packets the device sends as its receive loop starts, in order: the
/// SUBSCRIBE packet, then the request for the whole twin with request id `0`.
pub fn receive_start_packets() -> (res: Vec<Vec<u8>>)
    ensures
        res@.len() == 2,
        res@[0]@ == mqtt_subscribe_bytes(
            SUBSCRIPTION_PACKET_ID,
            subscription_filter_texts(),
            Qos::AtMostOnce,
        ),
        res@[1]@ == mqtt_publish_bytes(
            twin_get_topic_text(initial_twin_request_id()),
            Qos::AtMostOnce,
            0,
            Seq::<u8>::empty(),
        ),
{
    let mut res: Vec<Vec<u8>> = Vec::new();
    res.push(subscribe_packet());
    let id = "0";
    proof {
        reveal_strlit("0");
        assert(id@ =~= initial_twin_request_id());
        lemma_initial_twin_topic_valid();
    }
    res.push(twin_request_packet(id));
    res
}

} // verus!

verus! {

/// The subscription selects the topics the receive loop recognises: the
/// direct-method and desired-property filters are their prefixes followed by
/// `#`, and the cloud-to-device filter is the device's prefix followed by `#`
/// for the device `FirstDevice`, whose name the subscription carries.
pub proof fn law_filters_extend_prefixes(device_id: Seq<char>)
    requires
        device_id == subscribed_device(),
    ensures
        subscription_filter_texts()[0] == METHOD_POST_TOPIC_PREFIX@ + seq!['#'],
        subscription_filter_texts()[1] == device_bound_prefix_text(device_id) + seq!['#'],
        subscription_filter_texts()[3] == TWIN_PATCH_TOPIC_PREFIX@ + seq!['#'],
{
    reveal_strlit("$iothub/methods/POST/#");
    reveal_strlit("$iothub/methods/POST/");
    reveal_strlit("$iothub/twin/PATCH/properties/desired/#");
    reveal_strlit("$iothub/twin/PATCH/properties/desired/");
    reveal_strlit("#");
    assert(METHOD_POST_TOPIC_FILTER@ =~= METHOD_POST_TOPIC_PREFIX@ + seq!['#']);
    assert(TWIN_PATCH_TOPIC_FILTER@ =~= TWIN_PATCH_TOPIC_PREFIX@ + seq!['#']);
    assert("#"@ =~= seq!['#']);
}

} // verus!
