//! The device's MQTT session: the topics it was set up with, the packets it
//! sends, and what its receive loop does with each packet that arrives.

use vstd::prelude::*;
use vstd::string::*;
use crate::message::{
    pair_texts, DirectMethodInvocation, Message, MessageType,
};
use crate::packets::{mqtt_publish_bytes, utf8_len, valid_topic_name, Qos, publish_at_most_once};
use crate::text::{
    chars_in_byte_prefix, chars_in_bytes, chars_of, find_char, find_from, has_prefix,
    lemma_ascii_chars_in_bytes, lemma_find_from_first, skip_repeated, starts_with, strip_repeated,
    string_of,
};
use crate::topics::{
    cloud_bound_messages_topic, cloud_bound_topic_text, device_bound_messages_topic_prefix,
    device_bound_prefix_text, METHOD_POST_TOPIC_PREFIX, REQUEST_ID_PARAM, TWIN_PATCH_TOPIC_PREFIX,
};
use mqtt::TopicName;

verus! {

/// The name/value pairs `serde_urlencoded::from_str` reads from a text.
pub uninterp spec fn form_urlencoded_pairs(text: Seq<char>) -> Seq<(Seq<char>, Seq<char>)>;

/// `serde_urlencoded::from_str::<Vec<(String, String)>>`, which never fails
/// for a list of string pairs: every field is read, split at its first `=`,
/// decoded, and converted to text with invalid UTF-8 replaced. Its result is
/// taken by name.
#[verifier::external_body]
fn parse_form_pairs(text: &str) -> (res: Option<Vec<(String, String)>>)
    ensures
        res is Some,
        res matches Some(v) ==> pair_texts(v@) == form_urlencoded_pairs(text@),
{
    serde_urlencoded::from_str::<Vec<(String, String)>>(text).ok()
}

/// `TopicName::new` succeeds on `topic`.
#[verifier::external_body]
fn topic_name_accepted(topic: &str) -> (res: bool)
    ensures
        res == valid_topic_name(topic@),
{
    TopicName::new(topic).is_ok()
}

/// Whether the `mqtt` crate accepts `topic` as the topic of a PUBLISH packet.
pub fn is_valid_topic_name(topic: &str) -> (res: bool)
    ensures
        res == valid_topic_name(topic@),
{
    topic_name_accepted(topic)
}

/// A property name that marks a system property.
pub open spec fn is_system_name(name: Seq<char>) -> bool {
    has_prefix(name, seq!['$', '.'])
}

/// The system properties that a list of pairs sets: names beginning with
/// `$.`, without those two characters.
pub open spec fn system_properties_of(pairs: Seq<(Seq<char>, Seq<char>)>) -> Map<
    Seq<char>,
    Seq<char>,
>
    decreases pairs.len(),
{
    if pairs.len() == 0 {
        Map::empty()
    } else {
        let m = system_properties_of(pairs.drop_last());
        let p = pairs.last();
        if is_system_name(p.0) {
            m.insert(p.0.skip(2), p.1)
        } else {
            m
        }
    }
}

/// The application properties that a list of pairs sets: every other name.
pub open spec fn application_properties_of(pairs: Seq<(Seq<char>, Seq<char>)>) -> Map<
    Seq<char>,
    Seq<char>,
>
    decreases pairs.len(),
{
    if pairs.len() == 0 {
        Map::empty()
    } else {
        let m = application_properties_of(pairs.drop_last());
        let p = pairs.last();
        if is_system_name(p.0) {
            m
        } else {
            m.insert(p.0, p.1)
        }
    }
}

/// The message a property bag gives a payload: names beginning with `$.`
/// set system properties (without those two characters), every other name
/// an application property; a later pair overrides an earlier one.
pub fn message_from_pairs(pairs: &Vec<(String, String)>, payload: Vec<u8>) -> (m: Message)
    ensures
        m.body@ == payload@,
        m.properties@ == application_properties_of(pair_texts(pairs@)),
        m.system_properties@ == system_properties_of(pair_texts(pairs@)),
{
    let ghost texts = pair_texts(pairs@);
    let mut message = Message::new(payload);
    let n: usize = pairs.len();
    let mut i: usize = 0;
    while i < n
        invariant
            n == pairs@.len(),
            texts == pair_texts(pairs@),
            i <= n,
            message.body@ == payload@,
            message.properties@ == application_properties_of(texts.take(i as int)),
            message.system_properties@ == system_properties_of(texts.take(i as int)),
        decreases n - i,
    {
        assert(texts.take(i + 1).drop_last() =~= texts.take(i as int));
        assert(texts.take(i + 1).last() == texts[i as int]);
        let name = chars_of(pairs[i].0.as_str());
        let system = name.len() >= 2 && name[0] == '$' && name[1] == '.';
        proof {
            if name@.len() >= 2 {
                assert(system == (name@.subrange(0, 2) =~= seq!['$', '.']));
            }
        }
        if system {
            message.system_properties.insert(string_of(&name, 2, name.len()), pairs[i].1.clone());
            assert(name@.subrange(2, name@.len() as int) =~= name@.skip(2));
        } else {
            message.properties.insert(pairs[i].0.clone(), pairs[i].1.clone());
        }
        i += 1;
    }
    assert(texts.take(n as int) =~= texts);
    message
}

/// The message carried by a cloud-to-device PUBLISH whose property bag is
/// `properties_text`.
pub fn cloud_to_device_message(properties_text: &str, payload: Vec<u8>) -> (m: Message)
    ensures
        m.body@ == payload@,
        m.properties@ == application_properties_of(form_urlencoded_pairs(properties_text@)),
        m.system_properties@ == system_properties_of(form_urlencoded_pairs(properties_text@)),
{
    let pairs = parse_form_pairs(properties_text).unwrap();
    message_from_pairs(&pairs, payload)
}

/// Number of bytes of `?$rid=`, cut from the second part of a method topic.
pub open spec fn request_id_param_bytes() -> int {
    6
}

/// The method name and request id in the part of a direct-method topic after
/// its prefix (`{method name}/?$rid={request id}`): the name runs to the first
/// `/`; the second part runs to the next `/` or the end, and loses its first
/// six bytes. `None` where there is no `/`, or the second part is shorter than
/// six bytes or byte six falls inside a character.
pub open spec fn method_invocation_parts(details: Seq<char>) -> Option<(Seq<char>, Seq<char>)> {
    let slash: int = find_from(details, 0, '/');
    if slash >= details.len() {
        None
    } else {
        let end: int = find_from(details, slash + 1, '/');
        match chars_in_bytes(details.subrange(slash + 1, end), request_id_param_bytes()) {
            Some(k) => Some((details.subrange(0, slash), details.subrange(slash + 1 + k, end))),
            None => None,
        }
    }
}

/// The method name and request id of a direct-method topic, read from the
/// characters after the prefix.
pub fn method_invocation(details: &[char]) -> (res: Option<(String, String)>)
    ensures
        match method_invocation_parts(details@) {
            Some(parts) => res matches Some(r) && r.0@ == parts.0 && r.1@ == parts.1,
            None => res is None,
        },
{
    let slash: usize = find_char(details, 0, '/');
    if slash == details.len() {
        return None;
    }
    let end: usize = find_char(details, slash + 1, '/');
    let ghost second = details@.subrange(slash + 1, end as int);
    proof {
        lemma_chars_in_bytes_bound(second, 6);
    }
    match chars_in_byte_prefix(details, slash + 1, end, 6) {
        Some(k) => {
            assert(chars_in_bytes(second, 6) == Some(k as int));
            let name = string_of(details, 0, slash);
            let id = string_of(details, slash + 1 + k, end);
            assert(method_invocation_parts(details@) == Some((name@, id@)));
            Some((name, id))
        },
        None => {
            assert(chars_in_bytes(second, 6) is None);
            None
        },
    }
}

proof fn lemma_chars_in_bytes_bound(s: Seq<char>, n: int)
    ensures
        chars_in_bytes(s, n) matches Some(k) ==> 0 <= k <= s.len(),
    decreases s.len(),
{
    if n != 0 && s.len() > 0 {
        lemma_chars_in_bytes_bound(s.drop_first(), n - crate::text::utf8_width(s[0]));
    }
}

} // verus!

verus! {

/// A packet the receive loop reads from the hub, as far as the loop looks at it.
pub enum IncomingPacket {
    /// A PUBLISH packet with its topic and payload.
    Publish { topic: String, payload: Vec<u8> },
    /// A PINGRESP packet.
    PingResponse,
    /// Any other packet.
    Other,
    /// Bytes that did not decode as a packet.
    Unreadable,
}

/// What the receive loop does next.
pub enum ReceiveAction {
    /// Read the next packet.
    Continue,
    /// Hand the message to the handler, then go on as [`after_delivery`] says.
    Deliver(MessageType),
    /// The packet cannot be handled: the loop stops.
    Abort,
}

/// How the receive loop goes on after offering a message to the handler.
pub enum AfterDelivery {
    /// The message was handed over: read the next packet.
    KeepReceiving,
    /// The handler is gone: leave the loop and cancel the subscriptions.
    Unsubscribe,
}

/// What the receive loop does after a hand-over: it keeps receiving when the
/// handler took the message and unsubscribes when it did not.
pub open spec fn after_delivery_outcome(delivered: bool, res: AfterDelivery) -> bool {
    &&& delivered ==> res is KeepReceiving
    &&& !delivered ==> res is Unsubscribe
}

/// The receive loop keeps receiving while the handler takes its messages,
/// and stops, cancelling the subscriptions, once a hand-over fails because
/// the handler has gone.
pub fn after_delivery(delivered: bool) -> (res: AfterDelivery)
    ensures
        after_delivery_outcome(delivered, res),
{
    if delivered {
        AfterDelivery::KeepReceiving
    } else {
        AfterDelivery::Unsubscribe
    }
}

/// The device's session: its device id, the topic its messages go to and the
/// prefix of the topics of the messages sent to it.
pub struct MqttSession {
    device_id: String,
    d2c_topic: String,
    rx_topic_prefix: String,
}

impl MqttSession {
    #[verifier::type_invariant]
    spec fn topics_match_device(&self) -> bool {
        &&& self.d2c_topic@ == cloud_bound_topic_text(self.device_id@)
        &&& self.rx_topic_prefix@ == device_bound_prefix_text(self.device_id@)
        &&& valid_topic_name(self.d2c_topic@)
    }

    /// The device the session belongs to.
    pub closed spec fn device(&self) -> Seq<char> {
        self.device_id@
    }

    /// The session of a device whose device-to-cloud topic the `mqtt` crate accepts.
    pub fn new(device_id: &str) -> (s: MqttSession)
        requires
            valid_topic_name(cloud_bound_topic_text(device_id@)),
        ensures
            s.device() == device_id@,
    {
        MqttSession {
            device_id: device_id.to_owned(),
            d2c_topic: cloud_bound_messages_topic(device_id),
            rx_topic_prefix: device_bound_messages_topic_prefix(device_id),
        }
    }

    /// The topic device-to-cloud messages are published to.
    pub fn d2c_topic(&self) -> (res: &str)
        ensures
            res@ == cloud_bound_topic_text(self.device()),
    {
        proof {
            use_type_invariant(self);
        }
        self.d2c_topic.as_str()
    }

    /// The prefix of the topics of cloud-to-device messages.
    pub fn rx_topic_prefix(&self) -> (res: &str)
        ensures
            res@ == device_bound_prefix_text(self.device()),
    {
        proof {
            use_type_invariant(self);
        }
        self.rx_topic_prefix.as_str()
    }

    /// The QoS 0 PUBLISH packet of a device-to-cloud message.
    pub fn message_packet(&self, body: &[u8]) -> (res: Vec<u8>)
        requires
            utf8_len(cloud_bound_topic_text(self.device())) + 4 + body@.len() <= 0x0fff_ffff,
        ensures
            res@ == mqtt_publish_bytes(
                cloud_bound_topic_text(self.device()),
                Qos::AtMostOnce,
                0,
                body@,
            ),
    {
        proof {
            use_type_invariant(self);
        }
        publish_at_most_once(self.d2c_topic.as_str(), body)
    }

    /// What the receive loop does with a PUBLISH packet.
    pub open spec fn publish_outcome(
        &self,
        topic: Seq<char>,
        payload: Seq<u8>,
        res: ReceiveAction,
    ) -> bool {
        let rx = device_bound_prefix_text(self.device());
        if has_prefix(topic, rx) {
            let pairs = form_urlencoded_pairs(strip_repeated(topic, rx));
            res matches ReceiveAction::Deliver(MessageType::C2DMessage(m)) && m.body@ == payload
                && m.properties@ == application_properties_of(pairs)
                && m.system_properties@ == system_properties_of(pairs)
        } else if has_prefix(topic, TWIN_PATCH_TOPIC_PREFIX@) {
            res matches ReceiveAction::Deliver(MessageType::DesiredPropertyUpdate(m))
                && m.body@ == payload && m.properties@ == Map::<Seq<char>, Seq<char>>::empty()
                && m.system_properties@ == Map::<Seq<char>, Seq<char>>::empty()
        } else if has_prefix(topic, METHOD_POST_TOPIC_PREFIX@) {
            match method_invocation_parts(topic.skip(METHOD_POST_TOPIC_PREFIX@.len() as int)) {
                Some(parts) => res matches ReceiveAction::Deliver(MessageType::DirectMethod(inv))
                    && inv.method_name@ == parts.0 && inv.request_id@ == parts.1
                    && inv.message.body@ == payload
                    && inv.message.properties@ == Map::<Seq<char>, Seq<char>>::empty()
                    && inv.message.system_properties@ == Map::<Seq<char>, Seq<char>>::empty(),
                None => res is Abort,
            }
        } else {
            res is Continue
        }
    }

    /// The receive loop's step on a PUBLISH packet.
    pub fn on_publish(&self, topic: &str, payload: Vec<u8>) -> (res: ReceiveAction)
        ensures
            self.publish_outcome(topic@, payload@, res),
    {
        proof {
            use_type_invariant(self);
        }
        let chars = chars_of(topic);
        let rx = chars_of(self.rx_topic_prefix.as_str());
        if starts_with(chars.as_slice(), rx.as_slice()) {
            let start: usize = skip_repeated(chars.as_slice(), rx.as_slice());
            let text = string_of(chars.as_slice(), start, chars.len());
            assert(text@ =~= chars@.skip(start as int));
            ReceiveAction::Deliver(MessageType::C2DMessage(cloud_to_device_message(text.as_str(), payload)))
        } else if starts_with(chars.as_slice(), chars_of(TWIN_PATCH_TOPIC_PREFIX).as_slice()) {
            ReceiveAction::Deliver(MessageType::DesiredPropertyUpdate(Message::new(payload)))
        } else {
            let prefix = chars_of(METHOD_POST_TOPIC_PREFIX);
            if starts_with(chars.as_slice(), prefix.as_slice()) {
                let details = chars_of(string_of(chars.as_slice(), prefix.len(), chars.len()).as_str());
                assert(details@ =~= chars@.skip(prefix@.len() as int));
                match method_invocation(details.as_slice()) {
                    Some((method_name, request_id)) => ReceiveAction::Deliver(
                        MessageType::DirectMethod(
                            DirectMethodInvocation {
                                method_name,
                                message: Message::new(payload),
                                request_id,
                            },
                        ),
                    ),
                    None => ReceiveAction::Abort,
                }
            } else {
                ReceiveAction::Continue
            }
        }
    }

    /// What the receive loop does with any packet: a PUBLISH as
    /// `publish_outcome` says, every other packet is passed over.
    pub open spec fn packet_outcome(&self, packet: IncomingPacket, res: ReceiveAction) -> bool {
        match packet {
            IncomingPacket::Publish { topic, payload } => self.publish_outcome(
                topic@,
                payload@,
                res,
            ),
            _ => res is Continue,
        }
    }

    /// A PUBLISH the loop hands over: a cloud-to-device message, a
    /// desired-property update, or a direct method whose topic holds a
    /// method name and a request id.
    pub open spec fn handled_publish(&self, packet: IncomingPacket) -> bool {
        packet matches IncomingPacket::Publish { topic, payload } && {
            let t = topic@;
            ||| has_prefix(t, device_bound_prefix_text(self.device()))
            ||| has_prefix(t, TWIN_PATCH_TOPIC_PREFIX@)
            ||| has_prefix(t, METHOD_POST_TOPIC_PREFIX@) && method_invocation_parts(
                t.skip(METHOD_POST_TOPIC_PREFIX@.len() as int),
            ) is Some
        }
    }

    /// A packet the loop passes over: not a PUBLISH, or a PUBLISH on a topic
    /// of none of the kinds it handles.
    pub open spec fn passed_over(&self, packet: IncomingPacket) -> bool {
        match packet {
            IncomingPacket::Publish { topic, payload } => {
                let t = topic@;
                &&& !has_prefix(t, device_bound_prefix_text(self.device()))
                &&& !has_prefix(t, TWIN_PATCH_TOPIC_PREFIX@)
                &&& !has_prefix(t, METHOD_POST_TOPIC_PREFIX@)
            },
            _ => true,
        }
    }

    /// The number of handled PUBLISH packets in a run.
    pub open spec fn handled_count(&self, packets: Seq<IncomingPacket>) -> nat
        decreases packets.len(),
    {
        if packets.len() == 0 {
            0
        } else {
            self.handled_count(packets.drop_last()) + if self.handled_publish(packets.last()) {
                1nat
            } else {
                0nat
            }
        }
    }

    /// The receive loop's step on any packet: a PUBLISH is read as above,
    /// everything else (a PINGRESP, another packet, undecodable bytes) is passed over.
    pub fn on_packet(&self, packet: IncomingPacket) -> (res: ReceiveAction)
        ensures
            self.packet_outcome(packet, res),
    {
        match packet {
            IncomingPacket::Publish { topic, payload } => self.on_publish(topic.as_str(), payload),
            _ => ReceiveAction::Continue,
        }
    }
}

/// What the hub answered to CONNECT, as far as the device looks at it.
pub enum ConnectReply {
    /// A CONNACK packet with its return code.
    Connack(u8),
    /// Some other packet.
    Other,
    /// Bytes that did not decode as a packet.
    Unreadable,
}

/// Return code of a CONNACK that accepts the connection.
pub const CONNECTION_ACCEPTED: u8 = 0;

/// Whether the session may go on after the hub's answer to CONNECT: only a
/// CONNACK that accepts the connection lets it.
pub fn connection_accepted(reply: &ConnectReply) -> (res: bool)
    ensures
        res <==> (reply matches ConnectReply::Connack(code) && code == CONNECTION_ACCEPTED),
{
    match reply {
        ConnectReply::Connack(code) => *code == CONNECTION_ACCEPTED,
        _ => false,
    }
}

} // verus!

verus! {

/// A direct method reaches the device on
/// `$iothub/methods/POST/{method name}/?$rid={request id}`; for a method name
/// and a request id without `/`, the receive loop hands over exactly that
/// method name and request id, with the payload as the message body.
pub proof fn law_direct_method_topic_round_trip(
    session: MqttSession,
    method_name: Seq<char>,
    request_id: Seq<char>,
    payload: Seq<u8>,
    res: ReceiveAction,
)
    requires
        !method_name.contains('/'),
        !request_id.contains('/'),
        session.publish_outcome(
            METHOD_POST_TOPIC_PREFIX@ + method_name + seq!['/'] + REQUEST_ID_PARAM@ + request_id,
            payload,
            res,
        ),
    ensures
        res matches ReceiveAction::Deliver(MessageType::DirectMethod(inv)) && inv.method_name@
            == method_name && inv.request_id@ == request_id && inv.message.body@ == payload,
{
    reveal_strlit("$iothub/methods/POST/");
    reveal_strlit("$iothub/twin/PATCH/properties/desired/");
    reveal_strlit("?$rid=");
    reveal_strlit("devices/");
    let prefix = METHOD_POST_TOPIC_PREFIX@;
    let param = REQUEST_ID_PARAM@;
    let topic = prefix + method_name + seq!['/'] + param + request_id;
    let rx = device_bound_prefix_text(session.device());
    assert(topic[0] == '$');
    assert(rx[0] == 'd');
    assert(!has_prefix(topic, rx)) by {
        if has_prefix(topic, rx) {
            assert(topic.subrange(0, rx.len() as int)[0] == rx[0]);
        }
    }
    let twin = TWIN_PATCH_TOPIC_PREFIX@;
    assert(!has_prefix(topic, twin)) by {
        if has_prefix(topic, twin) {
            assert(topic.subrange(0, twin.len() as int)[8] == twin[8]);
        }
    }
    assert(has_prefix(topic, prefix)) by {
        assert(topic.subrange(0, prefix.len() as int) =~= prefix);
    }
    let details = topic.skip(prefix.len() as int);
    assert(details =~= method_name + seq!['/'] + param + request_id);
    let n: int = method_name.len() as int;
    assert forall|j: int| 0 <= j < n implies details[j] != '/' by {
        assert(details[j] == method_name[j]);
    }
    lemma_find_from_first(details, 0, n, '/');
    assert forall|j: int| n + 1 <= j < details.len() implies details[j] != '/' by {
        if j < n + 7 {
            assert(details[j] == param[j - n - 1]);
        } else {
            assert(details[j] == request_id[j - n - 7]);
        }
    }
    lemma_find_from_first(details, n + 1, details.len() as int, '/');
    let second = details.subrange(n + 1, details.len() as int);
    assert(second =~= param + request_id);
    lemma_ascii_chars_in_bytes(second, 6);
    assert(details.subrange(0, n) =~= method_name);
    assert(details.subrange(n + 1 + 6, details.len() as int) =~= request_id);
}

} // verus!

verus! {

proof fn lemma_system_names_equal(a: Seq<char>, b: Seq<char>)
    requires
        is_system_name(a),
        is_system_name(b),
        a.skip(2) == b.skip(2),
    ensures
        a == b,
{
    assert(a.subrange(0, 2) == b.subrange(0, 2));
    assert(a =~= a.subrange(0, 2) + a.skip(2));
    assert(b =~= b.subrange(0, 2) + b.skip(2));
}

/// Every pair of a cloud-to-device property bag lands in exactly one map: a
/// name beginning with `$.` is a system property under the rest of its name,
/// any other name an application property; the last pair of a name sets its value.
pub proof fn law_property_bag_split(pairs: Seq<(Seq<char>, Seq<char>)>, i: int)
    requires
        0 <= i < pairs.len(),
        forall|j: int| i < j < pairs.len() ==> pairs[j].0 != pairs[i].0,
    ensures
        is_system_name(pairs[i].0) ==> system_properties_of(pairs).dom().contains(pairs[i].0.skip(2))
            && system_properties_of(pairs)[pairs[i].0.skip(2)] == pairs[i].1,
        !is_system_name(pairs[i].0) ==> application_properties_of(pairs).dom().contains(pairs[i].0)
            && application_properties_of(pairs)[pairs[i].0] == pairs[i].1,
    decreases pairs.len(),
{
    if i < pairs.len() - 1 {
        let rest = pairs.drop_last();
        assert forall|j: int| i < j < rest.len() implies rest[j].0 != rest[i].0 by {
            assert(rest[j] == pairs[j]);
        }
        law_property_bag_split(rest, i);
        let p = pairs.last();
        assert(p.0 != pairs[i].0);
        if is_system_name(p.0) && is_system_name(pairs[i].0) && p.0.skip(2) == pairs[i].0.skip(2) {
            lemma_system_names_equal(p.0, pairs[i].0);
        }
    }
}

/// No application property of a cloud-to-device message has a name that
/// begins with `$.`.
pub proof fn law_application_names_are_not_system(pairs: Seq<(Seq<char>, Seq<char>)>, name: Seq<char>)
    ensures
        application_properties_of(pairs).dom().contains(name) ==> !is_system_name(name),
    decreases pairs.len(),
{
    if pairs.len() > 0 {
        law_application_names_are_not_system(pairs.drop_last(), name);
    }
}

/// The messages a run of receive-loop steps hands over, in order.
pub open spec fn delivered_messages(actions: Seq<ReceiveAction>) -> Seq<MessageType>
    decreases actions.len(),
{
    if actions.len() == 0 {
        Seq::empty()
    } else {
        let earlier = delivered_messages(actions.drop_last());
        match actions.last() {
            ReceiveAction::Deliver(m) => earlier.push(m),
            _ => earlier,
        }
    }
}

/// A run of the receive loop over packets it handles or passes over, the
/// handler taking every message: each handled PUBLISH hands over exactly one
/// message, at its place in arrival order, every other packet none; no step
/// aborts and every hand-over keeps the loop receiving, so the loop ends only
/// when a hand-over fails, which unsubscribes (`after_delivery_outcome`).
pub proof fn law_receive_run(
    session: MqttSession,
    packets: Seq<IncomingPacket>,
    actions: Seq<ReceiveAction>,
    afters: Seq<AfterDelivery>,
)
    requires
        actions.len() == packets.len(),
        afters.len() == packets.len(),
        forall|i: int|
            0 <= i < packets.len() ==> session.handled_publish(#[trigger] packets[i])
                || session.passed_over(packets[i]),
        forall|i: int|
            0 <= i < packets.len() ==> session.packet_outcome(packets[i], #[trigger] actions[i]),
        forall|i: int|
            0 <= i < packets.len() && actions[i] is Deliver ==> after_delivery_outcome(
                true,
                #[trigger] afters[i],
            ),
    ensures
        delivered_messages(actions).len() == session.handled_count(packets),
        forall|i: int|
            0 <= i < packets.len() ==> (#[trigger] actions[i] is Deliver <==> session.handled_publish(
                packets[i],
            )),
        forall|i: int| 0 <= i < packets.len() ==> !(#[trigger] actions[i] is Abort),
        forall|i: int|
            0 <= i < packets.len() && session.handled_publish(#[trigger] packets[i]) ==> {
                &&& session.handled_count(packets.take(i)) < delivered_messages(actions).len()
                &&& (actions[i] matches ReceiveAction::Deliver(m) && delivered_messages(
                    actions,
                )[session.handled_count(packets.take(i)) as int] == m)
            },
        forall|i: int|
            0 <= i < packets.len() && actions[i] is Deliver ==> #[trigger] afters[i] is KeepReceiving,
    decreases packets.len(),
{
    let n = packets.len() as int;
    if n == 0 {
        return;
    }
    let ps = packets.drop_last();
    let acts = actions.drop_last();
    let afs = afters.drop_last();
    assert forall|i: int| 0 <= i < ps.len() implies session.handled_publish(#[trigger] ps[i])
        || session.passed_over(ps[i]) by {
        assert(ps[i] == packets[i]);
    }
    assert forall|i: int| 0 <= i < ps.len() implies session.packet_outcome(ps[i], #[trigger] acts[i]) by {
        assert(ps[i] == packets[i]);
        assert(acts[i] == actions[i]);
    }
    assert forall|i: int| 0 <= i < ps.len() && acts[i] is Deliver implies after_delivery_outcome(
        true,
        #[trigger] afs[i],
    ) by {
        assert(acts[i] == actions[i]);
        assert(afs[i] == afters[i]);
    }
    law_receive_run(session, ps, acts, afs);
    lemma_run_step(session, packets, actions);
    let earlier = delivered_messages(acts);
    let all = delivered_messages(actions);
    assert forall|i: int| 0 <= i < packets.len() implies (#[trigger] actions[i] is Deliver
        <==> session.handled_publish(packets[i])) && !(actions[i] is Abort) by {
        if i < n - 1 {
            assert(ps[i] == packets[i]);
            assert(acts[i] == actions[i]);
        }
    }
    assert forall|i: int|
        0 <= i < packets.len() && session.handled_publish(#[trigger] packets[i]) implies {
        &&& session.handled_count(packets.take(i)) < all.len()
        &&& (actions[i] matches ReceiveAction::Deliver(m) && all[session.handled_count(
            packets.take(i),
        ) as int] == m)
    } by {
        if i < n - 1 {
            assert(ps[i] == packets[i]);
            assert(acts[i] == actions[i]);
            assert(packets.take(i) =~= ps.take(i));
            let k = session.handled_count(ps.take(i)) as int;
            assert(k < earlier.len());
            assert(all[k] == earlier[k]);
        } else {
            assert(packets.take(i) =~= ps);
        }
    }
}

/// One more packet at the end of a run: the count and the deliveries grow
/// together, by one exactly when the packet is a handled PUBLISH.
proof fn lemma_run_step(
    session: MqttSession,
    packets: Seq<IncomingPacket>,
    actions: Seq<ReceiveAction>,
)
    requires
        packets.len() > 0,
        actions.len() == packets.len(),
        session.handled_publish(packets.last()) || session.passed_over(packets.last()),
        session.packet_outcome(packets.last(), actions.last()),
    ensures
        actions.last() is Deliver <==> session.handled_publish(packets.last()),
        !(actions.last() is Abort),
        session.handled_count(packets) == session.handled_count(packets.drop_last()) + if session.handled_publish(packets.last()) {
            1nat
        } else {
            0nat
        },
        actions.last() matches ReceiveAction::Deliver(m) ==> delivered_messages(actions) == delivered_messages(actions.drop_last()).push(m),
        !(actions.last() is Deliver) ==> delivered_messages(actions) == delivered_messages(actions.drop_last()),
{
}

/// For any device, a PUBLISH on `devices/{its id}/messages/devicebound/`
/// followed by a property bag is handed over as a cloud-to-device message
/// carrying the payload as its body.
pub proof fn law_own_cloud_to_device_topic_delivers(
    session: MqttSession,
    bag: Seq<char>,
    payload: Seq<u8>,
    res: ReceiveAction,
)
    requires
        session.publish_outcome(
            "devices/"@ + session.device() + "/messages/devicebound/"@ + bag,
            payload,
            res,
        ),
    ensures
        res matches ReceiveAction::Deliver(MessageType::C2DMessage(m)) && m.body@ == payload,
{
    let rx = device_bound_prefix_text(session.device());
    let topic = "devices/"@ + session.device() + "/messages/devicebound/"@ + bag;
    assert(topic.subrange(0, rx.len() as int) =~= rx);
    assert(has_prefix(topic, rx));
}

} // verus!
