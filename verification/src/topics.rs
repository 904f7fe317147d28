//! Topic names and topic filters of the IoT hub's MQTT surface.

use vstd::prelude::*;
use vstd::string::*;
use crate::text::{decimal, push_decimal};

verus! {

/// Filter for direct method invocations sent to the device.
pub const METHOD_POST_TOPIC_FILTER: &'static str = "$iothub/methods/POST/#";

/// Prefix of the topic of a direct method invocation.
pub const METHOD_POST_TOPIC_PREFIX: &'static str = "$iothub/methods/POST/";

/// Filter for the hub's answers to twin requests.
pub const TWIN_RESPONSE_TOPIC_FILTER: &'static str = "$iothub/twin/res/#";

/// Filter for desired-property updates.
pub const TWIN_PATCH_TOPIC_FILTER: &'static str = "$iothub/twin/PATCH/properties/desired/#";

/// Prefix of the topic of a desired-property update.
pub const TWIN_PATCH_TOPIC_PREFIX: &'static str = "$iothub/twin/PATCH/properties/desired/";

/// Prefix of the topic on which the device reports its properties.
pub const TWIN_PATCH_UPDATE_PREFIX: &'static str = "$iothub/twin/PATCH/properties/reported/";

/// The query parameter that carries a request id.
pub const REQUEST_ID_PARAM: &'static str = "?$rid=";

/// Keep-alive interval, in seconds, announced when connecting.
pub const KEEP_ALIVE: u16 = 10;

/// Topic of the answer to a direct method: `$iothub/methods/res/{status}/?$rid={request_id}`.
pub open spec fn method_response_topic_text(status: int, request_id: Seq<char>) -> Seq<char> {
    "$iothub/methods/res/"@ + decimal(status) + "/"@ + REQUEST_ID_PARAM@ + request_id
}

/// Topic of a request for the whole twin: `$iothub/twin/GET/?$rid={request_id}`.
pub open spec fn twin_get_topic_text(request_id: Seq<char>) -> Seq<char> {
    "$iothub/twin/GET/"@ + REQUEST_ID_PARAM@ + request_id
}

/// Topic of a reported-property update: `$iothub/twin/PATCH/properties/reported/?$rid={request_id}`.
pub open spec fn twin_update_topic_text(request_id: Seq<char>) -> Seq<char> {
    TWIN_PATCH_UPDATE_PREFIX@ + REQUEST_ID_PARAM@ + request_id
}

/// `devices/{device_id}/messages/devicebound/`, the prefix of cloud-to-device messages.
pub open spec fn device_bound_prefix_text(device_id: Seq<char>) -> Seq<char> {
    "devices/"@ + device_id + "/messages/devicebound/"@
}

/// `devices/{device_id}/messages/devicebound/#`, the filter for cloud-to-device messages.
pub open spec fn device_bound_filter_text(device_id: Seq<char>) -> Seq<char> {
    device_bound_prefix_text(device_id) + "#"@
}

/// `devices/{device_id}/messages/events/`, where device-to-cloud messages go.
pub open spec fn cloud_bound_topic_text(device_id: Seq<char>) -> Seq<char> {
    "devices/"@ + device_id + "/messages/events/"@
}

/// `{hub_name}/{device_id}/?api-version=2018-06-30`, the MQTT user name of a device.
pub open spec fn user_name_text(hub_name: Seq<char>, device_id: Seq<char>) -> Seq<char> {
    hub_name + "/"@ + device_id + "/?api-version=2018-06-30"@
}

/// The topic on which the device answers a direct method.
pub fn method_response_topic(status: i32, request_id: &str) -> (res: String)
    ensures
        res@ == method_response_topic_text(status as int, request_id@),
{
    let mut t = "$iothub/methods/res/".to_owned();
    push_decimal(&mut t, status as i64);
    t.append("/");
    t.append(REQUEST_ID_PARAM);
    t.append(request_id);
    t
}

/// The topic on which the device asks for its twin.
pub fn twin_get_topic(request_id: &str) -> (res: String)
    ensures
        res@ == twin_get_topic_text(request_id@),
{
    let mut t = "$iothub/twin/GET/".to_owned();
    t.append(REQUEST_ID_PARAM);
    t.append(request_id);
    t
}

/// The topic on which the device reports properties.
pub fn twin_update_topic(request_id: &str) -> (res: String)
    ensures
        res@ == twin_update_topic_text(request_id@),
{
    let mut t = TWIN_PATCH_UPDATE_PREFIX.to_owned();
    t.append(REQUEST_ID_PARAM);
    t.append(request_id);
    t
}

/// The filter that subscribes to the device's cloud-to-device messages.
pub fn device_bound_messages_topic_filter(device_id: &str) -> (res: String)
    ensures
        res@ == device_bound_filter_text(device_id@),
{
    let mut t = device_bound_messages_topic_prefix(device_id);
    t.append("#");
    t
}

/// The prefix of the topics of the device's cloud-to-device messages.
pub fn device_bound_messages_topic_prefix(device_id: &str) -> (res: String)
    ensures
        res@ == device_bound_prefix_text(device_id@),
{
    let mut t = "devices/".to_owned();
    t.append(device_id);
    t.append("/messages/devicebound/");
    t
}

/// The topic of the device's device-to-cloud messages.
pub fn cloud_bound_messages_topic(device_id: &str) -> (res: String)
    ensures
        res@ == cloud_bound_topic_text(device_id@),
{
    let mut t = "devices/".to_owned();
    t.append(device_id);
    t.append("/messages/events/");
    t
}

/// The MQTT user name under which a device connects.
pub fn user_name(hub_name: &str, device_id: &str) -> (res: String)
    ensures
        res@ == user_name_text(hub_name@, device_id@),
{
    let mut t = hub_name.to_owned();
    t.append("/");
    t.append(device_id);
    t.append("/?api-version=2018-06-30");
    t
}

} // verus!

verus! {

proof fn lemma_cancel_front(a: Seq<char>, x: Seq<char>, y: Seq<char>)
    requires
        a + x == a + y,
    ensures
        x == y,
{
    assert(x =~= (a + x).skip(a.len() as int));
    assert(y =~= (a + y).skip(a.len() as int));
}

proof fn lemma_cancel_back(x: Seq<char>, y: Seq<char>, t: Seq<char>)
    requires
        x + t == y + t,
    ensures
        x == y,
{
    assert((x + t).len() == (y + t).len());
    assert(x =~= (x + t).subrange(0, x.len() as int));
    assert(y =~= (y + t).subrange(0, y.len() as int));
}

/// A device's device-to-cloud topic is `devices/`, its whole device id
/// character for character, then `/messages/events/`; two devices share a
/// topic only when their ids are equal.
pub proof fn law_cloud_bound_topic_names_whole_device(device_id: Seq<char>, other: Seq<char>)
    ensures
        cloud_bound_topic_text(device_id) == "devices/"@ + device_id + "/messages/events/"@,
        cloud_bound_topic_text(device_id) == cloud_bound_topic_text(other) ==> device_id == other,
{
    if cloud_bound_topic_text(device_id) == cloud_bound_topic_text(other) {
        lemma_cancel_back("devices/"@ + device_id, "devices/"@ + other, "/messages/events/"@);
        lemma_cancel_front("devices/"@, device_id, other);
    }
}

/// A device's cloud-to-device prefix is `devices/`, its whole device id, then
/// `/messages/devicebound/`, and its filter is that prefix and `#`; two
/// devices share a prefix only when their ids are equal.
pub proof fn law_device_bound_prefix_names_whole_device(device_id: Seq<char>, other: Seq<char>)
    ensures
        device_bound_prefix_text(device_id) == "devices/"@ + device_id + "/messages/devicebound/"@,
        device_bound_filter_text(device_id) == "devices/"@ + device_id
            + "/messages/devicebound/#"@,
        device_bound_prefix_text(device_id) == device_bound_prefix_text(other) ==> device_id
            == other,
{
    reveal_strlit("/messages/devicebound/");
    reveal_strlit("/messages/devicebound/#");
    reveal_strlit("#");
    assert("devices/"@ + device_id + "/messages/devicebound/"@ + "#"@ =~= "devices/"@ + device_id
        + "/messages/devicebound/#"@);
    if device_bound_prefix_text(device_id) == device_bound_prefix_text(other) {
        lemma_cancel_back("devices/"@ + device_id, "devices/"@ + other, "/messages/devicebound/"@);
        lemma_cancel_front("devices/"@, device_id, other);
    }
}

/// The MQTT user name is the whole hub name, `/`, the device id, then
/// `/?api-version=2018-06-30`; with the device fixed it tells hub names
/// apart, and with the hub fixed it tells device ids apart.
pub proof fn law_user_name_names_hub_and_device(
    hub_name: Seq<char>,
    device_id: Seq<char>,
    other_hub: Seq<char>,
    other_device: Seq<char>,
)
    ensures
        user_name_text(hub_name, device_id) == hub_name + "/"@ + device_id
            + "/?api-version=2018-06-30"@,
        user_name_text(hub_name, device_id) == user_name_text(other_hub, device_id) ==> hub_name
            == other_hub,
        user_name_text(hub_name, device_id) == user_name_text(hub_name, other_device)
            ==> device_id == other_device,
{
    let v = "/?api-version=2018-06-30"@;
    if user_name_text(hub_name, device_id) == user_name_text(other_hub, device_id) {
        lemma_cancel_back(hub_name + "/"@ + device_id, other_hub + "/"@ + device_id, v);
        lemma_cancel_back(hub_name + "/"@, other_hub + "/"@, device_id);
        lemma_cancel_back(hub_name, other_hub, "/"@);
    }
    if user_name_text(hub_name, device_id) == user_name_text(hub_name, other_device) {
        lemma_cancel_back(hub_name + "/"@ + device_id, hub_name + "/"@ + other_device, v);
        lemma_cancel_front(hub_name + "/"@, device_id, other_device);
    }
}

/// The reported-property topic is
/// `$iothub/twin/PATCH/properties/reported/?$rid=` and the whole request id;
/// different request ids give different topics.
pub proof fn law_twin_update_topic_carries_whole_request_id(request_id: Seq<char>, other: Seq<char>)
    ensures
        twin_update_topic_text(request_id) == "$iothub/twin/PATCH/properties/reported/?$rid="@
            + request_id,
        twin_update_topic_text(request_id) == twin_update_topic_text(other) ==> request_id == other,
{
    reveal_strlit("$iothub/twin/PATCH/properties/reported/");
    reveal_strlit("?$rid=");
    reveal_strlit("$iothub/twin/PATCH/properties/reported/?$rid=");
    let p = "$iothub/twin/PATCH/properties/reported/?$rid="@;
    assert(TWIN_PATCH_UPDATE_PREFIX@ + REQUEST_ID_PARAM@ =~= p);
    assert(twin_update_topic_text(request_id) == p + request_id);
    assert(twin_update_topic_text(other) == p + other);
    if twin_update_topic_text(request_id) == twin_update_topic_text(other) {
        lemma_cancel_front(p, request_id, other);
    }
}

/// The twin request topic is `$iothub/twin/GET/?$rid=` and the whole request
/// id; different request ids give different topics.
pub proof fn law_twin_get_topic_carries_whole_request_id(request_id: Seq<char>, other: Seq<char>)
    ensures
        twin_get_topic_text(request_id) == "$iothub/twin/GET/?$rid="@ + request_id,
        twin_get_topic_text(request_id) == twin_get_topic_text(other) ==> request_id == other,
{
    reveal_strlit("$iothub/twin/GET/");
    reveal_strlit("?$rid=");
    reveal_strlit("$iothub/twin/GET/?$rid=");
    let p = "$iothub/twin/GET/?$rid="@;
    assert("$iothub/twin/GET/"@ + REQUEST_ID_PARAM@ =~= p);
    assert(twin_get_topic_text(request_id) == p + request_id);
    assert(twin_get_topic_text(other) == p + other);
    if twin_get_topic_text(request_id) == twin_get_topic_text(other) {
        lemma_cancel_front(p, request_id, other);
    }
}

/// The direct-method answer topic is `$iothub/methods/res/`, the status in
/// decimal, `/?$rid=` and the whole request id; for one status, different
/// request ids give different topics.
pub proof fn law_method_response_topic_carries_status_and_request_id(
    status: int,
    request_id: Seq<char>,
    other: Seq<char>,
)
    ensures
        method_response_topic_text(status, request_id) == "$iothub/methods/res/"@ + decimal(status)
            + "/?$rid="@ + request_id,
        method_response_topic_text(status, request_id) == method_response_topic_text(status, other)
            ==> request_id == other,
{
    reveal_strlit("/");
    reveal_strlit("?$rid=");
    reveal_strlit("/?$rid=");
    let p = "$iothub/methods/res/"@ + decimal(status) + "/?$rid="@;
    assert("$iothub/methods/res/"@ + decimal(status) + "/"@ + REQUEST_ID_PARAM@ =~= p);
    assert(method_response_topic_text(status, request_id) =~= p + request_id);
    assert(method_response_topic_text(status, other) =~= p + other);
    if method_response_topic_text(status, request_id) == method_response_topic_text(status, other) {
        lemma_cancel_front(p, request_id, other);
    }
}

} // verus!
