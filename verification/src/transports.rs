//! The HTTP and AMQP transports: what they hold and the requests they address.

use vstd::prelude::*;
use vstd::string::*;

verus! {

/// The HTTPS endpoint a device posts its events to:
/// `https://{hub}.azure-devices.net/devices/{device}/messages/events?api-version=2019-03-30`.
pub open spec fn events_uri_text(hub_name: Seq<char>, device_id: Seq<char>) -> Seq<char> {
    "https://"@ + hub_name + ".azure-devices.net/devices/"@ + device_id
        + "/messages/events?api-version=2019-03-30"@
}

/// A device's connection to the hub over HTTPS.
pub struct HttpTransport {
    hub_name: String,
    device_id: String,
    sas: String,
}

impl HttpTransport {
    /// The hub the transport talks to.
    pub closed spec fn hub(&self) -> Seq<char> {
        self.hub_name@
    }

    /// The device the transport speaks for.
    pub closed spec fn device(&self) -> Seq<char> {
        self.device_id@
    }

    /// The shared access signature the transport holds.
    pub closed spec fn signature(&self) -> Seq<char> {
        self.sas@
    }

    /// A transport for a device of a hub, holding its shared access signature.
    pub fn new(hub_name: String, device_id: String, sas: String) -> (t: HttpTransport)
        ensures
            t.hub() == hub_name@,
            t.device() == device_id@,
            t.signature() == sas@,
    {
        HttpTransport { hub_name, device_id, sas }
    }

    /// The URI events are posted to.
    pub fn events_uri(&self) -> (res: String)
        ensures
            res@ == events_uri_text(self.hub(), self.device()),
    {
        let mut uri = "https://".to_owned();
        uri.append(self.hub_name.as_str());
        uri.append(".azure-devices.net/devices/");
        uri.append(self.device_id.as_str());
        uri.append("/messages/events?api-version=2019-03-30");
        uri
    }

    /// The content type of posted events.
    pub fn content_type(&self) -> (res: &'static str)
        ensures
            res@ == "application/json"@,
    {
        "application/json"
    }

    /// The shared access signature.
    pub fn sas(&self) -> (res: &str)
        ensures
            res@ == self.signature(),
    {
        self.sas.as_str()
    }
}

/// A device's connection over AMQP; it holds nothing yet.
pub struct AmqpTransport {}

impl AmqpTransport {
    /// A transport for a device of a hub; the arguments are not kept.
    pub fn new(hub_name: String, device_id: String, sas: String) -> (t: AmqpTransport) {
        AmqpTransport {  }
    }
}

} // verus!
