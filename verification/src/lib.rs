//! Device-side building blocks for talking to an Azure IoT hub over MQTT:
//! topic names, shared access signatures, packet framing and the decisions
//! of the receive loop.

pub mod text;
pub mod sas;
pub mod topics;
pub mod message;
pub mod packets;
pub mod session;
pub mod transports;
pub mod form;
