# azure_iot_mqtt

A device-side client for an Azure IoT hub, with its logic verified by Verus.

- `src/` is the verified library:
  - `text`: string building, decimal formatting, prefix and separator search;
  - `sas`: shared access signature tokens;
  - `form`: reading a token's fields back as form data;
  - `topics`: the hub's topic names and filters;
  - `message`: messages and property maps;
  - `packets`: the MQTT packets a device sends;
  - `session`: the session state and the receive loop's decisions;
  - `transports`: the HTTP and AMQP transports' addressing.
- `app/` drives sockets, TLS, timers and tasks around the library.
- `tests/` exercises the library against the outside crates it calls.
