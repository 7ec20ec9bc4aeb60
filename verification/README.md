# golioth_rs

A client for the Golioth LightDB cloud store on the nRF9160, with a verified core.

- `src/` is the library, verified with Verus. It builds the CoAP messages, keeps the requests that
  wait for a response, matches responses with them, and reads the modem's signal report. It does no
  I/O.
  - `golioth`: the messages that read, write and observe values
  - `requests`: the pending requests, and how responses find them
  - `packet`: CoAP messages as plain values, and the calls into coap-lite
  - `signal`: the modem's answer to `AT+CESQ`
  - `utils`: paths and tokens
  - `laws`: what holds of the library as a whole
- `app/` is the program on the device: the DTLS socket, the tasks and the modem.
- `tests/` runs the library on concrete values.
