# yap

YAP ("Yet Another Protocol") is a small peer-to-peer messaging system over
QUIC. This crate is its library, verified with Verus, plus the terminal
client around it.

- `src/` — the verified library:
  - `wire`, `packet`, `identity`, `error`: the binary wire format (type byte,
    big-endian length prefixes, UTF-8 text) with encode/decode round-trip
    laws;
  - `json`: the packets of the JSON wire form (serialised by the client);
  - `text`, `cli`, `commands`, `input`, `output`: what a typed line means,
    what the client does for it, and the lines it shows;
  - `local_identity`, `chat`, `peer`, `peer_manager`, `registry`, `order`:
    usernames, peer tables and the order peer names are listed in;
  - `events`, `node`, `core_error`, `config`: how a node reacts to packets
    and peers, and the port it starts on.
- `app/` — the client program: prompt, QUIC networking (quinn, rustls,
  rcgen), JSON (serde), error messages (thiserror).
- `tests/` — tests of the library.
