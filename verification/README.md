# moq

A verified core of a Media over QUIC (MoQ) stack, written in Verus.

- `src/` is the library. Every function there is verified against its
  `requires`/`ensures`; the few calls into other crates (`bytes`, `url`,
  `ring`, `hex`, `aws-lc-rs` and parts of `std`) go through small trusted
  wrappers whose contracts are stated next to them.
  - `coding`, `message`: the wire format (QUIC variable-length integers,
    strings, the priority byte, group and subscribe messages), with
    round-trip lemmas.
  - `announce`, `origin`, `broadcast`, `track`, `frame`, `table`: the
    pub/sub state machines.
  - `publisher`, `session`: stream priorities, which groups are served,
    and the handshake decisions.
  - `media`, `catalog`, `room`: reading and writing media tracks.
  - `token`, `auth`, `relay`: keys and claims, relay authentication, and
    relay routing and clustering.
  - `native`: logging levels, TLS settings, certificate fingerprints, and
    what a client or server decides when a connection starts.
- `tests/` exercises the library on concrete values.
- `app/` is the command-line tool for keys and tokens, and the file and
  JSON/TOML handling around the library.
