# consh

A remote shell over TCP, authenticated with ML-DSA keys.

- `src/` is the library, verified with Verus:
  - `msg`: the protocol's messages and their byte layout (frames of a 4-byte
    length and a tagged body; the textual form `<length>:<body>`), with the
    round-trip laws;
  - `cbor`: the CBOR encoding of a challenge's timestamp;
  - `auth`: the handshake that proves ownership of a key (receive the key,
    challenge, answer, check);
  - `encrypt`: the client's ML-KEM key exchange and the framing and buffering
    of the encrypted stream;
  - `sig`: a hybrid Ed25519 + ML-DSA-44 public key;
  - `server`, `client`: the programs' rules (what each message does, whom the
    server admits, when the sender gives up a frame, which user a key logs
    in);
  - `crypto`: the calls into `aws-lc-rs`, with their contracts.
- `app/` holds the sockets, files, terminal handling, threads and the two
  programs' entry points.
- `tests/` runs the library on concrete values.
