# qalam

The verified core of a peer-to-peer chat built on libp2p.

`src/` is the library, checked by Verus:

- `room`: room identities (SHA-256 of `room:<name>`, or of `dm:` and two peers'
  bytes in order), their topic names, chat messages;
- `direct`: the direct request/response protocol — CBOR messages and their
  length-prefixed frames, with encoders whose output decodes back to the input;
- `cbor`: the part of a CBOR item the protocol reads, and lookups by key path;
- `text`: joining message lines with `\r\n` and splitting received text into lines;
- `qalam`: the state the event loop decides by (who this peer is, which rooms it
  has joined) and the decisions for commands, gossip messages and direct messages;
- `peer`, `digest`, `hex`, `time`, `utils::keypair`: peer identities, hashing,
  hexadecimal text, timestamps, key file names.

`app/` is the network side: the libp2p swarm and its event loop, the
request-response codec that reads and writes frames, and the key store on disk.
