# harddrive-party

Peer to peer filesharing over QUIC. Each peer is known by its Ed25519 public key. Peers find each
other by exchanging announce addresses, by gossip over existing connections or on the local network,
and get through NAT by hole punching. They query each other's file index and download files.

The library under `src/` holds the rules of all this as verified Rust. The program under `app/` does
the input and output around it: sockets, the key-value store, the file system, the HTTP server of the
user interface and the command line.

## The library

| Modules | What they hold |
| --- | --- |
| `peer_id`, `announce_address`, `wire_messages` | Identities, announce codes and signed announcements |
| `shared_state`, `connections` | Who we are connected to, what a connection or an announcement changes, NAT traversal, retries, certificates |
| `shares`, `paths`, `chunker`, `rpc` | The index of shared files, queries of it, and uploads |
| `wishlist`, `wishlist_tables`, `downloads`, `peer` | Requested files, their records, what the tables of records hold, and downloads |
| `hdp`, `index_cache`, `ui_messages`, `errors` | Commands of the user interface and what answers them |
| `frames`, `protocol`, `run`, `cli` | Framing of messages, the stream protocol with its handshake, and what the command line makes of its arguments |
| `discovery` | Topics: encrypted announcements over MQTT, Waku and mDNS |
| `bytes`, `text`, `base64_text`, `hex_text`, `net`, `time`, `table` | What the others are made of |

Contracts are stated over mathematical views of the data. Properties that relate several operations
stand beside them as public proof functions whose names begin with `law_`: that an announce code reads
back as the address it was made from, that of two peers exactly one connects, that a peer who was
disconnected by the user stays so until the user asks for it again, that a peer cannot add files
outside of what was asked for to a download, and others.

What the library takes from other crates, such as base64 text, hashes, ciphers, signatures,
certificates and the cache of answers, goes through small functions marked `external_body`. Their
contracts say what is relied on.
