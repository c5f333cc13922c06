# p2p_local

A barebones gossiping peer for a single machine. Start a node with

    ./peer --period=5 --port=8080

and let further nodes join it with

    ./peer --period=6 --port=8081 --connect="127.0.0.1:8080"

Neither the period (seconds between gossip rounds) nor the port may be 0.

Layout:

- `src/` – the verified library (Verus):
  - `text.rs` – splitting, comparing, trimming and number reading on characters;
  - `cli.rs` – the startup command grammar and what a command means;
  - `messages.rs` – peer addresses, handshake kinds, requests, answers and peer sets;
  - `network.rs` – the decisions of a node: handshake answers, the set of
    connected peers, gossip rounds, and the laws they keep.
- `app/` – the program: terminal input, bincode encoding and the tokio networking.
- `tests/` – tests of the library.
