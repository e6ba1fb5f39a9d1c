# bittorrent_rustico

A BitTorrent client whose core is verified with Verus.

## Layout

- `src/` — the verified library.
  - `bencode` — decoding and encoding of bencode, with the law that decoding an encoding
    gives the value back.
  - `metainfo` — building a torrent's metainfo from its bencoded bytes.
  - `config` — reading the client's configuration from the text of its config file.
  - `peer` — the peer wire protocol: messages and their frames, bitfields, the handshake,
    and the state of a connection with a peer.
  - `piece_manager` — which piece to ask of which peer, as a state machine over a
    mathematical model (`model.rs`), with its laws (`laws.rs`).
  - `piece_saver`, `peer_connection_manager`, `logger` — the messages of the workers and
    the decisions they take.
  - `http` — the text of tracker requests and responses.
  - `download_manager`, `client` — pieces on disk and peer ids.
- `app/` — the program around the library: files, sockets, threads and the loops of the
  workers.
- `tests/` — tests of the library.
