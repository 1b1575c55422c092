# torrent_client

A small leech-only BitTorrent client (BEP 3). The library in `src/` is written
in Verus: its functions carry contracts and are proved against them. The few
calls into std, `sha1` and the opaque error types that they rest on are
trusted items (marked `external_body` or declared as outside types), each with
a doc comment saying what is assumed.

- `message`: peer wire messages, their encoding and decoding (with the
  round-trip laws).
- `handshake`: the 68-byte handshake.
- `bitfield`: the peer's piece bitfield.
- `piece_proggress`: block bookkeeping for one piece (requests, received
  blocks, SHA-1 check).
- `peer_connection`: the decisions of a peer session (waiting for the
  bitfield, downloading one piece) as steps over received messages.
- `downloader`: the shared piece table (which piece to fetch next, what to do
  with the outcome of an attempt, assembly). Each piece is free, reserved by a
  peer, or stored; a stored piece always passed its SHA-1 check, and the file
  is assembled only once every piece is stored.
- `torrent`, `tracker`, `peer`: torrent metadata, tracker announce URL, the
  compact peer list.

`app/` holds the program: file and network I/O, tokio tasks, serde parsing,
the random peer id, and progress output.
