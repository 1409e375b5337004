# bitchord

A Chord ring over an 8-bit identifier space that acts as a tracker for shared
files, written in Verus. The library (`src/`) holds every decision of the
protocol, with contracts proved by Verus:

- `ring`: clockwise intervals on the ring (`is_between`).
- `store`: a string key-value store with unique keys.
- `node`, `message`: a member's state and the messages members exchange.
- `chord`: routing (`find_successor_rpc`), stabilisation, finger maintenance,
  healing round crashed neighbours (`heal_successor`, `check_predecessor`),
  leaving and rejoining, and answering every request (`handle_message`).
- `digest`: SHA-1 keys and their hex form (through the `sha1` and `hex` crates).
- `discovery`: a member's identity and the join handshake.
- `torrent`: describing and publishing files, and downloading them chunk by
  chunk with hash checks and round-robin over seeders.

`app/` is the program around it: TCP and UDP transport, files, JSON, threads.
It performs the actions the library returns and hands back what arrived.
