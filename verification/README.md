# consensus_bft

A BFT consensus service that runs beside a BFT core. The core decides on
proposals, votes and commits by block hash; the service signs what the core
decides, checks the signatures, senders and locks of what other nodes send,
collects votes and proposals, builds the proof of each committed block, and
frames blocks and signed messages as bytes.

- `src/` is the library, verified with Verus: the collections of votes and
  proposals (`collection`, over the LRU caches modelled in `lru`), the
  service state and its steps (`consensus`), the messages and their
  encodings (`types`, `core_types`, `rlp_codec`, `rlp_decode`), byte
  framing, vote weights and proof checks (`util`), and the entries of the
  write-ahead log and their replay (`wal`). Each step of the service
  takes a message and returns the messages for the BFT core and for the
  service itself as `Action`s.
- `app/` runs the service on a thread of its own around the BFT core of the
  `bft-core` crate: it receives the messages on channels, hands them to the
  library, and performs the actions; it keeps the write-ahead log on disk
  and replays it when the service starts.
- `tests/` runs the library on concrete messages.
