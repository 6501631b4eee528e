# sharself

Local-network file sharing: devices find each other over mDNS/DNS-SD and
UDP broadcasts, and exchange files over BitTorrent and HTTP.

The library under `src/` is written in Verus. Its functions carry
`requires`/`ensures` contracts over mathematical models (`Seq`, `Map`-like
sequences of entries, views of each record type), and the properties that
relate several operations are stated and proved as `pub proof fn lemma_*`.

## Layout

- `src/common`: configuration records, errors, TXT records, decimal and
  text helpers, the clock.
- `src/mdns`: DNS messages, their wire format (encode/decode with name
  compression), queries and responses.
- `src/discovery`: device records, the discovery service's state, the
  registrar's announcement and answer packets, subnet-scan targets,
  broadcast announcements and the device table of the discovery manager.
- `src/torrent`: bencode, torrent metadata, piece bookkeeping and storage
  plans, the peer wire protocol, what a peer connection tracks, the
  decisions of the seeder and downloader, and the metadata service.
- `src/sdk`, `src/sdk_main.rs`, `src/sdk_ffi.rs`, `src/ffi.rs`: the SDK's
  state, events, server and transfer steps, and the codes of its C
  interface.
- `src/ui`: the file browser and the terminal interface's key handling.
- `app/`: the program around the library: sockets, HTTP, files, the
  terminal, the C interface, and the JSON forms of records.
- `tests/`: tests of the library on concrete values.
