# filesend

Verified core of a desktop tool that sends files, directories and clipboard
text to another machine on the local network, and finds such machines by
multicast service discovery.

- `src/` — the library, verified with Verus:
  - `wire.rs`: frame headers (payload length as big-endian `u64`, kind tag)
    and the kinds of payload;
  - `msgpack.rs`: the MessagePack encodings of the payload fields and the
    calls into `msgpacker` that write and read them;
  - `messages.rs`: file, directory and text payloads and their frames;
  - `transfer.rs`: chunk plan and progress/rate reports of a transfer;
  - `discovery.rs`: the peer announced by a discovery answer;
  - `peers.rs`: the set of peers shown, one per address;
  - `ui.rs`: the state of the user interface and its commands;
  - `text.rs`: character-level string helpers.
- `tests/` — tests of the library on concrete values.
- `app/` — the program around it: window, sockets, files, clipboard,
  discovery service and tray icon.
