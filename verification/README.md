# restrictions_server

A small website and chat server. The library in `src/` carries its proofs:

- `text`: UTF-8 decoding, splitting into pieces and lines (as `str::split` and
  `str::lines` do), trimming, decimal numerals.
- `http`: the request parser (request line, header fields, body) and the header map.
- `routes`: where a request goes, the header of a file reply, listener advice.
- `json`: JSON strings and numbers as serde_json writes them, compact arrays, and
  the arrays serde_json reads from a history line.
- `chat`: messages, their JSON frames, the history file's text, the anti-spam
  window and the clipping of message texts.
- `rules`: the rules' frame, the rule rotation step and the rules' processing.
- `settings`: the server settings.
- `laws`: properties across operations, proved.

`app/` holds the program: sockets, files, threads, the WebSocket plumbing and
the loops that drive the library's step functions.
