# small_talk

A small chat server and terminal client. The library (`src/`) holds the
protocol logic and its proofs; `app/` holds the program around it.

- `framing`: the lines of a request buffer, the removal of the `Payload:` marker.
- `protocol`: status and request kinds, responses and their wire text, reading a
  request's sections, answering a parsed request, the round-trip law.
- `dto`: the header and its text; commands, their names and how each is handled.
- `payload`: response bodies (JSON objects of string fields).
- `channel_manager`, `dispatch` (in `lib.rs`): who receives an answer.
- `components::app`: the line editor and key handling of the terminal client.
- `app/`: sockets, threads, the SQLite user store, JSON parsing with serde and
  the ratatui screen.
