# rmux

A serial port multiplexer. One server owns a serial port (or a TCP connection
to a device) and shares it: many clients see the output and can type, the
output is logged with timestamps, and a pseudo terminal can stand in for the
port.

## Layout

- `src/` is the library: everything that is decided or computed, written in
  Verus. Each function states in its contract what it returns or changes, and
  public proof functions state what holds across functions.
  - `protocol` frames data and messages on one stream: the encoder, the parser
    and the JSON form of the messages.
  - `log_reader` reads a log from its end; `server::log_writer` makes its lines.
  - `client::timestamper` puts timestamps in front of lines on the terminal and
    keeps colors across them; `client::interactive` and `client::command` are
    the two ways to use a server.
  - `server` holds the answers to clients, the reconnection schedule and what a
    server sets up and removes.
  - `runtime`, `types` and `cli` are paths, records and reports.
  - `entries` reads a JSON object or array entry by entry.
  - `json`, `pattern` and `text` hold the calls into serde_json, regex and the
    standard library, with the contracts that these calls are trusted to meet.
- `app/` is the program: arguments, sockets, files, terminals and timers around
  the library.
- `tests/` runs the library on concrete values.
