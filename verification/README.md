# aftp

An FTP client of which the decisions are verified with Verus.

`src/` is the library. It owns no connection: each FTP command is an exchange, a
script of steps, that asks its driver for one action at a time and is told of the
event in which the action ended.

- `ftp`: the commands of a session, each as the exchange that it takes.
- `exchange`: how an exchange goes on after each event.
- `reply`: how the lines of a reply are put together.
- `answers`: what the text of a reply or a listing says.
- `patterns`, `calendar`: what is asked of the `regex` and `chrono` crates.
- `text`, `types`, `status`, `data_stream`: the values that these work on.
- `laws`, `answer_laws`, `session_laws`: what holds of whole exchanges, of the texts in
  them, and of whole sessions.

`app/` is the asynchronous client over `async-std` and `async-tls` that performs the
actions. `tests/` runs exchanges against scripted and simulated servers.

What is not proved is stated at the few functions that call other crates:
`patterns::captures`, `calendar::utc_seconds` and the specification of
`String::push` in `text`.
