# mesi

An IRC channel companion. It keeps the recent log of a channel, answers the
server, runs a small party roster from chat commands (`:mesi [N] command`),
and serves a web page with the log, a search, a message box and a dice roll.

- `src/` is the verified library: text handling (`text`), the IRC side
  (`irc`: channel log, line reading, what each line calls for, ISO-2022-JP
  through `codec`), the roster (`mesi`, with the party-number pattern through
  `pattern`), the web decisions (`webs`), the settings (`setting`) and
  properties that tie them together (`laws`).
- `app/` is the program around it: settings file, TCP session, SQLite store,
  log files and the iron web server.
- `tests/` runs the library on concrete values.
