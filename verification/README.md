# localpost

Share files between machines of one local network. `localpost upload FILE`
starts a daemon that serves the file under a three-word key; `explore` finds the
daemons of the LAN and lists what they serve; `list` and `stop` manage the local
daemon.

- `src/` is the verified library: the ordered string map behind every table
  (`table`, `lex`), the daemon's answers to local and network requests
  (`daemon`), subnet enumeration and the gathering of discovery answers
  (`explore`), key generation (`keys`), the message types (`ipc`, `tcp`, `udp`),
  the settings (`config`) and what the front end makes of the daemon's answers
  (`commands`).
- `app/` is the program around it: command-line parsing, sockets, files, JSON.
- `tests/` runs the library on concrete values.
