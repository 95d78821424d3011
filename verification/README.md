# frr_bootc

The verified core of an FRR router appliance: a small VM whose routing and
network configuration come from mounted ConfigMaps, and whose console shows a
dashboard instead of a login prompt.

`src/` is a library in Verus. It decides and computes; it reads no file, opens
no socket and starts no program.

- `redact`, `vty`, `validation`: redacting BGP passwords in what is logged,
  the framing of FRR's vty protocol, and the dialogue that checks a configuration
  without committing it.
- `frr_sync`, `network_sync`, `source`, `daemon`, `logger`: the two
  configuration syncs, one step at a time. Each step says what to log and what
  to do next; what came of it is handed back as an event.
- `net`, `system`, `systemd`, `frr`, `snapshot`: what the dashboard shows, from
  what the system's files and tools say.
- `state`, `panels`, `ui`, `scene`, `plain`: the dashboard's tabs and keys, and
  what is drawn where on a terminal, or printed without one.
- `text`, `order`, `double`, `process`: texts, orderings, and the arithmetic of
  doubles on integers.
- `outside`: what is taken on trust from the standard library, `nmstate` and
  `ratatui`.

Functions whose names start with `law_` state what holds of the library as a
whole.

`app/` is the programs around it: files, sockets, commands, the terminal.
`tests/` runs the library.
