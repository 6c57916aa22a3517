# durthang

A terminal MUD client.  The library under `src/` holds its logic, verified
with Verus: the configuration model, the telnet stream and connection state,
ANSI styling, the automap, the widget value store, the screen state machines
(server selection, game view, sidebar) and the application's handling of
network events and game actions, together with the geometry and texts the
screens draw.

- `src/` — the verified library (`durthang`).
- `tests/` — tests run against the compiled library.
- `app/` — the program: command line, terminal, rendering with ratatui, the
  tokio network task, the configuration and map files and the OS keyring.
