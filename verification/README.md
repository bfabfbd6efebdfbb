# zm-mux

A terminal multiplexer for AI agents: split panes and tabs, an automation
socket with a command-line client, a tmux-compatible shim that lets agents
which believe they run inside tmux split and drive panes, desktop
notifications from OSC 9/777, and a GPU-rendered window.

## Layout

- `src/` — the library, verified with Verus: the split tree and tabs
  (`mux`, `pane_tree`, `tabs`, `session`), key bindings and keyboard
  encoding (`keybinding`, `keys`), settings (`types`, `config`), the
  automation commands and their parsers (`ipc`, `cli`, `shim`, `agent`),
  the agent backend protocol and its context registry (`rpc`, `backend`,
  `mux_api`), the terminal model's pure parts (`osc`, `palette`, `term`,
  `selection`, `raster`, `runs`), and the isTTY probe's report parsing (`probe`).
  Every public function states its result in `ensures`; the laws that span
  several calls are public proof functions named `law_*`.
- `tests/` — tests run against the compiled library.
- `app/` — the executable: window and GPU rendering, pseudo-terminals,
  sockets, files, the MCP server, and the serde forms of the library's
  types. One binary serves as `zm-mux`, `zm`, `tmux`, `zm-mux-mcp`,
  `zm-probe`, `zm-probe-harness` and `zm-rawtest`, chosen by the name it is
  started under.
