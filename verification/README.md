# oma-browse

The core of an agent-drivable browser, verified with Verus: what the browser
remembers, what it decides, and how its command line and its windows talk to each
other. Drawing pages is the engine's business and is not here.

## Layout

- `src/` is the library. Every function in it is verified, but for the few small ones
  that call outside code, whose contracts are taken on trust (see below). What each
  does is stated in its contract, over views of the types and spec functions; the
  promises that span several functions are the public proof functions whose names
  begin with `law_`.
- `app/` is the program around it: the environment, files, sockets, the settings as
  the config file writes them, and the command graph.
- `tests/` runs the library on concrete values, with the outside crates linked in.

## What is in the library

| Modules | |
|---|---|
| `text`, `number`, `list`, `table`, `pathname`, `json`, `weburl` | the ground the rest stands on |
| `history`, `bookmarks`, `permissions`, `downloads`, `session` | what is remembered, and the files it is kept in |
| `config`, `profile`, `paths`, `keys`, `layout`, `engine` | settings, chords and where things are |
| `policy`, `interstitial`, `crash`, `blocker`, `scripts`, `data` | what a page may do, and what is shown in its place |
| `inspect`, `hints`, `favicon`, `progress`, `shot`, `fuzzy` | looking at a page, and finding things |
| `control`, `server`, `mcp`, `follow`, `launch`, `dispatch` | the way from a command line to a window |
| `state`, `commands` | one window, and what each command makes of it |

## What is taken on trust

What is called from outside stands behind small functions, each with a
contract that says what it is taken to do: `url` (in `weburl`), `serde_json` (in
`json`), `toml` (in `config`), and the standard library where Verus has no
specification of it (in `text`, `hints` and `fuzzy`).
