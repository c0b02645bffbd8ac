# refill

Refill runs several official Codex accounts and third-party API providers
behind one `~/.codex`: each is a profile under `~/.codex-profiles/<id>`,
`~/.codex` links to the active one, and sessions, desktop state and
workspaces are shared between all of them. Providers that only speak Chat
Completions are reached through a local proxy that converts to and from
the Responses API.

The library in `src/` holds the logic, verified with Verus:

- `switch`, `exchange`: the switch between profiles, saving the current
  account, and one request through the local proxy, as state machines
  that the application drives.
- `proxy`, `json`: conversion between the Responses and Chat Completions
  formats, over a JSON model.
- `provider`, `toml`, `slug`, `connection`: provider profiles, their Codex
  configuration, directory names, and the connection test.
- `account`, `claims`, `dashboard`, `paths`: account facts from login tokens,
  what the dashboard shows, and where files live.
- `sharing`, `workspace`: preparing profiles and sharing history, desktop
  state and workspace lists.
- `usage`, `summary`, `order`, `text`: plan-usage windows, the cost
  dashboard, sorting and text helpers.

`app/` is the desktop shell: Tauri commands, file system, keychain, the HTTP
proxy server, and the floating-point usage percentages.
