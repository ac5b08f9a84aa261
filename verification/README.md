# QuotaGlass

A menu-bar widget that shows how much of their rate limits two coding agents have used, and
what they were used for. The `quotaglass` library holds the logic, verified with Verus; the
application around it (`app/`) does the windowing, the tray, the shortcuts, the file watcher and
all file, process and network access, and hands the library plain values.

Library modules (`src/`):

- `calendar`, `timestamps`, `text`, `json` — civil dates, RFC 3339 timestamps, text helpers and
  one-level JSON values read with serde_json.
- `providers` — the cards the frontend renders.
- `claude_limits`, `claude_refresh` — the usage endpoint's windows, the cache of the last good
  answer with its back-off, the OAuth token choice and the steps of one refresh.
- `claude_stats` — usage statistics from the CLI's stats cache and session transcripts.
- `codex_limits`, `codex_stats`, `rpc` — the Codex app-server's rate limits and usage, the
  local session logs and the JSON-RPC exchange.
- `tally`, `sorting` — keyed counters and stable sorts shared by the statistics.
- `widget`, `login_item` — window placement, motion rules, migration, file-event and tray
  decisions, and the first-run login-item rule.
