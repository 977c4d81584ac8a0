# cx_switch

Local management of several Codex accounts: a registry of accounts
(`registry.json`), the authentication file Codex reads (`auth.json`), a quota
monitor in the terminal and a small web dashboard.

The crate is written in Verus. Its library (`src/`) holds the logic, each
function with a contract that Verus proves:

- `json` — the JSON tree the library reads and writes.
- `text` — paths, decimal numbers and text comparisons.
- `models` — accounts, plans, quota windows and the registry itself.
- `store` — reading the registry document (version 2) and writing it back.
  As JSON trees, what is written reads back as the same registry when its
  addresses are lowercase and distinct and its used shares are written as
  floats, as in every registry read from a document; turning trees into
  text and back is left to `app/` and is not verified. A loaded registry
  keeps, for each address, the first of its freshest records, in the order
  the addresses first appear.
- `registry` — merging, activating, refreshing, importing and removing
  accounts, choosing the account with the most quota left, and the naming
  and pruning of backups.
- `auth` — the claims inside an authentication file and the latest quota
  snapshot in a session log.
- `base64url` — unpadded URL-safe base64, stated in full, and the proof that
  different bytes never share a text (so different addresses get different
  account files).
- `dashboard` — the monitor's event log, its alerts and its decision to switch.
- `screen` — every line of the monitor's screen, and the keys that stop it.
- `web` — the dashboard page, its routes and the status document.
- `cli` — the command line's commands.

Calls into `base64`, `chrono` and std that the logic needs stand behind small
wrappers. Their contracts say what those functions do as far as it can be
said: base64 is stated in full; `str::to_lowercase` is named, with its effect
on ASCII text stated; the clock and the local time of day are the machine's,
and nothing is promised of their values.

`app/` is the program around the library: argument parsing (`clap`), files,
JSON text (`serde_json`), the terminal (`crossterm`) and the web server
(`tiny_http`). It hands the library plain values and acts on what comes back.
