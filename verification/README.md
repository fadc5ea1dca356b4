# nsr-ssh

An SSH terminal manager ("No Subscription Required"): a vault of hosts kept in
step with `~/.ssh/config`, tabs whose panes can be split, terminal emulation,
colour themes and an update check.

The crate is written in Verus. Its library (`src/`) holds the logic, each public
function with a contract proved by Verus:

- `text`: trimming, lines, decimal numerals, lowercasing;
- `host`, `ssh_config`, `config_laws`: the vault's hosts, reading and writing
  the `~/.ssh/config` format, and the laws that a written file reads back as the
  hosts and that a sync keeps the user's own entries;
- `pane`: pane layouts (split, close, resize) and their laws;
- `session`: the registry of open sessions, the steps of an SSH session and what
  the interface is told at each, the keys tried at login;
- `workspace`, `panels`, `connect`: tabs, the vault's list and search, the tab
  bar, the quick-connect dialog;
- `terminal`, `theme`: screen buffers, the colours of cells, keys, themes;
- `update`, `icon`, `plugin`, `id`: the version check, the window icon, plugins,
  fresh identifiers.

Calls into outside crates (`uuid`, `vt100`, `image`, `str::to_lowercase`) go
through a few small functions whose contracts are trusted; each says in its
documentation what it claims.

`app/` is the desktop program around the library: the egui window, the Tokio
runtime, SSH over `russh`, files, JSON and TOML, and the network. `tests/` runs
the library on concrete cases.
