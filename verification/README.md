# cin_sync

A daemon that keeps two machines on one network in sync and offloads large
files from the mobile one to the always-on hub. The decisions are a Verus
library, proved against their contracts; `app/` runs the processes.

- `src/config.rs` — configuration types, defaults, `~` expansion, where the
  configuration file is looked for.
- `src/path.rs` — Unix paths as text: components, file names, joining.
- `src/net.rs` — arguments of `ping`, `rsync` and `ssh`; shell quoting and the
  proof that a shell reads it back; reading `sha256sum` output.
- `src/sync.rs` — the rsync transfers for each synced path.
- `src/offload.rs` — which files are offloaded, where they go in the vault,
  hashing, and when the local copy is deleted.
- `src/daemon.rs` — the state machine that decides, at each check of the peer,
  which hooks, syncs and offloads run, with its laws.
- `app/` — the program: reads the TOML file, runs commands, walks directories.
