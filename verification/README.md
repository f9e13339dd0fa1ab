# herdr-updater

Keeps Herdr and its plugins current across a fleet of machines, without
overwriting local forks, crossing protocol boundaries, or letting a failed
network call look like "up to date".

The decisions are a Verus library: every function under `src/` carries a contract
that Verus proves. The program under `app/` runs commands, reads and writes files
and draws the terminal, and asks the library what any of it means.

## Layout

| Module | What it decides |
| --- | --- |
| `version`, `herdr` | How two versions order, and whether core may be updated. |
| `plugins` | How an installed plugin relates to upstream, and what follows. |
| `config`, `matching`, `duration` | Settings: parsing, misspellings, allow rules. |
| `history` | The append-only record, rollback and resume. |
| `fleet`, `sync` | Drift between machines, and bringing them to a desired state. |
| `catalog`, `store` | The plugin marketplace and its keyboard-driven screen. |
| `schedule` | When a background run is due, its lock, and the native schedulers. |
| `doctor` | The state of the updater's own environment. |
| `refcache` | Answers of the GitHub API that may be used again. |
| `cli`, `completions` | Commands, options, exit codes and shell completions. |
| `clock`, `exec`, `json`, `location` | Time, subprocesses, JSON lookups, paths. |
| `text`, `textmap`, `order` | Texts, maps by text, and stable sorting. |

Functions named `law_*` state what holds across functions: that core is never
downgraded, that only a plugin that is behind is updated, that nothing changes
under the `notify` policy, that a rollback leads back to the commit before it.

## What is trusted

`String::push`, the debug form of a text, the system clock, the key list of a
parsed TOML table, and lookups in a parsed JSON text. Each is declared next to
where it is used, with what is claimed of it.
