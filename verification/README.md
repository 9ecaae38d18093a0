# cc_switch

The core of a desktop switcher for coding agents, verified with Verus.

- `src/` decides: which account an auth file belongs to, what a switch or a
  rollback does to which file, how settings are changed section by section, what
  a backup holds and how a restore goes on after each step, which turns and
  daily totals make up the usage of an agent. Every function there has a
  contract over plain sequences, and what holds of several functions together is
  stated in the `law_` functions.
- `app/` reads files, runs SQL, takes locks and calls the core. What belongs to
  the application as a whole, such as its directories and its database, comes
  through the traits in `app/host.rs`.
- `tests/` runs the core on concrete values.

| Modules | Subject |
|---|---|
| `text`, `numbers`, `paths`, `error` | texts, saturating arithmetic, paths, failures |
| `json`, `yaml`, `clock`, `hash` | documents, times and digests, read and written by other crates |
| `accounts`, `registry`, `capture`, `switch`, `switch_laws`, `restart` | Codex accounts |
| `state_db` | where Codex keeps the state of its threads |
| `sections`, `section_laws`, `dsh`, `dsh_laws`, `dsh_backup` | the settings of DeepSeek Harness |
| `backup`, `restore`, `restore_laws` | backups of Maka's configuration |
| `insights`, `summary` | metrics of Codex session logs |
| `usage`, `insert`, `sync`, `sync_laws`, `harness` | usage records of desktop agents |
| `cindy`, `cindy_read`, `cindy_ledger`, `cindy_assign`, `cindy_plan`, `cindy_settle`, `cindy_sync`, `cindy_laws`, `cindy_totals`, `cindy_sums` | Cindy's turns and daily totals |
| `spool` | usage that is handed on |

Dollars and durations with a fraction are kept as the bits of IEEE 754 doubles
in `src/`; `app/` adds them up.
