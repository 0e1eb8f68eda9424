# app_blocker

A distraction blocker: a privileged daemon (`blockerd`) that owns the
blocklist and enforces it with a DNS sinkhole and a loopback block page, and
an unprivileged GUI backend that keeps a website library and scheduled
sessions and reconciles them into the daemon's blocklist over a Unix socket
(line-delimited JSON, `{"v":1,"cmd":...}` requests, `{"ok":...}` replies).

## Layout

| Path | What it is |
| ---- | ---------- |
| `src/` | The library, verified with Verus: every decision and data transformation with its contract. |
| `src/text.rs`, `src/strset.rs` | Character-level text operations and an ordered string set, specified over `Seq<char>` / `Set<Seq<char>>`. |
| `src/domain.rs`, `src/cidr.rs`, `src/state.rs` | Canonicalization of blocklist entries, name matching, and the blocklist state with all-or-nothing batches. |
| `src/protocol.rs`, `src/daemon.rs`, `src/client.rs` | The wire messages, the daemon's request handling, the GUI client's errors, backoff and reply handling. |
| `src/dns.rs`, `src/block_page.rs`, `src/netconfig.rs` | DNS question parsing and answers, the block page, and system DNS configuration parsing. |
| `src/config.rs`, `src/schedule.rs`, `src/scheduler.rs` | The library/session model, the recurrence engine, and the reconcile planner. |
| `src/cli.rs`, `src/tray.rs` | The daemon's command line and the GUI's menu-bar actions. |
| `tests/` | Tests of the library on concrete values. |
| `app/` | The daemon binary and the GUI backend's I/O: sockets, SQLite, JSON, `networksetup`, signals. |

The laws the library promises (idempotent adds, removal undoing an add,
atomic rejection, wildcard and apex entries covering the same names,
case-insensitive matching, consecutive calendar days, the reconcile delta
reaching the desired set, ...) are public proof functions next to the code
they are about.
