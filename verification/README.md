# persea

A gateway for remote desktops and terminals. Browsers reach SSH, RDP, VNC,
SPICE, Proxmox VE, web and container sessions through guacd; the gateway decides
who may open what, keeps the sessions and ends them.

The decisions are a Verus library under `src/`: its public functions carry
contracts, and Verus proves them.

| Module | What it decides |
| --- | --- |
| `protocol`, `guacd` | the Guacamole wire format, its streaming parser, joining a connection |
| `session::manager` | the lifecycle of sessions, their tokens, viewers, events and clean-up |
| `session::create`, `session::plan`, `session::flow` | admission, what each kind of session asks of guacd, and the steps of its setup |
| `session::network`, `session::names` | allowlists, client names, file and user names |
| `session::credentials`, `session::events` | retained logins, the event feed |
| `session::sweep`, `session::reaper`, `session::gauge` | the reaper's rounds, idle containers, the gauge of active sessions |
| `rbac`, `role` | permissions, groups, custom roles |
| `oidc`, `password`, `providers_db` | single sign-on, password policy and history, stored providers |
| `pve` | what the Proxmox VE API answers |
| `recording`, `migrate` | rotation of recordings, copying a scope between backends |
| `server`, `branding`, `metrics` | decisions at start, response headers, pages, counters |
| `text`, `time`, `json`, `net_util`, `config`, `outside` | what the others are built on |

Functions of other crates stand behind contracts that are not proved; where
chance or the machine decides, such a contract says only what always holds. Each
is marked `external_body`, and its doc comment names the function and says what is
claimed of it; most of them are in `outside`.

`app/` is the program around the library: arguments, files, sockets, the
database and HTTP. `tests/` runs the library with the real crates.
