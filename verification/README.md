# camera-box

A small daemon that turns a Raspberry Pi Zero into a USB camera appliance: it finds
USB cameras, keeps one `ustreamer` process running for each, manages Wi-Fi (hotspot or
client), and serves a password-protected status page with a JSON API.

The decisions the daemon takes are a library verified with Verus; the daemon around it
only reads, writes and runs what the library asks for.

## Layout

| Path | What it holds |
|---|---|
| `src/` | The verified library. |
| `tests/` | Its tests. |
| `app/` | The daemon: I/O, processes, HTTP, and the copies of types that are (de)serialised. |

The library's modules:

| Module | What it decides |
|---|---|
| `auth` | Credentials and sessions. |
| `button` | The factory-reset button: its setting and its hold timer. |
| `camera` | Which video nodes are cameras, and which slot each one has. |
| `cli` | What the program was called to do; the factory reset. |
| `client`, `hotspot`, `net`, `scan` | Wi-Fi: modes, profiles, settings, scan reports, the host name. |
| `command`, `steps` | Commands, and lists of changes to the system. |
| `config` | Configuration and its defaults. |
| `logs` | The buffer of recent log lines. |
| `stream` | The `ustreamer` command, and when it is started, stopped and restarted. |
| `sys` | The system overview. |
| `update` | Versions, checksums and the self-update. |
| `web` | The status, the landing page, and who is served. |
| `text`, `numeral`, `order`, `digest` | Texts, numbers, sorting, SHA-256. |

## How the library and the daemon meet

- A change to the system is a list of steps. A `steps::Course` hands them out one by
  one, takes what came of each, and tells how the list ended; `app/exec.rs` carries
  them out.
- Supervision of a stream, an update and the probing of a camera are state machines:
  each call takes what happened and tells what to do next.
- The time, random bytes and the contents of files are arguments.
