# Hotaru

A tray monitor for Komari and 极简探针 (`monitor-probe/monitor`) backends, with
its decisions written in Verus and proved.

- `src/` is the library: its functions state what they return in `ensures`, and
  Verus proves it; only of the time that the machine's clock tells is nothing
  said. No function in it panics.
- `tests/` runs the library on concrete values, with the outside crates linked.
- `app/` is ordinary Rust around the library: requests, sockets, files, threads,
  the tray, the windows and the icon's pixels.

## The library

| Module | What it states |
|---|---|
| `figure`, `arithmetic`, `rounding`, `decimal` | binary64 values by their bit patterns: comparison, the four operations with rounding to nearest, conversion, decimal text, and what rounding keeps |
| `text`, `order`, `table`, `calendar` | texts, stable sorting, sorted tables, dates |
| `json`, `urls`, `version`, `clock` | what is taken from `serde_json`, `url`, `semver` and the system clock |
| `models` | settings, snapshots, sums over nodes, the icon's state |
| `wire`, `http` | payloads and replies of the backends |
| `providers` | both backends: detection, nodes, ping records, and sessions as state machines |
| `ping`, `state`, `engine` | ping summaries, history, shared state, publishing |
| `commands` | what the pages ask for |
| `tray`, `readout` | icon marks, texts, menu, clicks |
| `windows`, `window_geometry`, `settings` | popover and panel rules, stored places and preferences |
| `monitor`, `mock` | the live session's helpers and a small backend to try it against |

Public proof functions state what holds across functions, such as that a
history never holds more than six hours, that a restored window lies on a
screen, or that the icon's slash means exactly that nothing can be reached.

## What is taken on trust

Calls into outside crates go through small wrappers whose contracts are not
proved: `read_json`, `json_get`, `json_list`, `json_text`, `json_natural` and
`json_figure` (`serde_json`), `write_json` (`serde_json`), `split_url` (`url`),
`read_version` and `compare_versions` (`semver`), `since_epoch` and
`whole_millis` with `SystemTime::now` (the clock), and `String::push`. Each says
in its doc comment what is claimed.

## The program

`app/` builds on Tauri 2 for macOS and Windows, with its autostart and
single-instance plugins and, on macOS, the `objc2` crates; these are needed
beside the dependencies in `Cargo.toml`. Elsewhere it runs in a terminal. With
the argument `mock-komari` it serves a small Komari backend.
