# ZaiMeter

The data layer of a menu-bar meter for the z.ai GLM Coding Plan: the 5-hour token
limit, the weekly token limit and the built-in tools quota.

- `src/` is the library. Its contracts are proved with Verus.
  - `providers` decodes the quota API's answer and words its failures.
  - `usage` holds a usage report and what is recorded of it.
  - `celebration` detects a free flush of the weekly counter and keeps the party up.
  - `status` is what the menu bar shows, `tier` the downgrade comparison in it, and
    `chart` the reset points of the 24-hour chart.
  - `agent` says what the polling agent does next and what it notifies.
  - `clock` computes with RFC 3339 timestamps, through chrono.
  - `double` computes with binary64 numbers on their bits; `json` and `text` hold JSON
    values and text helpers.
- `tests/` runs the library with the real crates.
- `app/` is the agent around the library: files, network, the loop. It is generic in
  the program that brings configuration, credentials and the history database.
