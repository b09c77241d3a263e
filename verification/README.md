# largitdata-wifi-pool-ui

A server that watches and drives a pool of Android phones over `adb`:
screenshots, taps and key presses, a scrcpy video stream, SIM switching
through helper scripts, and collection of forwarded SMS into SQLite.

## Layout

- `src/` — the verified library (Verus). It holds what the server reads and
  decides: the `adb devices -l` and `wm size` parsers, the `adb` and script
  argument lists, the scrcpy control packets and handshake, the reading of
  switch-script reports, the device/number table and its import plan, the
  layouts of forwarded SMS, the per-device maps and the screenshot cache, the
  background rounds (capture only while someone watches; `adb reverse` once per
  device), the port counters and the settings. `serde_json`, `base64` and `mime_guess` are
  called through small trusted wrappers in `json.rs`, `screen.rs` and `web.rs`.
- `app/` — the executable: the axum HTTP and WebSocket server, process and
  network I/O, the SQLite store, and the serde shapes of the API.
- `tests/` — tests of the library on concrete values.
