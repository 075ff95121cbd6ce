# corsair_control

A Linux driver core for the Corsair Ironclaw family: device discovery, button
remapping profiles, the input engine's decisions, the Wireless SE's Bragi
control channel and the OpenRGB lighting backend. The library is written in
Verus; every function in `src/` carries a contract that Verus proves.

Layout:

- `src/text.rs` — string operations with their mathematical definitions.
- `src/strmap.rs` — an ordered string-keyed map, viewed as a `Map`.
- `src/sorting.rs` — stable sorting by a string key.
- `src/model.rs` — devices, profiles, validation, device defaults.
- `src/discovery.rs` — which Corsair devices sysfs describes.
- `src/bragi.rs` — Bragi packets, replies, modes and extended button reports.
- `src/input.rs` — event names, key names, mappings, the engine's state.
- `src/rgb.rs` — OpenRGB device listing, colour payloads, command lines.
- `app/` — the program: sysfs and device I/O, uinput, reader threads, the
  configuration file and the command loop.
- `tests/` — tests of the library on concrete values.
