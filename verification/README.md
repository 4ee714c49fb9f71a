# R11 Ultra battery tray, verified core

The battery logic of a Windows tray monitor for the Attack Shark R11 Ultra
mouse, written in Verus and proved against its contracts.

- `src/protocol.rs`: the HID battery request and the decoding of replies.
- `src/device.rs`: battery readings, the choice and order of HID
  collections, poll results and the request/reply transaction as a state
  machine.
- `src/icon.rs`: pixel-glyph rendering of the percentage, text colors, the
  icon cache and the theme cache.
- `src/tray.rs`: display keys, status texts, refresh decisions, menu actions
  and the polling worker's memory of the last reading.
- `src/startup.rs`, `src/logging.rs`, `src/text.rs`: start commands, log
  rotation plans and decimal text.
- `app/`: the Windows program around the library (HID access, registry,
  tray UI, threads, files, logging set-up).
