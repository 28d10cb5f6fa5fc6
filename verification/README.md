# beacon

A verified library for flashing Teensy boards: it reads Intel HEX firmware images,
identifies the boards an image is built for, recognises Teensy boards among USB HID
interfaces and serial ports, plans the HalfKay bootloader reports of an upload, and holds
the state and decisions of the desktop front end (which file and board are chosen, what the
status and log say, when an automatic upload starts).

Layout:

- `src/` — the library, verified with Verus:
  - `tnc_rs/ihex.rs`, `tnc_rs/firmware.rs` — HEX records and images, extraction, model
    identification;
  - `tnc_rs/model.rs` — board models;
  - `tnc_rs/device.rs` — USB ids, device list built from HID interfaces and serial ports;
  - `tnc_rs/upload.rs` — HalfKay settings and reports, bootloader choice, reboot targets;
  - `tycmd.rs` — the `tycmd` sidecar: output parsing, resource paths, command lines;
  - `session.rs` — front-end state machine;
  - `view.rs` — what the window shows of that state;
  - `text.rs` — character-sequence helpers and their specifications.
- `app/` — a command-line program doing the I/O around the library (hidapi, serialport,
  files, processes).
- `tests/` — tests of the library.
