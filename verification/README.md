# MicTrayRs

A Windows tray utility that mutes and unmutes the microphone: a tray icon with a
menu, a small always-on-top overlay, global hotkeys (Ctrl+Alt+M, Ctrl+Alt+O),
and a diagnostic mode (`--diag`) that checks the whole read–write–read-back path.

## Layout

- `src/` — the verified library (Verus):
  - `audio` — device and snapshot model, the toggle rule, the read-back verdict
    after a mute write, the placeholder backend;
  - `config` — the `config.ini` parser and writer, with the round-trip law;
  - `envinfo` — the environment self-check report and its text;
  - `diag` — the `--diag` report, and what a new snapshot or a poll changes;
  - `tray` — tooltip and menu texts, the menu model, menu-id dispatch;
  - `mic` — the three icon states and their colours;
  - `png` — an RGBA canvas and a PNG encoder (CRC-32, Adler-32, stored zlib);
  - `preview` — layout of the icon preview sheets;
  - `cli`, `log`, `text` — command line, log line text, string helpers.
- `app/` — the program: Slint window, tray and hotkey plumbing, the WASAPI/COM
  backend, file and registry access, and the floating-point icon renderer.
- `tests/` — tests of the library.
