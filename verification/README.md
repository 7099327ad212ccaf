# winget_automation

A Windows tray monitor for `winget upgrade`, with its logic verified in Verus.

- `src/` is the verified library:
  - `text.rs`: byte-level substring search, line splitting, byte-range
    slicing, whitespace trimming, decimal and UTF-16 encoding;
  - `parser.rs`: the fixed-width upgrade table read into `WingetUpdateOutput`
    rows, with the end-of-table sentinel;
  - `error.rs`: the error types and their messages;
  - `process.rs`: what a finished winget process amounts to;
  - `monitor.rs`: what each check report and each tray event leads to.
- `app/` runs winget, the tray icon, toasts and the registry, and performs
  the actions that the library decides.
- `tests/` runs the library on concrete inputs.
