# printer_monitor

The verified core of a desktop monitor for thermal (ESC/POS) printers at
points of sale: it lists the printers of the operating system (CUPS or the
Windows spooler) together with the printers it registers itself (network
printers on port 9100, USB printers), prints test pages, renames and clears
queues, and accepts PDF print jobs from local programs over HTTP.

## Layout

- `src/` — the library, verified with Verus.
  - `json.rs` — parsed JSON values and member lookups.
  - `text.rs` — character classes, trimming, line and word splitting,
    decimal and hexadecimal numbers, concatenation.
  - `raster.rs` — gray conversion, Floyd–Steinberg dithering, the ESC/POS
    `GS v 0` raster encoding, and the stream for rendered PDF pages.
  - `pdf.rs` — text escaping for PDF strings, a one-page PDF writer with its
    cross-reference table, the API token.
  - `escpos.rs` — the test ticket, raw port paths and messages, the image
    preparation of GDI printing.
  - `guards.rs` — the checks run before each operation.
  - `serial.rs` — port lists, USB devices, the resolution of a saved port.
  - `strategy/` — the commands of CUPS (`mac.rs`, `linux.rs`) and of the
    Windows spooler (`windows.rs`) and the reading of their output.
  - `printers.rs` — the printer list, the routes of test prints, and the
    operations of the user interface with their checks in order.
  - `printer_cache.rs` — listings kept for a few seconds.
  - `api.rs` — authorization and replies of the print API, Base64 decoding.
  - `system.rs` — printed files newest first, start at login.
  - `bluetooth.rs`, `network.rs`, `model.rs`.
- `tests/` — tests of the library on concrete values.
- `app/` — the desktop application around the library: the Tauri shell and
  commands, the SQLite database, the HTTP server, process and file I/O,
  PDF rendering and the Win32 printing calls.
