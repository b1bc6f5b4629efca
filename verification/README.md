# cc_limit

A thin status bar for the Windows desktop that shows how much of the current
five-hour usage window has been used and how long until it resets.

- `src/` is the verified library: calendar days (`civil`), ISO 8601
  timestamps (`iso8601`) on top of trimming, splitting and integer reading
  (`text`), lookups in JSON documents (`json`), monitor choice and bar
  geometry (`monitor`), the bar's state and its answers to window events
  (`bar`), and UTF-16 text for the Windows API (`wide`).
- `app/` is the program around it: files, HTTP, the window, the tray icon,
  JSON parsing with serde_json, and the floating-point usage percentage.
- `tests/` runs the library on concrete values.
