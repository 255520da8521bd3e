# trading_ui_style

Shared look and behaviour of the trading GUIs, as a Verus-verified library.

- `src/` — the verified library: colour palettes, classification of
  operational messages into errors and warnings, the stacked issue board,
  the TTL issue journal, banner dismissal, order-grid sorting and labels,
  configuration titles and deep links, and the text helpers (trimming,
  splitting, joining, case mapping) these rest on. Each public function
  states its result over mathematical models; the laws that relate
  functions are proof functions next to them.
- `tests/` — tests of the library on concrete values.
- `app/` — the egui side: drawing of banners, tables, toolbar and widgets,
  floating-point formatters, the launcher and the config-persist bus.

Times in the journal are nanoseconds on a monotonic clock started with the
journal; every operation that reads the clock has an `_at` variant that
takes the time as an argument and whose contract is exact.
