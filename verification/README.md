# netspeed

A network speed test and real-time terminal monitor for Linux, with its logic
verified by Verus.

- `src/` is the verified library:
  - `text` — the `str` operations the parsers rest on (lines, trimming,
    whitespace splitting, `u64` parsing, decimal spelling), each specified
    over `Seq<char>`;
  - `network` — `/proc/net/dev`, `/proc/net/route` and `/sys/class/net`
    texts read into interface records, link states and the default
    interface; byte counts written for a reader;
  - `app` — the monitor's state, its capped speed histories and peaks;
  - `controls` — how key presses and speed-test reports move the monitor;
  - `cli` — the command line's progress choices and JSON escaping;
  - `speedtest` — transfer sizes, request URLs and refusal messages;
  - `view` — what the screen shows, decided apart from drawing it.
- `app/` is the program: argument parsing, file reading, the HTTP transfers,
  the event loop and the ratatui drawing, with speeds measured in `f64` Mbps.
- `tests/` exercises the library, including comparisons of the text helpers
  and of `format_bytes` with the standard library's own behaviour.
