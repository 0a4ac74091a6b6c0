# uSniffer

A network packet sniffer with a graphical interface. The packet logic is a
library verified with Verus; the window, the capture thread and the
interface discovery are a thin program around it.

## Layout

- `src/` — the verified library
  - `wire.rs` — header fields read from raw frames with `pnet_packet`
  - `packet.rs` — the parser that turns a frame into a `ParsedPacket`
  - `config.rs` — the well-known port table
  - `protocol.rs` — TCP flags, stream keys and the stream tracker
  - `traffic.rs` — per-protocol byte counts and their per-second history
  - `ui.rs` — packet list filters
  - `display.rs` — header lines, summaries, hex/ASCII views, chart data
  - `network.rs` — which interfaces can be captured on
  - `session.rs` — what happens to each captured packet, start and stop
  - `text.rs` — character-level helpers (search, decimal, hex, trimming)
  - `laws.rs` — properties that span several functions
- `tests/` — tests of the library
- `app/` — the eframe program: interface choice, capture thread, rendering
