# standx_dry_run_grid

A grid of paper-trading market-making simulations for the StandX perpetuals
exchange, sharing one public order-book WebSocket feed.

## Layout

- `src/` — the verified library (Verus):
  - `book.rs` — detecting the listing order of a book side and keeping its best
    levels (best first, at most `max_levels`, never more than 50);
  - `types.rs` — `Symbol`, `PriceLevel`, `OrderbookSnapshot` (prices and quantities
    as `f64` bit patterns, on which every comparison is made);
  - `messages.rs` — routing of stream messages by channel, timestamp decoding;
  - `reconnect.rs` — exponential reconnection back-off;
  - `config.rs` — WebSocket settings and configuration defaults;
  - `client.rs` — the WebSocket client's settings, run flag and counters;
  - `rolling.rs` — the fixed-capacity rolling window;
  - `grid.rs` — the Cartesian product of parameter axes and its limits;
  - `quote_gate.rs` — when the strategy may quote (samples, cadence, history);
  - `order.rs` — order sides, order identifiers, slot labels.
- `app/` — the program: configuration loading, JSON decoding, the asynchronous
  connection loop, and the floating-point parts (quote arithmetic, fill simulation,
  PnL accounting, summaries and trade logs).
- `tests/` — tests of the library.
