# simtrack

Verified bookkeeping for a simulated trading session on binary
("Up"/"Down") crypto prediction markets: limit orders and their fills,
positions, realized and unrealized profit and loss, market resolution and
settlement, summary and report figures, and price-trend analysis over a
bounded window of samples.

## Numbers

All arithmetic is exact integer arithmetic:

- prices are micro-dollars in a `u32` (`units::ONE_DOLLAR` = 1,000,000);
- quantities are millionths of a share in a `u64` (`units::ONE_SHARE`);
- money amounts (quantity times price) are `i128` counts of
  half 10^-12 dollars (`units::AMOUNT_PER_DOLLAR`), so every product of a
  quantity and a price, or the midpoint of two quotes, is exact;
- trend slopes and strengths are exact fractions (`trend::Ratio`) of
  natural numbers of any size (`natural::Natural`), so a trend is exact for
  any number of samples and any times; the
  return on capital is left to the caller, from the exact profit and
  capital in the summary and the report.

## Layout

- `src/model.rs` — the state as a mathematical value (`SimView`) and every
  operation on it as a spec function; the record types of the library.
- `src/tracker.rs` — `SimulationTracker`, each method proved to follow the
  model, plus `winning_token`.
- `src/trend.rs` — `PriceTrendTracker` and the exact least-squares trend.
- `src/market.rs` — quotes (`TokenPrice`) and the price book.
- `src/quotes.rs` — decimal exchange quotes turned into micro-dollar prices.
- `src/market_files.rs` — which markets get a log file of their own.
- `src/laws.rs` — properties across operations, proved.
- `src/natural.rs` — natural numbers of any size, with exact arithmetic.
- `src/token.rs`, `src/units.rs`, `src/keyed.rs`, `src/sums.rs`, `src/clock.rs`
  — token kinds, fixed-point units, keyed lookup, sums, and the clock.
- `app/` — the credential tool (`main.rs`) and the asynchronous front of the
  tracker (`simulation.rs`): locking, decimal and floating-point conversion,
  log files, the exchange lookups for settlement, and the JSON report.
