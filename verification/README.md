# kittyalpha

The logic behind KittyAlpha, a local-first desktop app for A-share market
monitoring, AI analysis, backtests and paper trading, written in Verus with
its behaviour stated as contracts and proved.

## Layout

- `src/` — the verified library.
  - `market`, `arbitrage`, `candles`: market targets, the market list and its
    filters, watchlists, chart requests, arbitrage legs and listing pages.
  - `backtest`, `calendar`, `snapshot_fetch`: trading calendars, sampling
    timepoints, bar sampling, snapshot windows, the steps of a dataset
    fetch, signal and replay planning.
  - `assistant`, `session`, `turn`, `stream`, `endpoint`, `attempts`: the
    assistant's tools and prompts, conversation sessions, the turn state
    machine, streamed model replies, model endpoints and call retries.
  - `financial` (with `financial::progress`): stock codes, analysis replies,
    scores, revision stamps and the progress of a watchlist analysis.
  - `jobs` (with `jobs::state`, `jobs::store`, `jobs::kinds`): the job
    history, its retention and what a restart does to it.
  - `akshare`, `commands`: requests to the AKShare service and the replies
    of the desktop commands.
  - `text`, `numbers`, `order`, `seqs`: text, number, ordering and sequence
    helpers with their specifications.
- `tests/` — tests of the library on concrete values.
- `app/` — the parts that do I/O or floating point around the library:
  the AKShare bridge, model streaming over HTTP, services with locks, the
  snapshot fetch loop, the floating-point parts (arbitrage candidates,
  market rows, equity curves), and serde copies of the library's types.

Outside crates: `time` (calendar dates and RFC 3339 timestamps), `reqwest`
(URL parsing), `sha2` and `hex` (revision stamps) are called from the
library through wrappers with stated contracts; `serde`, `serde_json` and
`anyhow` are used by `app/`.
