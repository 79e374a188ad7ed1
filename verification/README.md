# easy_scalping

The decision logic of a desk that trades two ETFs on SK hynix, by hand or automatically, through
the KIS broker: verified with Verus.

- `src/` is the library. Every function has a contract that is proved.
  - `automation/` — the pair of scenarios of which one trade confirms at most one (`oco`), the
    schedule of decisions, the practice account (`shadow`), requests to the model and its replies
    (`openai`), and the state of the automation (`runtime`).
  - `kis/` — the broker's wire formats: tokens, orders, inquiries, bars, and the feed.
  - `ledger/` — the book of sessions, decisions, orders, fills and trades.
  - `candles`, `canvas`, `chart_image` — bars of longer intervals, and the picture that the model
    sees.
  - `market_history`, `candle_cache` — bars that are fetched once and kept up by trades.
  - `config`, `settings`, `commands` — settings and what a change of them needs.
  - `amounts`, `text` — numbers and texts as they are written.
  - `mock` — a market with made-up prices to practise on.
  - `json`, `clock` and parts of `chart_image`, `kis/crypto` and `automation/openai` call outside
    crates; what is taken from those on trust stands at each call.
- `app/` is the program around it: files, the database, HTTP, the socket, and commands on the
  standard input.
- `tests/` runs the library.

Prices are in won, average and fill prices in ten-thousandths of a won, rates in billionths of a
percent, and spans in nanoseconds. Times are Korean wall-clock seconds counted as if they were UTC.
