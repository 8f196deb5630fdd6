# crypto_cta_manager

The verified core of the CTA Manager: it decodes the order events that CTA
Exec keeps in RocksDB, checks the Manager configuration, attributes fills to
strategies, keeps the monitor's alert schedule, and signs exchange account
requests. Every function under `src/` carries a Verus contract and is proved
against it.

Layout:

- `src/` — the library, verified by Verus.
  - `codec`, `model`, `ingest`, `manager_db`, `position_archive`: record keys
    and the binary layouts of uniform orders, order and trade updates, and
    the scan plan of an ingestion poll.
  - `config` (with `config::urls`): the configuration sections, their
    defaults, the validation rules and the loopback rules of its URLs.
  - `order_config`, `market_rules` (with `rapidx`, `symbol_info`): strategy order
    parameters and their per-symbol overrides, market-rules snapshots,
    RapidX symbol information and execution backends.
  - `auth`: usernames, password records (PBKDF2-HMAC-SHA256), session
    cookies and source permissions.
  - `exchange_leverage` (with `responses`, `credentials`, `signing`,
    `timestamp`): Exec environment files, exchange responses, account
    credentials, signed Binance and OKX requests and their timestamps.
  - `nav` (with `selection`, `liquidity`, `fills`, `prepare`, `window`,
    `timeline`), `execution_cost`, `acquisition_cost`: source and symbol
    selection, maker/taker roles, the fill chronology, the preparation of a
    source's events from its snapshots, the timeline window and replay
    order, report requests, windows and pages.
  - `bfusd_auto`: the BFUSD auto-earn round as a state machine, and its
    settings.
  - `monitor` (with `alert_laws`, `market`, `orders`, `position`,
    `dingtalk`): the monitor's checks, alert tracking, heartbeats and
    DingTalk notices.
  - `account_ipc`: wallet snapshots and the live-equity readings.
  - `text`, `ordered`, `keyed`, `json`, `float_bits`: strings, the `str`
    order, keyed lists, JSON values and `f64` bit patterns.
- `tests/` — tests of the library on concrete values.
- `app/` — the command-line program around the library: configuration
  files, JSON and TOML parsing, and the floating-point sums.
