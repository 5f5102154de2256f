# fehu_webapp

A stock-market game server whose clearing half is verified with Verus.

Players sign up, open accounts, and send orders to simulated symbols. The
simulator moves the prices and matches the orders; this project decides who
may do what, books what follows, and keeps a record that survives a restart.

## Layout

| Path | What it is |
|---|---|
| `src/` | The verified library. Every function carries a contract, its own or that of the trait it implements, and the laws that hold between functions are public proof functions named `law_...`. |
| `tests/` | Tests of the library on concrete values. |
| `app/` | The server around it: the HTTP surface, the live stream, the files, the clocks, and the simulator behind `app/simulator.rs`. |

## The library

- `account`, `ledger`, `trading`: accounts and their histories, what the
  currency ledger shows and is asked to post, traders and their orders.
- `market`, `placing`, `clearing`, `payouts`: the market itself, from a
  sign-up to a fill, a dividend and a delisting.
- `commands`, `journal`: what a command comes to, and how it is written down
  so that a retry is answered and never applied twice.
- `save`, `reconcile`, `tickers`, `restore`: what a snapshot holds, what can be
  wrong with it, which tickers it names, and how a market comes back from one.
- `api`, `auth`, `service`, `limit`, `stream`, `reports`, `events`, `options`,
  `metrics`: refusals, keys and scopes, allowances, the live stream's
  numbering, what people are shown, the event catalogue, settings, counters.
- `catalog`, `jobs`, `listings`, `orders`: goods, recipes and the jobs made of
  them, the symbol table, the order log.
- `table`, `text`, `num`: ordered tables, text and saturating numbers.

## What is believed without proof

Four things outside the library are used through stated contracts: appending a
character to a `String` and how a string is quoted (both in `text`), the SHA-256
digest of the `sha2` crate and the random bytes of the `getrandom` crate (both
in `auth`).
