# Binance PnL proofs

Cryptographically prove Binance trading profit and loss to third parties without
sharing API keys.  A prover fetches trade history (or an account snapshot) over a
connection that a notary takes part in, a presenter discloses the transcript
without the credentials, and a verifier checks the disclosed transcript and
reports what it shows.

The decisions are a library verified with [Verus](https://verus-lang.github.io/verus/);
the programs around it do the input and output.

## Layout

- `src/request.rs`, `src/signing.rs`, `src/exchange.rs`: what the prover asks, how
  the query is signed, and what a reply means.
- `src/notary_key.rs`, `src/hexadecimal.rs`: the notary's key and its file.
- `src/disclosure.rs`: which parts of a transcript a presentation reveals. The
  values of the `X-MBX-APIKEY`, `Authorization` and `User-Agent` headers and of the
  `signature` parameter are never among them.
- `src/transcript.rs`, `src/trades.rs`, `src/account.rs`, `src/body.rs`: what the
  verifier reads from a transcript and how it reports it.
- `src/clock.rs`, `src/text.rs`, `src/report.rs`: time, text and reports.
- `app/`: the programs: `notary`, `prove`, `present` and `verify`, commands of one
  executable.  Installed or linked as `binance-pnl-notary`, `binance-pnl-prover`,
  `present` or `binance-pnl-verifier` it takes the options of that command directly.

Amounts are floating point and live in `app/figures.rs`; the library says which
trades each amount is made of, and with which sign it goes into the net profit.

## Limits

- A reachable, trusted notary is required.
- Requests are limited to 1 KB and responses to 16 KB; `prove --max-recv-data` sets
  another limit for responses.
- The exchange counts time from 1970: an earlier start date stands for the start of
  1970, and with an earlier end date nothing is asked for.
