# ledger_oxide

The verified core of Ledger Oxide, a single-tenant personal finance ledger:
money flows through bank entries, which are split across accounts by account
entries; projected entries forecast future transactions, once or by an RRULE
recurrence; bank statements are imported from OFX/QFX files.

`src/` is the library, written in Verus and verified:

- `ofx` reads OFX/QFX statements: tag values, dates, amounts in cents, the
  transaction blocks, ordered by `FITID`.
- `accounts`, `bank_entries`, `bank_imports`, `projected_entries` hold the
  decisions of the GraphQL resolvers: how an edit merges with what is stored,
  what a change to a split asks for, which SQL lists what, when an account is
  active, what an import stores or skips, and the forecast that merges bank
  entries with the occurrences of projected entries in date order.
- `date`, `text` and `sorting` hold calendar dates, text handling and the
  stable sort that both the statement and the forecast use.

Recurrences are expanded by the `rrule` crate and dates are checked and
formatted by `chrono`, each behind a small trusted wrapper. The chrono
wrappers state their results in full. Of the rrule expansion only what holds
of every outcome is stated (at most the limit, each a real day): which dates
come back also depends on the machine's local time zone, in which the crate
reads date-times written without one. The forecast therefore takes the dates
of each projected entry as an argument.

`app/` is the GraphQL service (async-graphql and sqlx over PostgreSQL): it
reads and writes the database and hands the library plain values.
