# schedulecommit

The decisions of three small parts of a validator for ephemeral rollups, with
contracts that Verus proves:

- a Solana program that keeps a counter for each player and schedules commits of
  the accounts that hold the counters (`pubkey`, `wire`, `account`, `counter`,
  `error`, `instruction`, `outcome`, `processor`);
- a client that asks a worker for account snapshots and lets callers who want
  the same account share one request (`fetcher`);
- the log filter and the log of transactions in tests (`diagnostics`).

`src/` holds the verified library. It works on plain data: the data of
accounts live in an `AccountMemory`, and what only the runtime or another
program can do is returned as a call to make. `app/` makes these calls, on the
Solana runtime, over channels, and with a logger. How addresses are derived and
how accounts are allocated is handed to `app/` by the program that uses it.

A commit that is to modify its accounts does so after the commit: the program
hands the commit out on the data as they are, and increases the counters once
the commit went through.

Functions named `law_...` state what holds across functions.
