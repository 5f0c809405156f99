# amm_replay

Records the accounts of Solana market makers and replays what was recorded:
every pool's state is rebuilt update by update, quoted at the end of every slot,
and every swap of a pool is compared with what the other pools would have paid.

- `src/` is the library. All of it is verified; the contracts say what each
  pool quotes, in which order updates are applied, which rows are written and
  under which names.
  - `protocols/` holds the pools: HumidiFi, BisonFi, SolFi V2, GoonFi,
    Tessera V, ZeroFi, AlphaQ, and the concentrated liquidity of Orca and
    Raydium over `clmm_math/`.
  - `reader`, `engine`, `writer`, `route` and `session` replay a session.
  - `recorder/` decides what is recorded and when.
  - `codec` calls `base64`, `bs58` and `solana-pubkey`, and `recorder/json`
    calls `serde_json`.
  - `num`, `wide`, `bytes`, `text` and `order` are what the rest is built on.
- `app/` is the program around it: arguments, files, gRPC, WebSockets, and the
  mid prices in floating point.
- `tests/` runs the library.

Where a number would leave its machine type, a function named `try_..` returns
nothing; the function without that prefix asks for inputs on which it does not.
