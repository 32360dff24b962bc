# wagr

Verified core of a Solana prediction-market standard.

`src/` is the library, verified with Verus:

- `outcome_token` -- per-holder outcome share balances.
- `fixed` -- six-decimal fixed-point arithmetic.
- `market` -- the market lifecycle state machine.
- `ctf` -- conditional token framework: split, merge, redeem.
- `oracle` -- optimistic proposal / challenge / DVM settlement and M-of-N feed consensus.
- `reputation` -- the stake-weighted dispute vote, slashing and reputation scores.
- `executor` -- the rules of the on-chain executor program, as functions on the market account.
- `errors`, `keys` -- shared error type and key comparison.

`app/` is the Anchor program around it (accounts, clock, token transfers,
events), the floating-point LMSR pricing, and the error types' display texts.
