# mahjong

A riichi mahjong engine: tiles, hands and melds, walls and rounds, shanten,
acceptance (the draws that advance a hand), yaku, fu and points, dora,
last-hand conditions, and the integer parts of discard evaluation (hand
value tallies, danger verdicts, call options).

`src/` is the verified library: every function there carries a contract
that Verus proves, except the few small wrappers around calls into
`arrayvec` and `rand`, whose contracts are taken as given (each says in its
doc comment what it claims of the outside function). `tests/` runs it on
concrete hands. `app/` holds what the library cannot: the Python module, and the evaluations that weigh the
library's integer facts with floating-point probabilities and expected
values.
