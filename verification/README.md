# hl_orderbook

A verified library around the order book of a Hyperliquid node, and the programs that use it.

`src/` is the library. Every function in it is verified with Verus against a contract that says what
it returns or changes. What the library has from outside crates stands behind a few small functions
whose contracts are trusted; each says in its comment what it relies on.

| module | what it is about |
| --- | --- |
| `clearing_house` | users, positions and balances: reading snapshots, replaying fills, actions and ledger events, comparing states |
| `listeners` | following the order book: which halves of orders wait, what is dropped, what is broadcast |
| `servers` | the sessions of WebSocket clients: subscriptions, and what is sent to whom |
| `relay` | sharing connections among clients: groups, limits, the state that late joiners get |
| `proxy` | which server a request goes to |
| `referral`, `strategy`, `history` | rows of sums, their keys, and the requests for them |
| `tools` | what the command-line tools decide and show |
| `levels`, `types` | books of levels and their changes |
| `text`, `bytes`, `hex`, `json`, `msgpack` | reading and writing |
| `strmap`, `assetmap`, `nameset`, `arrivals`, `rows`, `order`, `daykeys` | collections and orderings |

Public proof functions whose names start with `law_` state what holds across operations.

`app/` is ordinary Rust: one program with the subcommands `relay`, `loadtest`, `proxy`, `node-sync`,
`replay-verify`, `user-trace`, `rmp-inspect` and `stats`. It does the input and output, and the
floating-point arithmetic, and leaves the decisions to the library.

`tests/` runs the library.
