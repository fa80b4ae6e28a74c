# solana_arb_executor

The decision core of a Solana arbitrage executor, verified with Verus:

    stream -> detect -> risk gate -> simulate -> confirm -> submit -> land

`src/` decides and computes; `app/` holds sockets, files, clocks and the terminal.

| module | what it holds |
| --- | --- |
| `config` | configuration from environment variables, safe by default |
| `stream` | decoding of stream messages, delivery, reconnect backoff |
| `detector` | pool state, staleness, candidates within the risk caps |
| `swap` | constant-product swaps, exact for every reserve and fee |
| `sizing`, `frontier` | the trade size that makes the most net profit |
| `fees` | base and priority fees, compute-unit limits |
| `risk` | caps, daily loss, circuit breaker, kill-switch |
| `solana` | instructions, keypairs, signed transactions |
| `jito` | bundles, simulation verdicts, confirm-gate, landing |
| `pipeline` | tip sizing and the path of a candidate from risk gate to landing |
| `base58`, `base64_text`, `json`, `keys`, `text`, `wide` | encodings, small text operations, wide products |

Each module states its laws as public proof functions named `law_...`. The ones
that matter most stand in `pipeline`: nothing is sent unless the risk gate
admitted the candidate, the dry run is off, a simulation succeeded and `YES` was
typed after it, whatever the settings; what is sent is what was simulated; and
only a confirmed landing counts as a fill.

What is taken on trust is marked `external_body` or `assume_specification`, each
with the outside function that it stands for: `bs58`, `base64`, `serde_json`,
`bincode`, `solana-sdk`, `solana-system-interface` and `str::to_ascii_lowercase`.

The program in `app/` also needs `solana-client`, `solana-commitment-config` and
`jito-sdk-rust`.
