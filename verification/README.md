# pilotlight

A low-latency transaction submitter for the Robinhood chain sequencer. It takes
transactions that are already signed, broadcasts each over warm HTTP/2
connections to every address of the sequencer, and reports the first success.

The library under `src/` decides and computes, and is verified with Verus. It
opens no socket and reads no clock: each step takes what happened as a value and
says what to do next. `app/` drives it on a tokio runtime.

| Module | What it holds |
| --- | --- |
| `client` | the builder, the client, and what it sends where |
| `verdict` | what the answers of a fan-out come to |
| `pool` | the endpoint set, its reconciliation with DNS, and the choice of targets |
| `endpoint` | health, latency, rank and connections of one address |
| `conn` | handshake decisions, supervision and backoff of one connection |
| `rpc` | request bodies, and what responses mean |
| `conditional` | constraints for conditional submission, and their JSON |
| `request`, `config` | request skeleton and settings |
| `types`, `error`, `time`, `addr` | hashes, errors, spans of time, addresses |
| `hex`, `json`, `buf`, `text`, `sorted_map`, `order` | what the others are built from |

A few functions of other crates are called through declarations whose contracts
are taken on trust; each says which function it stands for and what it claims.
They cover `bytes`, `const-hex`, `http`, `rustls-pki-types`, `serde_json`,
`tiny-keccak`, and four functions of the standard library.

What the steps add up to is stated and proved beside them, as public proof
functions. Among them: a success wins however late it comes, a refusal is
reported only once no copy can succeed, surviving endpoints keep everything known
of them, a failed lookup changes nothing, and the reconnect delay doubles up to
its ceiling.
