# ghostwriter

A verified library for generating graded chain-of-thought traces as fine-tuning data. Teacher models
answer user turns with their full chain of thought, deterministic checks and a panel of judges grade
each trace, and admitted records are rendered for training.

The library decides; it performs no I/O. Its functions carry contracts that Verus proves, and the
properties that span several functions stand beside them as public proof functions.

| Module | What it holds |
|---|---|
| `schema` | Messages, records, verification and judging: the data that everything else works on. |
| `format` | Rendering conversations for training, reading providers' messages, linking tools' results to their calls, projecting records. |
| `providers` | Requests, streamed answers, errors, retries, pacing and embeddings of model endpoints. |
| `generate` | Filtering user turns, calling teachers, planning siblings and assembling records. |
| `judge` | Deterministic checks, judges' replies, calibration, consensus, the decision over both rails, and the cache of grades. |
| `json`, `typed`, `wire` | JSON as it is read, for any value and for a type, and as it is written. |
| `double`, `arithmetic` | Doubles by their bits, and the arithmetic that the caller supplies. |
| `text` | Texts as sequences of characters. |

`app/` is ordinary Rust around the library: the HTTP clients, waiting, retrying and asking judges and
teachers, and the machine's floating point.

`tests/` runs the library with the outside crates linked.
