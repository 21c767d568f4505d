# toon-mcp

A library and an MCP server that shorten structured text (JSON, JSONL, CSV, TSV)
by encoding it as TOON, and that hand the input back unchanged wherever encoding
does not pay. The library is written in Verus: its functions carry contracts,
and Verus proves them.

## Layout

| Path | Contents |
| --- | --- |
| `src/bindings.rs` | The calls into serde_json, csv, toon-format, jiff and xxhash-rust, each with the contract that the proofs believe |
| `src/text.rs`, `src/number.rs`, `src/ratio.rs`, `src/sequence.rs` | Text, decimal and ratio primitives |
| `src/value.rs`, `src/error.rs`, `src/fidelity.rs` | The value tree, the errors, equivalence of values |
| `src/detector.rs`, `src/parser/`, `src/classifier.rs`, `src/compressor.rs` | The pipeline: detection, parsing, shape classification, the size and savings gates |
| `src/logging/` | Log events, day partitions, the writer's state machine and its counters |
| `src/server/` | Configuration from the environment, request handling, metrics |
| `src/evals/` | The evaluation harness: corpus generation, measurements, questions, the report |
| `src/laws.rs` | Properties of the library as a whole |
| `tests/` | Tests on concrete values, with the outside crates linked |
| `app/` | The server and the harness as a program: I/O, async, floating point |

## The program

Without arguments the program serves MCP over stdio with the tools
`detect_format`, `compression_stats`, `compress_content` and `toon_diagnostics`.
With `evals` as its first argument it runs a stage of the evaluation harness:
`generate`, `pipeline`, `comprehend`, `report` or `all`.
