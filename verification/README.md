# omega_bench_suite

A benchmarking harness for RESP key-value servers (Redis, KeyDB, OmegaDrive)
and a WebSocket broadcast gateway, with its protocol logic verified in Verus.

* `src/` — the verified library:
  * `resp` — RESP framing: decimal numbers, bulk strings, array headers, commands.
  * `text` — Unicode whitespace, trimming and `usize` number syntax of reply lines.
  * `reply` — the reply reader as a state machine, and the reading of bulk lines.
  * `roundtrip` — what the reader makes of what the writer writes.
  * `workload` — the exact SET/GET batches of the TCP, encrypted and file benchmarks, and run sizes.
  * `batched` — the MSET/MGET batches of the batched benchmark.
  * `cipher` — AES-256-GCM and hex on the encrypted path (through `aes-gcm` and `hex`).
  * `gateway` — WebSocket gateway addresses (through `url`), subscription and publish messages.
  * `chart` — which result fills which chart bar, bar colours and labels.
* `app/` — the programs: sockets, tasks, timing, progress bars and the PNG charts.
* `tests/` — tests of the library on concrete values.
