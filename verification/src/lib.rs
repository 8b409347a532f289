//! Verified core of a RESP benchmarking harness: the exact wire bytes of every
//! command the benchmarks send, the decisions taken while reading replies, the
//! client-side payload encryption path, the WebSocket gateway helpers, and the
//! bookkeeping that turns benchmark results into chart bars.

pub mod resp;
pub mod text;
pub mod reply;
pub mod roundtrip;
pub mod workload;
pub mod batched;
pub mod cipher;
pub mod gateway;
pub mod chart;
