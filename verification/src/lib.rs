//! A low-latency, asynchronous, in-process structured logger core.
//!
//! Producing threads capture log arguments as raw bytes plus a decoder
//! reference, hand them to a consumer over a block-based single-producer /
//! single-consumer ring, and the consumer renders timestamped lines into a
//! batched sink.  Every algorithm of the core — the byte codec for captured
//! arguments, the variable-size message ring with its rewind marker, the
//! cycle-counter clock arithmetic, and the line renderer with its digit and
//! calendar tables — is specified and verified here.

pub mod args2;
pub mod console_sink;
pub mod format;
pub mod log;
pub mod my_bytes_mut;
pub mod run_log2;
pub mod spsc;
pub mod spsc_var_queue_opt;
pub mod tscns;
