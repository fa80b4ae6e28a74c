//! Decision core of a low-latency Solana arbitrage executor.
//!
//! The pipeline is `stream -> detect -> risk gate -> simulate -> confirm ->
//! submit -> land`. Everything that decides or computes stands here; sockets,
//! files, clocks and the terminal belong to the program around this library.

pub mod base58;
pub mod base64_text;
pub mod config;
pub mod detector;
pub mod fees;
pub mod frontier;
pub mod jito;
pub mod json;
pub mod keys;
pub mod pipeline;
pub mod risk;
pub mod sizing;
pub mod solana;
pub mod stream;
pub mod swap;
pub mod text;
pub mod wide;
