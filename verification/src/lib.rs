//! Core of a black-box fuzzer for devices that speak an AT-command protocol
//! over a serial link. The library builds pseudo-random command payloads,
//! classifies response-or-silence as a liveness oracle, encodes crash-triggering
//! payloads into an append-only log, and replays logged payloads to confirm a
//! reproducer. Device discovery, the serial wire itself and the log file on
//! disk are left to the surrounding program; everything here works on plain
//! byte sequences and is verified.

pub mod classifier;
pub mod codec;
pub mod crash_log;
pub mod dictionary;
pub mod errors;
pub mod fuzz;
pub mod generator;
pub mod replay;
mod rng;
pub mod transport;
