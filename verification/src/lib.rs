//! Engine that tails append-only game log files, matches configured trigger
//! patterns against incoming lines, and turns matches into a stream of
//! notification events (text messages, countdown timers, raw trigger records).
//!
//! The crate is organised around plain data and decision functions: file and
//! filesystem-notification plumbing lives outside, feeds chunks and clock
//! readings in, and drains events out.

pub mod bus;
pub mod compiled;
pub mod config;
pub mod driver;
pub mod engine;
pub mod errors;
pub mod events;
pub mod expand;
pub mod live;
pub mod parser;
pub mod rex;
pub mod snapshot;
pub mod stamp;
pub mod tailer;
pub mod triggers;

pub use engine::Comrade;
pub use engine::LoadOptions;
