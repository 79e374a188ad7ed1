//! Decision logic of a semi-automatic ETF scalping desk: the one-cancels-other trigger machine,
//! the simulated execution session, the automation runtime, and the wire formats around them.
//!
//! Apart from the time of day, which `clock` reads, everything here is pure. Sockets, files and the
//! database belong to the caller, which hands in plain values and performs the actions that come
//! back.

pub mod amounts;
pub mod automation;
pub mod broker;
pub mod candle_cache;
pub mod canvas;
pub mod candles;
pub mod chart_image;
pub mod clock;
pub mod commands;
pub mod config;
pub mod error;
pub mod json;
pub mod kis;
pub mod ledger;
pub mod market_history;
pub mod mock;
pub mod seqs;
pub mod settings;
pub mod tables;
pub mod text;
pub mod types;
pub mod util;
