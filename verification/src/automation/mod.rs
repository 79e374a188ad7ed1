//! Automatic and simulated trading.

pub mod oco;
pub mod openai;
pub mod runtime;
pub mod schedule;
pub mod shadow;
