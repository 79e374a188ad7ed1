//! The book of sessions, decisions, orders, fills and trades.
//!
//! An order is recorded before it is sent; the broker's reply and the fills follow. The broker may
//! use an order number again on another day, so an order is known by trading date, organisation and
//! number together.

pub mod book;
pub mod checks;
pub mod kinds;
pub mod laws;
pub mod migration;
pub mod model;
pub mod records;
