//! A single-instrument order-matching core.
//!
//! - `order`: orders, their status and how it moves;
//! - `priority`: price-time priority and the place of a new order on a side;
//! - `state`: the book as a mathematical value, and what keeps it in good order;
//! - `matching`: the crossing pass as a function on books, and what holds of it;
//! - `ledger`: the book with its counters, and what it means to take an
//!   order in: number it, let it rest, settle what it crosses;
//! - `order_book`: the book itself, which never rests crossed;
//! - `engine`: the engine that owns a book, makes the orders that are
//!   submitted to it and hands them to the book;
//! - `snapshot`: what a store keeps of a book, and what comes back from it;
//! - `trade`, `error`: trades, and the ways a request can be turned down.
//!
//! Reading from and writing to a store is left to the caller: the library
//! hands out snapshots and takes them back.

pub mod engine;
pub mod error;
pub mod ledger;
pub mod matching;
pub mod order;
pub mod order_book;
pub mod priority;
pub mod snapshot;
pub mod state;
pub mod trade;
