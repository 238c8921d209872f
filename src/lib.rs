//! Adapters that turn a pull-style chunk source into a byte reader.
//!
//! `adapter` holds the direct adapter: one cached chunk and at most one pull
//! in flight. `pipe` holds the decoupled one: a pump feeding a bounded buffer.
//! `reply` classifies what a pull resolved with; `seek` holds the position
//! arithmetic of a random-access blob reader.
pub mod adapter;
pub mod pipe;
pub mod reply;
pub mod seek;
