//! A falling-block puzzle engine with obstacles and power-ups.
//!
//! The engine performs no I/O: time is passed in as milliseconds, random
//! choices are drawn through [`chance`], and every command reports what it did.

pub mod board;
pub mod chance;
pub mod game;
pub mod piece;
