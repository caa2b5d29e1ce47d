//! Text as sequences of characters.

pub mod basic;
pub mod law;
pub mod number;
pub mod order;
pub mod search;
pub mod split;
pub mod utf8;
