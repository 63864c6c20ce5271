//! Side-by-side querying of several chat models: one request is sent to every
//! model of a comparison set, the answers are ranked in the order in which they
//! arrive, and the operator picks the one that becomes part of the conversation.

pub mod terminal;
pub mod text;
pub mod model;
pub mod error;
pub mod config;
pub mod selector;
pub mod round;
pub mod presenter;
