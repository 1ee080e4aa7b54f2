//! Analysis of exported chat-archive conversations.
//!
//! The crate models a conversation as an ordered sequence of raw message
//! records, normalizes the heterogeneous records into one uniform shape,
//! accumulates per-participant and chat-wide statistics that merge under an
//! associative, commutative combine operation, reconstructs reply chains, and
//! renders both a textual report and a flattened transcript.

pub mod content;
pub mod counts;
pub mod index;
pub mod messages;
pub mod report;
pub mod stats;
pub mod transcript;
pub mod util;
