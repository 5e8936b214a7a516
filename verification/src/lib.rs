//! Verified core of a local text-analysis toolkit: text chunking for embedding
//! indexes, HTML cleanup, behavioural-signal heuristics, response scoring and the
//! decisions of its request protocol.
pub mod text;
pub mod chunking;
pub mod pattern;
pub mod page;
pub mod heuristics;
pub mod decimal;
pub mod fitness;
pub mod store;
pub mod protocol;
