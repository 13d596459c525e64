//! Decides which domains a DNS resolver should start blocking: those that were
//! queried and allowed in the past and that also appear on a curated reference
//! list.

pub mod blocklist;
pub mod config;
pub mod domain;
pub mod ftl;
pub mod intersect;
pub mod pipeline;
pub mod state;
pub mod text;
pub mod value;
