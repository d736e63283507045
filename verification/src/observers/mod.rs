//! Per-category observer logic. Each submodule turns an observed call into
//! the payloads of its frames.

pub mod dumps;
pub mod events;
pub mod http;
pub mod queries;
pub mod sql;
