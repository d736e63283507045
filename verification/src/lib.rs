//! Telemetry core of the `yerd-dump` PHP extension.

pub mod call_site;
pub mod config;
pub mod frame;
pub mod json;
pub mod observer;
pub mod observers;
pub mod php;
pub mod render;
pub mod request;
pub mod text;
pub mod transport;
