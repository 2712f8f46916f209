//! The terminal client.
pub mod app;
