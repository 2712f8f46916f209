//! Data carried by requests: the header and the command.
pub mod command;
pub mod header;
