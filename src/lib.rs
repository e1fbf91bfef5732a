//! Parsing, filtering and rendering of device log lines.

pub mod level;
pub mod parser;
pub mod presenter;
pub mod session;
pub mod text;
