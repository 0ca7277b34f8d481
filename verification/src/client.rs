//! The data that a client of the editing tools exchanges with them, and the
//! sessions it keeps.

pub mod file_ops;
pub mod grep;
pub mod list;
pub mod read_ops;
pub mod session;
pub mod session_store;
