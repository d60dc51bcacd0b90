//! The records that the back office stores and exchanges.

pub mod menu;
pub mod operation_log;
pub mod permission;
pub mod role;
pub mod user;
