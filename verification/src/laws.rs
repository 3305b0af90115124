//! What the operations do, stated of their calls: each law speaks of any call
//! of an operation, its arguments and its result.
pub mod text;
pub mod address;
pub mod cidr;
pub mod json;
pub mod sql;
pub mod config;
pub mod database;
pub mod handler;
pub mod connection;
pub mod server;
