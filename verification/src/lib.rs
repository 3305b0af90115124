//! The verified core of a small server that offers SQLite databases over a
//! length-prefixed JSON protocol.
pub mod text;
pub mod address;
pub mod cidr;
pub mod json;
pub mod sql;
pub mod database;
pub mod config;
pub mod connection;
pub mod server;
pub mod handler;
pub mod laws;
