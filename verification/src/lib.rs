//! Verified core of a two-channel file-transfer server.
//!
//! A client keeps a control connection open and sends one request line; for
//! each request the server hands out a data port from a bounded pool,
//! announces it on the control channel and moves the payload over a
//! short-lived data connection.
//!
//! This crate holds every decision of that server as a function from plain
//! values to plain values: the port pool, the model of the data directory,
//! the request grammar, the admission rule, the operator console and the
//! life of one connection. Sockets, files and threads belong to the caller,
//! which performs the actions that these functions return.

pub mod access;
pub mod console;
pub mod constants;
pub mod directory_tree;
pub mod ipv4;
pub mod port_allocator;
pub mod request;
pub mod server;
pub mod server_config;
pub mod session;
pub mod text;
pub mod transfer;

