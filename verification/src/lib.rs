//! A framework-free HTTP/1.x request parser and a server-sent-events
//! broadcast relay, with every rule stated as a contract.
//!
//! The library holds the decisions of the server: where a request head ends,
//! what it asks for, which bytes answer it, how a posted message is framed and
//! which subscribers stay registered. Sockets, threads and timers live with
//! the caller, which feeds what it read and performs what it is told.

pub mod connection;
pub mod error;
pub mod event;
pub mod head;
pub mod hub;
pub mod number;
pub mod response;
pub mod route;
pub mod scan;
pub mod stream;
pub mod text;
