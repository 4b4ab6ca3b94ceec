//! A server library for a Redis-like wire protocol: the codec between text
//! and values, the commands over an in-memory store, the receive buffer of a
//! connection and the reactor's admission of connections.

pub mod commands;
pub mod connection;
pub mod decode;
pub mod encode;
pub mod laws;
pub mod reactor;
pub mod reverse;
pub mod store;
pub mod text;
pub mod value;
