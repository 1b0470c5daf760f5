//! A small chat server core: request parsing, the chat room and its
//! thread-safe handle, and the dispatcher that turns a request into a
//! response. Sockets, threads and process start-up live outside this crate.

pub mod text;
pub mod trusted;
pub mod room;
pub mod text_map;
pub mod state;
pub mod request;
pub mod handler;
pub mod data;
pub mod server;
