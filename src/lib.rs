//! A chat relay: the message envelope and its wire text, the per-connection
//! relay session that bridges a client socket and a shared broker room, and
//! the batching of a streaming bot's tokens into frames.

pub mod bot;
pub mod escape;
pub mod message;
pub mod plugin;
pub mod relay;
pub mod route;
mod text;
