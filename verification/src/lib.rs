//! The game logic of `irken`, a chat-room bot that keeps a small world of
//! characters and crafted items. Chat transport stays outside this crate: the
//! bot hands in each message as plain text and sends back the reply computed
//! here.

pub mod text;
pub mod world;
pub mod commands;
pub mod bot;
pub mod laws;
