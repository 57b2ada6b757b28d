//! Core of a messenger with end-to-end encryption.

pub mod actions;
pub mod chat;
pub mod chats;
pub mod client;
pub mod config;
pub mod console;
pub mod crypto;
pub mod events;
pub mod inbox;
pub mod look;
pub mod net;
pub mod peers;
pub mod primitives;
pub mod proto;
pub mod server;
pub mod store;
pub mod table;
pub mod text;
pub mod view;
