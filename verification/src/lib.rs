//! The decision core of a peer-to-peer voice, chat and screen-sharing client.
//!
//! Everything here computes on plain values. Sockets, files, audio devices and
//! the window live in the program around this library.

pub mod admin;
pub mod app;
pub mod call;
pub mod channels;
pub mod chat;
pub mod cli;
pub mod effects;
pub mod events;
pub mod group;
pub mod groups;
pub mod identity;
pub mod logger;
pub mod messages;
pub mod network;
pub mod notify;
pub mod order;
pub mod picture;
pub mod settings;
pub mod sidebar;
pub mod table;
pub mod text;
