//! YAP: a small peer-to-peer messaging protocol, its wire format and the
//! client-side rules around it, specified and verified with Verus.

pub mod error;
pub mod wire;
pub mod packet;
pub mod identity;
pub mod text;
pub mod cli;
pub mod registry;
pub mod chat;
pub mod order;
pub mod core_error;
pub mod peer_manager;
pub mod local_identity;
pub mod peer;
pub mod input;
pub mod output;
pub mod json;
pub mod events;
pub mod commands;
pub mod node;
pub mod config;
pub mod format;
