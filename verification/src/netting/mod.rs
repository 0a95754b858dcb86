//! The netting layers, from datagrams up to messages.

pub mod client_id;
pub mod client_map;
pub mod collater;
pub mod connman;
pub mod handshake;
pub mod ledger;
pub mod message;
pub mod outbox;
pub mod parceler;
pub mod peer;
pub mod registry;
pub mod synapse;
