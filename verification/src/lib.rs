//! Peer-to-peer netting, lockstep simulation and render planning for a small
//! multiplayer game, with every decision proved against its contract.

pub mod bus;
pub mod clock;
pub mod config;
pub mod crypto;
pub mod framesync;
pub mod interpolation;
pub mod netting;
pub mod render;
pub mod rollback;
pub mod simulation;
pub mod system;
pub mod tasks;
pub mod wire;
pub mod world;
