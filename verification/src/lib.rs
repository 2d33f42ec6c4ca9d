//! Client engine for a motion-control server: frame parsing and event
//! dispatch, callback registries, outbound command scheduling, connection
//! supervision and the cyclic register exchange, as verified state
//! transitions whose effects are returned as actions for the host.

pub mod action;
pub mod bridge;
pub mod client;
pub mod endpoint;
pub mod engine;
pub mod frame;
pub mod json;
pub mod model;
pub mod registry;
pub mod slots;
pub mod text;

pub use crate::action::Action;
pub use crate::bridge::{
    chunk_plan, register_slots, Chunk, Exchange, RegisterBridge, RegisterError, RegisterTable,
};
pub use crate::client::Client;
pub use crate::engine::Botnana;
pub use crate::registry::CallbackHandler;
