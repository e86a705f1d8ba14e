//! Presence tracking for a shared space: a small state machine over who is
//! present and the space's operating status, together with the wire codec for
//! the pub/sub messages that drive it and the reducer that decides when a
//! fresh snapshot must be published.

pub mod json;
pub mod laws;
pub mod msg;
pub mod service;
pub mod state;
pub mod text;
pub mod wire;

pub use state::Person;
pub use state::State;
pub use state::Status;
