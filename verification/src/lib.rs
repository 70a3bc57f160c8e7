//! A small chat relay: the messages that peers exchange, the framing of
//! both transports, the broadcast hub, the decisions of the relay and of
//! the client bridge, and the state of the interactive client.
//!
//! Every function states what it returns or changes in a contract, and the
//! contracts are proved.

pub mod app;
pub mod bridge;
pub mod codec;
pub mod hub;
pub mod message;
pub mod names;
pub mod registry;
pub mod session;
pub mod text;
pub mod wire;
