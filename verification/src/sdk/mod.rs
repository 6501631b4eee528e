//! The SDK's model: transfers and their states, the events it reports, the
//! state it keeps, and what its discovery, server and transfer modules do
//! to them.

pub mod discovery;
pub mod events;
pub mod server;
pub mod state;
pub mod transfer;
pub mod types;
