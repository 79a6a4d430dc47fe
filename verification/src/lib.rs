//! A multiplexed RPC client core: many logical calls share one byte stream,
//! and every reply is routed to the call that is waiting for it.

pub mod codec;
pub mod connection;
pub mod context;
pub mod error;
pub mod model;
pub mod table;
