//! Client/server transport for a small networked real-time strategy game:
//! the wire codec for player actions and server turns, length-prefixed
//! framing, the outbound message queue, turn aggregation on the server,
//! connection bookkeeping and the simulation-time reconciler.
pub mod aggregator;
pub mod building;
pub mod bundle;
pub mod codec;
pub mod connections;
pub mod frame;
pub mod receive;
pub mod time;
pub mod transport;
