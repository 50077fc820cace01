//! Connection lifecycle and round scheduling for a WebSocket load generator.
//!
//! The crate holds the decisions of three state machines and leaves every
//! socket, timer and task to its driver:
//!
//! * [`server::MyWebSocket`], the server side of one connection: it echoes
//!   application data and watches the peer's heartbeat;
//! * [`client::WsClient`], the client side of one connection: it answers pings
//!   until it is told to disconnect;
//! * [`fleet::Orchestrator`], which opens and closes a fleet of client
//!   connections round by round.
//!
//! Each machine is driven by events and answers with the list of things to do.

pub mod fleet;
pub mod fleet_trace;
pub mod frame;
pub mod client;
pub mod client_trace;
pub mod server;
pub mod server_trace;
