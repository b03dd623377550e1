//! A realtime publish/subscribe engine for applications that run on several nodes.
//!
//! The library holds the decisions: which session gets which message, what the router of a
//! node does next, which commands keep track of who is online, and what is counted on the
//! way. Each is stated as a contract and proved. Sockets, timers and tasks belong to the
//! application around it.

pub mod arifa;
pub mod event;
pub mod forwarder;
pub mod handle_laws;
pub mod metrics;
pub mod name_map;
pub mod naming;
pub mod presence;
pub mod presence_laws;
pub mod queue;
pub mod router;
pub mod router_laws;
pub mod routing_laws;
pub mod routing_table;
pub mod step_laws;
pub mod store;

pub use arifa::{Arifa, Subscription};
pub use event::NotificationKind as MessageKind;
pub use event::NotificationScope as MessageScope;
pub use event::WsMessage;
