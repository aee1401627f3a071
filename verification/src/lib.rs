//! A reliable job queue over named byte-payload lists.
//!
//! A producer prepends encoded payloads to a shared source queue. A consumer
//! atomically claims the oldest payload into its private processing queue and
//! hands it to the caller inside a [`message::MessageGuard`]; the guard must be
//! acknowledged, rejected, or re-routed, and a guard released while still
//! unacknowledged rescues its payload into the consumer's unacked queue. A
//! garbage collector sweeps the unacked queues of registered consumers back
//! into their processing queues, so no payload is lost by a crashed consumer.
//!
//! The whole protocol runs against [`store::Store`], an executable model of
//! the broker state; the wire transport that carries the same commands to a
//! live server stays outside this crate.

pub mod codec;
pub mod consumer;
pub mod gc;
pub mod keys;
pub mod laws;
pub mod message;
pub mod producer;
pub mod reply;
pub mod store;

pub use consumer::Consumer;
pub use gc::GC;
pub use message::{JobMessage, MessageDecodable, MessageEncodable, MessageGuard, MessageState};
pub use producer::Producer;
pub use store::Store;
