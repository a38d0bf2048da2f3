//! An in-process publish/subscribe event bus.
//!
//! The verified core is the handler registry: ordered handler lists keyed by
//! event name, bulk merging of staged subscriptions, unsubscription, and the
//! delivery policy (registration order, propagation stop, run-once removal).
//! Envelopes carry a dispatched event's identity, timestamp, payload and name.
mod builder;
pub mod envelope;
mod handler;
mod handlers;
pub mod laws;
pub mod registry;

pub use builder::{EventDispatcherBuilder, Subscriber};
pub use envelope::{DispatchedEvent, EnvelopeView, WireEnvelope, WireView};
pub use handler::{HandlerEntry, HandlerView};
pub use handlers::SendEmailOnUserCreated;
pub use registry::SubscriberList;
