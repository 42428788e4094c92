//! Message ports: paired channels, broadcast, multiplexing and buffering.
//!
//! - [`AsyncPort`]: what every port answers at once
//! - [`ChannelPort`]: ports connected in pairs by bounded channels
//! - [`BroadcastPort`]: fan-out to multiple subscribers
//! - [`MultiplexPort`]: several ports behind one interface
//! - [`BufferedPort`]: an overflow-protected buffer in front of a port
//!
//! Nothing here waits. An operation that may have to wait is offered in steps: a step gives the
//! result, or names what has to be awaited first, and the next step takes up what came of it.
pub mod broadcast;
pub mod buffered;
pub mod channel;
pub mod clock;
pub mod error;
pub mod ids;
pub mod message;
pub mod metadata;
pub mod multiplex;
pub mod outlet;
pub mod port;
pub mod priority;
pub mod stats;

pub use broadcast::BroadcastPort;
pub use buffered::BufferedPort;
pub use buffered::BufferedStep;
pub use buffered::OverflowStrategy;
pub use channel::ChannelPort;
pub use channel::PollOutcome;
pub use error::PortError;
pub use ids::MessageIds;
pub use message::PortMessage;
pub use metadata::Metadata;
pub use multiplex::CloseStep;
pub use multiplex::MultiplexPort;
pub use multiplex::ReceiveStep;
pub use multiplex::SendStep;
pub use outlet::Delivery;
pub use port::AsyncPort;
pub use priority::MessagePriority;
pub use stats::PortStats;
