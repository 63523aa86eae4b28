//! Match assignment and live queue coordination for event scouting.
//!
//! Scouts connect, register their display name, and ask for work; an admin
//! declares matches in automatic (arrival-order) or manual (name-pinned)
//! mode.  The library keeps the pool of unassigned work items, the waiting
//! group, the per-scout state machine, the name/connection registry and the
//! event fan-out, and states the behaviour of each operation as a contract.

pub mod coordinator;
pub mod events;
pub mod handler;
pub mod model;
pub mod pool;
pub mod registry;

pub use coordinator::{Assignment, AssignmentModel, CoordinatorModel, QueueCoordinator, QueueOutcome};
pub use events::{BroadcasterModel, EventBroadcaster, EventModel, LiveEvent};
pub use handler::{Outbound, OutboundModel, QueueService, ServiceModel};
pub use pool::{Alliance, AssignmentPool, ItemModel, PoolModel, QueueError, WorkItem};
pub use registry::ConnectionRegistry;
