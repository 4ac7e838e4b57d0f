//! A task scheduler that keeps each task's status consistent with the
//! completion state of the tasks it depends on.
//!
//! A task may be `Pending` only when every task it depends on is `Completed`;
//! otherwise it must be `Blocked`. When a task's status changes, every task
//! that directly depends on it and is currently `Blocked` is re-derived, and
//! the update cascades.

pub mod derivation;
pub mod fresh;
pub mod models;
pub mod store;
pub mod strutil;

pub use models::CreateEventRequest;
pub use models::DatabaseInfo;
pub use models::EventFilter;
pub use models::EventStatus;
pub use models::StoreError;
pub use models::TodoEvent;
pub use models::UpdateEventRequest;
pub use store::EventStore;
