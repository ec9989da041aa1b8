//! A self-refreshing, read-optimised cache of keyed readings.
//!
//! The library holds the logic: the store and its last-write-wins merge,
//! the reconciliation state machine that orders the bulk fetch before the
//! live stream, and the bounded, jittered backoff between retries. The
//! program around it performs the provider calls and the waiting.
pub mod backoff;
pub mod cache;
pub mod reconcile;
pub mod store;

pub use backoff::BackoffPolicy;
pub use cache::StreamCache;
pub use reconcile::{Action, Event, Phase, Reconciler};
pub use store::Store;
