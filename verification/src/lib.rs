//! Settlement and participant notification for a pari-mutuel Hot/Not
//! betting feature attached to content posts.
//!
//! The crate covers the slot-settlement aggregator, the bounded-concurrency
//! fan-out notifier, the generic task-runner primitive that powers it, the
//! ordered room/bet store they share, and the best-effort resource recharge
//! policy. Remote calls themselves (the recharge request and the per-bet
//! notification call) are performed by the host shell; their outcomes enter
//! the library as plain values, so every decision taken on them is verified.

pub mod cdao;
pub mod hot_or_not;
pub mod ids;
pub mod notifier;
pub mod post;
pub mod principal;
pub mod settlement;
pub mod state;
pub mod store;
pub mod task_runner;
pub mod token;
pub mod user_index;
