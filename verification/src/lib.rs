//! An entity-persistence core with completion timing.
//!
//! Records — agents, tasks, completions — are stored under time-ordered
//! unique identifiers in a generic create/read/read-all/update/delete engine
//! (`store`), and a small state machine (`completion`) tracks how long an
//! agent takes to complete a task, keeping the least elapsed time across
//! attempts.  The catalog modules (`agent`, `task`, `check`, `task_old`)
//! hold the three record shapes, their validation bounds, and the handlers
//! around the engine; `db` assembles the stores, the identifier generator
//! and the clock, and states the invariant that ties them together.

pub mod agent;
pub mod auth;
pub mod check;
pub mod completion;
pub mod db;
pub mod digits;
pub mod error;
pub mod store;
pub mod task;
pub mod task_old;
pub mod time;
pub mod traits;
pub mod types;
