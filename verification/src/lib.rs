//! Conflict-free replicated relations for a SQLite-style relational engine.
//!
//! The crate is the change-tracking and merge layer that turns ordinary
//! tables into replicas that can be edited independently and merged
//! deterministically. Its state machine is fully modeled and verified:
//! `clock` holds the per-cell logical-clock model of a tracked table,
//! `local_writes` the tracker invoked for local INSERT/UPDATE/DELETE,
//! `merge` the last-writer-wins arbitration for remote changes, `session`
//! the per-transaction version and sequence bookkeeping, and `laws` the
//! proved replication properties (clock monotonicity, one version per
//! transaction, key changes as delete-plus-create, convergence and
//! idempotence of merges).
//!
//! Around the model sit the verified value layer and SQL generators:
//! `values` (the deterministic total order on typed cell values), `codec`
//! (the packed column format with its round-trip and robustness laws),
//! `tableinfo` (schema reflection and the compatibility gate),
//! `stmt_cache` (the owning registry of lazily-prepared statements),
//! `triggers`, `stmts`, `changes_query`, `backfill`, `bootstrap` and
//! `alter` (the SQL text the engine installs and runs), `automigrate` (the
//! schema diff planner), `parse` and `sql_bits` (the statement-dialect
//! helpers) and `fractindex` (ordered-collection keys). The host engine
//! executes the generated SQL; everything the crate computes or decides is
//! specified and proved here.

pub mod alter;
pub mod automigrate;
pub mod backfill;
pub mod bootstrap;
pub mod changes_query;
pub mod clock;
pub mod codec;
pub mod fractindex;
pub mod laws;
pub mod local_writes;
pub mod merge;
pub mod parse;
pub mod sql_bits;
pub mod stmt_cache;
pub mod stmts;
pub mod session;
pub mod tableinfo;
pub mod trigger_fns;
pub mod triggers;
pub mod util;
pub mod values;
