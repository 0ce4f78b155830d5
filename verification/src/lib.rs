//! A fine-grained reactive state system: versioned cells, lazily recomputed
//! memos, eagerly re-run effects and the dependency tracker that connects them,
//! together with the fallback rules of the persistence adapter and the state
//! machine of the one-shot remote bootstrap.
//!
//! The graph is an arena addressed by node index. It never calls user code:
//! the caller evaluates a memo or an effect between `begin` and `finish_memo`
//! / `finish_effect`, announcing each read through `read`.

pub mod bootstrap;
pub mod graph;
pub mod laws;
pub mod persist;
pub mod rates;
