//! The removal boundary — the only place that decides whether anything may
//! be destroyed.
//!
//! - `types` — the vocabulary. Decides nothing.
//! - `roots` — where a removal may point, resolved once per run.
//! - `identity` — whether a path is what the claim says it is.
//! - `disposition` — Trash, permanent, or refused.
//! - `execute` — the bars, in order, and the one call that deletes.
//! - `delete` — how a permanent removal is reported.
//! - `observe` — which paths must be probed before a run is decided.

pub mod delete;
pub mod disposition;
pub mod execute;
pub mod observe;
pub mod identity;
pub mod roots;
pub mod types;
