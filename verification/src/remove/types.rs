//! The vocabulary of a removal: what is being removed, why the caller
//! believes it may be, and what happened. Types only; nothing here decides.

use crate::catalog::Disposition;
use vstd::prelude::*;

verus! {

/// Why an item is eligible for removal. This is the caller's claim, not a
/// guarantee: every variant's authority rests on something the path cannot
/// assert about itself — a catalog root, a bundle id present in the name, a
/// location — and `disposition_for` re-checks it.
#[derive(Debug, Clone)]
pub enum Justification {
    /// Matched a safe-category catalog entry, by id.
    Catalog(String),
    /// App-managed state whose owning app is gone.
    Orphan { bundle_id: String },
    /// The application bundle and its associated files. `evidence` is the
    /// caller's claim about how `bundle_id` was established, and is
    /// re-checked for `Evidence::Verified`.
    AppBundle { bundle_id: String, evidence: Evidence },
    /// A launchd job definition the user chose to remove. Authorised by
    /// location alone: a `.plist` directly in `~/Library/LaunchAgents`.
    StartupItem,
    /// An iOS device backup. Authorised by location alone: a direct child of
    /// `~/Library/Application Support/MobileSync/Backup`.
    DeviceBackup,
}

/// How strongly a path is tied to the application being removed.
#[derive(Debug, Clone, Copy, PartialEq, Eq, Structural)]
pub enum Evidence {
    Verified,
    Likely,
}

/// One path `execute` has been asked to remove, and the claim that
/// authorises it.
#[derive(Debug, Clone)]
pub struct Candidate {
    pub path: String,
    pub justification: Justification,
}

#[derive(Debug, Clone, PartialEq, Eq)]
pub enum Outcome {
    Removed(Disposition),
    /// A directory removal failed partway through: some of its contents
    /// were already destroyed. Never reported as `Failed`, which reads as
    /// "nothing happened".
    PartiallyRemoved(String),
    /// Skipped because of the user's exclusion list, naming the entry
    /// responsible.
    Excluded(String),
    Denied(String),
    Failed(String),
}

#[derive(Debug, Clone)]
pub struct Report {
    pub path: String,
    pub outcome: Outcome,
}

/// Why a deletion attempt failed. Reporting a partial directory failure as
/// `Total` would read as "nothing happened" when some of it was destroyed.
#[derive(Debug, Clone)]
pub enum FailureKind {
    Total(String),
    Partial(String),
}

/// A justification as the specifications see it.
pub enum JustView {
    Catalog(Seq<char>),
    Orphan(Seq<char>),
    AppBundle(Seq<char>, Evidence),
    StartupItem,
    DeviceBackup,
}

pub open spec fn just_view(j: Justification) -> JustView {
    match j {
        Justification::Catalog(id) => JustView::Catalog(id@),
        Justification::Orphan { bundle_id } => JustView::Orphan(bundle_id@),
        Justification::AppBundle { bundle_id, evidence } => JustView::AppBundle(bundle_id@, evidence),
        Justification::StartupItem => JustView::StartupItem,
        Justification::DeviceBackup => JustView::DeviceBackup,
    }
}

} // verus!
