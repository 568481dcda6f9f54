//! Installed applications as the rest of the library sees them. Finding
//! them on disk is the caller's work.

use vstd::prelude::*;

verus! {

/// Who else owns an app's removal, when something does.
#[derive(Debug, Clone, PartialEq, Eq)]
pub enum Handoff {
    /// Installed by Homebrew as a cask, under this token: `brew` must remove
    /// it, or its own metadata is orphaned.
    HomebrewCask(String),
    /// Installs a system extension, which deleting files cannot remove.
    SystemExtension,
}

/// An application found installed.
#[derive(Debug, Clone)]
pub struct InstalledApp {
    pub name: String,
    pub bundle_id: String,
    /// The `.app` bundle.
    pub path: String,
    pub handoff: Option<Handoff>,
}

} // verus!
