//! The safe-category catalog: the sole authority on what Spiral Clean may
//! permanently delete. Adding to it is a release decision, never a runtime
//! inference.

use crate::paths::{join, join_exec};
use crate::text::{chars_of, without_prefix, string_of, strip_prefix};
use vstd::prelude::*;

verus! {

#[derive(Debug, Clone, Copy, PartialEq, Eq, Structural)]
pub enum Disposition {
    /// Deleted outright. Only ever reached via a catalog match.
    Permanent,
    /// Moved to the macOS Trash.
    Trash,
}

#[derive(Debug, Clone)]
pub struct CatalogEntry {
    pub id: &'static str,
    pub label: &'static str,
    /// Roots this entry sweeps. A leading `~` is expanded at runtime.
    pub roots: Vec<&'static str>,
    pub disposition: Disposition,
}

/// An entry as the specifications see it.
pub struct EntryView {
    pub id: Seq<char>,
    pub label: Seq<char>,
    pub roots: Seq<Seq<char>>,
    pub disposition: Disposition,
}

pub open spec fn entry_view(e: CatalogEntry) -> EntryView {
    EntryView {
        id: e.id@,
        label: e.label@,
        roots: e.roots@.map_values(|r: &'static str| r@),
        disposition: e.disposition,
    }
}

pub open spec fn entries_view(es: Seq<CatalogEntry>) -> Seq<EntryView> {
    es.map_values(|e: CatalogEntry| entry_view(e))
}

pub open spec fn ev(id: &'static str, label: &'static str, roots: Seq<Seq<char>>) -> EntryView {
    EntryView { id: id@, label: label@, roots, disposition: Disposition::Permanent }
}

/// The catalog, in order.
pub open spec fn catalog_spec() -> Seq<EntryView> {
    seq![
        ev("user-caches", "Application caches", seq!["~/Library/Caches"@]),
        ev(
            "icon-services-cache",
            "Icon cache",
            seq!["~/Library/Caches/com.apple.iconservices.store"@],
        ),
        ev("user-logs", "Logs", seq!["~/Library/Logs"@]),
        ev("crash-reports", "Crash reports", seq!["~/Library/Logs/DiagnosticReports"@]),
        ev("saved-state", "Saved application state", seq!["~/Library/Saved Application State"@]),
        ev(
            "xcode-derived-data",
            "Xcode derived data",
            seq!["~/Library/Developer/Xcode/DerivedData"@],
        ),
        ev(
            "ios-device-support",
            "iOS device support",
            seq!["~/Library/Developer/Xcode/iOS DeviceSupport"@],
        ),
        ev(
            "simulator-caches",
            "Simulator caches",
            seq!["~/Library/Developer/CoreSimulator/Caches"@],
        ),
        ev(
            "package-manager-caches",
            "Package manager download caches",
            seq![
                "~/Library/Caches/org.swift.swiftpm"@,
                "~/.gradle/caches"@,
                "~/.npm/_cacache"@,
            ],
        ),
        ev("chrome-cache", "Chrome cache", seq!["~/Library/Caches/Google/Chrome"@]),
        ev("brave-cache", "Brave cache", seq!["~/Library/Caches/BraveSoftware/Brave-Browser"@]),
        ev("edge-cache", "Edge cache", seq!["~/Library/Caches/Microsoft Edge"@]),
        ev("firefox-cache", "Firefox cache", seq!["~/Library/Caches/Firefox"@]),
        ev("trash", "Trash", seq!["~/.Trash"@]),
    ]
}

fn entry(
    id: &'static str,
    label: &'static str,
    roots: Vec<&'static str>,
) -> (e: CatalogEntry)
    ensures
        entry_view(e) == ev(id, label, roots@.map_values(|r: &'static str| r@)),
{
    CatalogEntry { id, label, roots, disposition: Disposition::Permanent }
}

fn one(r: &'static str) -> (v: Vec<&'static str>)
    ensures
        v@.map_values(|x: &'static str| x@) == seq![r@],
{
    let mut v = Vec::new();
    v.push(r);
    assert(v@.map_values(|x: &'static str| x@) =~= seq![r@]);
    v
}

/// The safe-category catalog. Every entry is `Permanent`: catalog membership
/// *is* the permanent-delete rule.
pub fn catalog() -> (c: Vec<CatalogEntry>)
    ensures
        entries_view(c@) == catalog_spec(),
{
    let mut c: Vec<CatalogEntry> = Vec::new();
    c.push(entry("user-caches", "Application caches", one("~/Library/Caches")));
    c.push(
        entry(
            "icon-services-cache",
            "Icon cache",
            one("~/Library/Caches/com.apple.iconservices.store"),
        ),
    );
    c.push(entry("user-logs", "Logs", one("~/Library/Logs")));
    c.push(entry("crash-reports", "Crash reports", one("~/Library/Logs/DiagnosticReports")));
    c.push(entry("saved-state", "Saved application state", one("~/Library/Saved Application State")));
    c.push(
        entry("xcode-derived-data", "Xcode derived data", one("~/Library/Developer/Xcode/DerivedData")),
    );
    c.push(
        entry(
            "ios-device-support",
            "iOS device support",
            one("~/Library/Developer/Xcode/iOS DeviceSupport"),
        ),
    );
    c.push(
        entry("simulator-caches", "Simulator caches", one("~/Library/Developer/CoreSimulator/Caches")),
    );
    let mut pm: Vec<&'static str> = Vec::new();
    pm.push("~/Library/Caches/org.swift.swiftpm");
    pm.push("~/.gradle/caches");
    pm.push("~/.npm/_cacache");
    assert(pm@.map_values(|x: &'static str| x@) =~= seq![
        "~/Library/Caches/org.swift.swiftpm"@,
        "~/.gradle/caches"@,
        "~/.npm/_cacache"@,
    ]);
    c.push(entry("package-manager-caches", "Package manager download caches", pm));
    c.push(entry("chrome-cache", "Chrome cache", one("~/Library/Caches/Google/Chrome")));
    c.push(entry("brave-cache", "Brave cache", one("~/Library/Caches/BraveSoftware/Brave-Browser")));
    c.push(entry("edge-cache", "Edge cache", one("~/Library/Caches/Microsoft Edge")));
    c.push(entry("firefox-cache", "Firefox cache", one("~/Library/Caches/Firefox")));
    c.push(entry("trash", "Trash", one("~/.Trash")));
    assert(entries_view(c@) =~= catalog_spec());
    c
}

/// The position of the first entry whose id is `id`.
pub open spec fn find_index(id: Seq<char>) -> Option<int> {
    if exists|i: int| 0 <= i < catalog_spec().len() && (#[trigger] catalog_spec()[i]).id == id {
        Some(
            choose|i: int|
                0 <= i < catalog_spec().len() && catalog_spec()[i].id == id && forall|j: int|
                    0 <= j < i ==> (#[trigger] catalog_spec()[j]).id != id,
        )
    } else {
        None
    }
}

pub open spec fn find_spec(id: Seq<char>) -> Option<EntryView> {
    match find_index(id) {
        Some(i) => Some(catalog_spec()[i]),
        None => None,
    }
}

/// The catalog entry named `id`, if this release has one.
pub fn find(id: &str) -> (r: Option<CatalogEntry>)
    ensures
        match r {
            Some(e) => find_spec(id@) == Some(entry_view(e)),
            None => find_spec(id@) is None,
        },
{
    let mut c = catalog();
    let want = chars_of(id);
    let mut i: usize = 0;
    while i < c.len()
        invariant
            entries_view(c@) == catalog_spec(),
            want@ == id@,
            i <= c.len(),
            forall|j: int| 0 <= j < i ==> (#[trigger] catalog_spec()[j]).id != id@,
        decreases c.len() - i,
    {
        assert(catalog_spec()[i as int] == entry_view(c@[i as int]));
        let have = chars_of(c[i].id);
        if crate::text::seq_eq(&have, &want) {
            proof {
                let k = choose|k: int|
                    0 <= k < catalog_spec().len() && catalog_spec()[k].id == id@ && forall|j: int|
                        0 <= j < k ==> (#[trigger] catalog_spec()[j]).id != id@;
                assert(k == i) by {
                    if k < i {
                    } else if k > i {
                    }
                }
            }
            let e = c.remove(i);
            return Some(e);
        }
        i += 1;
    }
    None
}

pub open spec fn home_prefix() -> Seq<char> {
    seq!['~', '/']
}

/// A catalog root against `home`: only a leading `~/` is special, so a root
/// can never be built from anything but the table above.
pub open spec fn expand_spec(root: Seq<char>, home: Seq<char>) -> Seq<char> {
    match strip_prefix(root, home_prefix()) {
        Some(rest) => join(home, rest),
        None => root,
    }
}

/// Resolve a catalog root against a given home directory.
pub fn expand(root: &str, home: &str) -> (r: String)
    ensures
        r@ == expand_spec(root@, home@),
{
    let r = chars_of(root);
    let mut tilde = Vec::new();
    tilde.push('~');
    tilde.push('/');
    assert(tilde@ =~= home_prefix());
    match without_prefix(&r, &tilde) {
        Some(rest) => {
            let rest = string_of(&rest);
            join_exec(home, rest.as_str())
        },
        None => root.to_owned(),
    }
}

// ---------------------------------------------------------------------------
// Laws of the table
// ---------------------------------------------------------------------------

/// Every entry is `Permanent`: catalog membership is the permanent-delete
/// rule, so a Trash-bound entry would mean the catalog no longer answers
/// "what may this app destroy".
pub proof fn lemma_every_entry_is_permanent()
    ensures
        forall|i: int|
            0 <= i < catalog_spec().len() ==> (#[trigger] catalog_spec()[i]).disposition
                == Disposition::Permanent,
{
}

/// No two entries share an id, so an id names one category.
pub proof fn lemma_catalog_ids_are_unique()
    ensures
        forall|i: int, j: int|
            0 <= i < j < catalog_spec().len() ==> (#[trigger] catalog_spec()[i]).id
                != (#[trigger] catalog_spec()[j]).id,
{
    reveal_strlit("user-caches");
    reveal_strlit("icon-services-cache");
    reveal_strlit("user-logs");
    reveal_strlit("crash-reports");
    reveal_strlit("saved-state");
    reveal_strlit("xcode-derived-data");
    reveal_strlit("ios-device-support");
    reveal_strlit("simulator-caches");
    reveal_strlit("package-manager-caches");
    reveal_strlit("chrome-cache");
    reveal_strlit("brave-cache");
    reveal_strlit("edge-cache");
    reveal_strlit("firefox-cache");
    reveal_strlit("trash");
    let t = catalog_spec();
    assert forall|i: int, j: int| 0 <= i < j < t.len() implies #[trigger] t[i].id != #[trigger] t[j].id by {
        if t[i].id == t[j].id {
            assert(t[i].id.len() == t[j].id.len());
            assert(t[i].id[0] == t[j].id[0]);
        }
    }
}

} // verus!
