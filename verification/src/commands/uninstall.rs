//! The Uninstall screen: what an app owns, in a fixed order, and the
//! removal after the review sheet. The webview names positions in the list
//! it was shown and echoes that list; the list is re-derived before any
//! index is trusted.

use super::{
    first_out_of_range, keep_unselected, kept, out_of_range, plural, push_count, push_plural,
};
use crate::apps::{Handoff, InstalledApp};
use crate::associate::Associated;
use crate::order::{lemma_lex_total, lemma_lex_trans, lex_le, sort_by, sorted_by, text_le};
use crate::remove::types::{Candidate, Evidence, Justification};
use crate::text::{chars_of, push_str, str_eq, string_of};
use vstd::prelude::*;

verus! {

#[derive(Debug)]
pub struct AppSummary {
    pub name: String,
    pub bundle_id: String,
    pub bytes: u64,
    pub handoff: Option<String>,
    pub running: bool,
    /// Display only; never authority.
    pub path: String,
}

#[derive(Debug)]
pub struct InspectItem {
    pub path: String,
    pub bytes: u64,
    pub evidence: Evidence,
}

#[derive(Debug)]
pub struct InspectResult {
    pub bundle_id: String,
    pub name: String,
    pub items: Vec<InspectItem>,
    pub handoff: Option<String>,
    pub running: bool,
}

pub open spec fn system_extension_text() -> Seq<char> {
    "This app installs a system extension, which cannot be removed by deleting files. Open System Settings -> General -> Login Items & Extensions to remove it, then reopen Spiral Clean."@
}

/// Shown in place of a delete: the exact `brew` command for a cask, or
/// where to go for a system extension.
pub open spec fn handoff_text(h: Handoff) -> Seq<char> {
    match h {
        Handoff::HomebrewCask(token) => "brew uninstall --cask "@ + token@,
        Handoff::SystemExtension => system_extension_text(),
    }
}

pub fn handoff_label(handoff: &Handoff) -> (r: String)
    ensures
        r@ == handoff_text(*handoff),
{
    match handoff {
        Handoff::HomebrewCask(token) => {
            let mut v = chars_of("brew uninstall --cask ");
            push_str(&mut v, token.as_str());
            string_of(v.as_slice())
        },
        Handoff::SystemExtension => "This app installs a system extension, which cannot be removed by deleting files. Open System Settings -> General -> Login Items & Extensions to remove it, then reopen Spiral Clean.".to_owned(),
    }
}

pub open spec fn opt_handoff(h: Option<Handoff>) -> Option<Seq<char>> {
    match h {
        Some(x) => Some(handoff_text(x)),
        None => None,
    }
}

pub open spec fn opt_string(o: Option<String>) -> Option<Seq<char>> {
    match o {
        Some(s) => Some(s@),
        None => None,
    }
}

fn handoff_of(h: &Option<Handoff>) -> (r: Option<String>)
    ensures
        opt_string(r) == opt_handoff(*h),
{
    match h {
        Some(x) => Some(handoff_label(x)),
        None => None,
    }
}

/// An installed app as the Uninstall list shows it.
pub fn app_summary(app: &InstalledApp, bytes: u64, running: bool) -> (r: AppSummary)
    ensures
        r.name@ == app.name@,
        r.bundle_id@ == app.bundle_id@,
        r.bytes == bytes,
        opt_string(r.handoff) == opt_handoff(app.handoff),
        r.running == running,
        r.path@ == app.path@,
{
    AppSummary {
        name: app.name.clone(),
        bundle_id: app.bundle_id.clone(),
        bytes,
        handoff: handoff_of(&app.handoff),
        running,
        path: app.path.clone(),
    }
}

pub open spec fn item_le(a: InspectItem, b: InspectItem) -> bool {
    lex_le(a.path@, b.path@)
}

/// By path: an index means the same item on every inspection.
pub fn order_items(items: Vec<InspectItem>) -> (r: Vec<InspectItem>)
    ensures
        r@.to_multiset() == items@.to_multiset(),
        sorted_by(r@, |a: InspectItem, b: InspectItem| item_le(a, b)),
{
    let le = |a: &InspectItem, b: &InspectItem| -> (x: bool)
        ensures
            x == item_le(*a, *b),
        { text_le(a.path.as_str(), b.path.as_str()) };
    let ghost leq = |a: InspectItem, b: InspectItem| item_le(a, b);
    proof {
        assert forall|a: InspectItem, b: InspectItem| #[trigger] leq(a, b) || leq(b, a) by {
            lemma_lex_total(a.path@, b.path@);
        }
        assert forall|a: InspectItem, b: InspectItem, c: InspectItem| #[trigger] leq(a, b) && #[trigger] leq(b, c)
            implies leq(a, c) by {
            lemma_lex_trans(a.path@, b.path@, c.path@);
        }
    }
    sort_by(items, &le, Ghost(leq))
}

pub open spec fn not_installed_message(bundle_id: Seq<char>) -> Seq<char> {
    "\""@ + bundle_id
        + "\" is not an installed application. It may already have been removed. Reopen Spiral Clean to refresh the list."@
}

/// The first installed app with this bundle id.
pub open spec fn installed_with_id(apps: Seq<InstalledApp>, id: Seq<char>) -> Option<InstalledApp>
    decreases apps.len(),
{
    if apps.len() == 0 {
        None
    } else if apps[0].bundle_id@ == id {
        Some(apps[0])
    } else {
        installed_with_id(apps.drop_first(), id)
    }
}

pub fn find_app(apps: Vec<InstalledApp>, bundle_id: &str) -> (r: Result<InstalledApp, String>)
    ensures
        match installed_with_id(apps@, bundle_id@) {
            Some(a) => r == Ok::<InstalledApp, String>(a),
            None => r matches Err(m) && m@ == not_installed_message(bundle_id@),
        },
{
    let n = apps.len();
    let ghost all = apps@;
    let mut rest = apps;
    let mut k: usize = 0;
    while rest.len() > 0
        invariant
            k + rest@.len() == all.len(),
            all.len() == n,
            rest@ == all.subrange(k as int, all.len() as int),
            installed_with_id(all, bundle_id@) == installed_with_id(rest@, bundle_id@),
            all == apps@,
        decreases rest.len(),
    {
        let ghost before = rest@;
        let a = rest.remove(0);
        assert(before.drop_first() =~= rest@);
        assert(before[0] == a);
        if str_eq(a.bundle_id.as_str(), bundle_id) {
            return Ok(a);
        }
        k += 1;
    }
    let mut m = chars_of("\"");
    push_str(&mut m, bundle_id);
    push_str(
        &mut m,
        "\" is not an installed application. It may already have been removed. Reopen Spiral Clean to refresh the list.",
    );
    Err(string_of(m.as_slice()))
}

pub open spec fn item_view(i: InspectItem) -> (Seq<char>, u64, Evidence) {
    (i.path@, i.bytes, i.evidence)
}

/// What an app owns: everything associated with it, and, unless something
/// else owns its removal, the `.app` bundle itself as an item like any
/// other, carrying `Verified` for the boundary to check against the bundle's
/// own `Info.plist`.
pub open spec fn owned_items(app: InstalledApp, associated: Seq<Associated>, bundle_bytes: u64) -> Seq<(Seq<char>, u64, Evidence)> {
    let found = associated.map_values(|a: Associated| (a.path@, a.bytes, a.evidence));
    if app.handoff is None {
        found.push((app.path@, bundle_bytes, Evidence::Verified))
    } else {
        found
    }
}

pub fn inspection(app: InstalledApp, associated: Vec<Associated>, bundle_bytes: u64, running: bool) -> (r: InspectResult)
    ensures
        r.bundle_id@ == app.bundle_id@,
        r.name@ == app.name@,
        r.running == running,
        opt_string(r.handoff) == opt_handoff(app.handoff),
        r.items@.map_values(|i: InspectItem| item_view(i)).to_multiset() == owned_items(
            app,
            associated@,
            bundle_bytes,
        ).to_multiset(),
        sorted_by(r.items@, |a: InspectItem, b: InspectItem| item_le(a, b)),
{
    let n = associated.len();
    let ghost orig = associated@;
    let mut rest = associated;
    let mut items: Vec<InspectItem> = Vec::new();
    let mut k: usize = 0;
    while rest.len() > 0
        invariant
            n == orig.len(),
            k + rest@.len() == n,
            rest@ == orig.subrange(k as int, n as int),
            items@.map_values(|i: InspectItem| item_view(i)) == orig.take(k as int).map_values(
                |a: Associated| (a.path@, a.bytes, a.evidence),
            ),
        decreases rest.len(),
    {
        let a = rest.remove(0);
        assert(a == orig[k as int]);
        let ghost before = items@;
        let ghost av = (a.path@, a.bytes, a.evidence);
        let item = InspectItem { path: a.path, bytes: a.bytes, evidence: a.evidence };
        assert(item_view(item) == av);
        items.push(item);
        assert(orig.take(k + 1) =~= orig.take(k as int).push(orig[k as int]));
        assert(items@.map_values(|i: InspectItem| item_view(i)) =~= before.map_values(|i: InspectItem| item_view(i)).push(av));
        assert(items@.map_values(|i: InspectItem| item_view(i)) =~= orig.take(k + 1).map_values(
            |a: Associated| (a.path@, a.bytes, a.evidence),
        ));
        k += 1;
        assert(rest@ =~= orig.subrange(k as int, n as int));
    }
    assert(orig.take(n as int) =~= orig);
    if app.handoff.is_none() {
        let ghost before = items@;
        let item = InspectItem { path: app.path.clone(), bytes: bundle_bytes, evidence: Evidence::Verified };
        items.push(item);
        assert(items@.map_values(|i: InspectItem| item_view(i)) =~= before.map_values(|i: InspectItem| item_view(i)).push(
            (app.path@, bundle_bytes, Evidence::Verified),
        ));
    }
    let ghost unsorted = items@;
    let handoff = handoff_of(&app.handoff);
    let sorted = order_items(items);
    proof {
        crate::order::lemma_permutation_maps(sorted@, unsorted, |i: InspectItem| item_view(i));
    }
    InspectResult { bundle_id: app.bundle_id, name: app.name, items: sorted, handoff, running }
}

pub open spec fn bundle_candidate(c: Candidate) -> (Seq<char>, Seq<char>, Evidence) {
    match c.justification {
        Justification::AppBundle { bundle_id, evidence } => (c.path@, bundle_id@, evidence),
        _ => (c.path@, Seq::empty(), Evidence::Likely),
    }
}

/// Every item, the bundle included, under the app's id with the evidence
/// the association found for it: never a bare claim, and no exemption.
pub fn candidates_for(bundle_id: &str, items: &Vec<InspectItem>) -> (r: Vec<Candidate>)
    ensures
        r@.len() == items@.len(),
        forall|i: int|
            0 <= i < r@.len() ==> (#[trigger] r@[i]).justification is AppBundle && bundle_candidate(r@[i]) == (
                items@[i].path@,
                bundle_id@,
                items@[i].evidence,
            ),
{
    let mut out: Vec<Candidate> = Vec::new();
    let mut i: usize = 0;
    while i < items.len()
        invariant
            i <= items.len(),
            out@.len() == i,
            forall|j: int|
                0 <= j < i ==> (#[trigger] out@[j]).justification is AppBundle && bundle_candidate(out@[j]) == (
                    items@[j].path@,
                    bundle_id@,
                    items@[j].evidence,
                ),
        decreases items.len() - i,
    {
        out.push(Candidate {
            path: items[i].path.clone(),
            justification: Justification::AppBundle {
                bundle_id: bundle_id.to_owned(),
                evidence: items[i].evidence,
            },
        });
        i += 1;
    }
    out
}

pub open spec fn paths_of(items: Seq<InspectItem>) -> Seq<Seq<char>> {
    items.map_values(|i: InspectItem| i.path@)
}

/// `displayed` names exactly the items just found, in the same order: a
/// checksum, never authority.
pub fn echo_matches_inspection(displayed: &Vec<String>, items: &Vec<InspectItem>) -> (r: bool)
    ensures
        r == (displayed@.map_values(|s: String| s@) == paths_of(items@)),
{
    if displayed.len() != items.len() {
        assert(displayed@.map_values(|s: String| s@).len() != paths_of(items@).len());
        return false;
    }
    let mut i: usize = 0;
    while i < displayed.len()
        invariant
            displayed.len() == items.len(),
            i <= displayed.len(),
            forall|j: int| 0 <= j < i ==> displayed@[j]@ == items@[j].path@,
        decreases displayed.len() - i,
    {
        if !str_eq(displayed[i].as_str(), items[i].path.as_str()) {
            assert(displayed@.map_values(|s: String| s@)[i as int] != paths_of(items@)[i as int]);
            return false;
        }
        i += 1;
    }
    assert(displayed@.map_values(|s: String| s@) =~= paths_of(items@));
    true
}

pub open spec fn changed_message(shown: nat, found: nat) -> Seq<char> {
    "The list of items for this app has changed since it was shown ("@ + crate::text::decimal(shown) + " item"@
        + plural(shown) + " shown, "@ + crate::text::decimal(found)
        + " found just now). Reopen the review and try again."@
}

pub open spec fn missing_item_message(index: nat, total: nat) -> Seq<char> {
    "Deselected item "@ + crate::text::decimal(index) + " does not exist — this app has "@
        + crate::text::decimal(total) + " associated item"@ + plural(total)
        + ". The list may be out of date; reopen the review and try again."@
}

/// The items to remove: refused whole when the echo no longer matches the
/// fresh inspection, or when any deselected index names no item; otherwise
/// every item not deselected, in order.
pub open spec fn items_to_remove(items: Seq<InspectItem>, deselected: Seq<usize>, displayed: Seq<Seq<char>>) -> Result<Seq<InspectItem>, Seq<char>> {
    if displayed != paths_of(items) {
        Err(changed_message(displayed.len(), items.len()))
    } else {
        match first_out_of_range(deselected, items.len()) {
            Some(i) => Err(missing_item_message(i as nat, items.len())),
            None => Ok(kept(items, deselected)),
        }
    }
}

pub open spec fn kept_result(r: Result<Vec<InspectItem>, String>) -> Result<Seq<InspectItem>, Seq<char>> {
    match r {
        Ok(v) => Ok(v@),
        Err(e) => Err(e@),
    }
}

pub fn uninstall_kept(items: Vec<InspectItem>, deselected: &Vec<usize>, displayed: &Vec<String>) -> (r: Result<
    Vec<InspectItem>,
    String,
>)
    ensures
        kept_result(r) == items_to_remove(items@, deselected@, displayed@.map_values(|s: String| s@)),
{
    if !echo_matches_inspection(displayed, &items) {
        let mut m = chars_of("The list of items for this app has changed since it was shown (");
        push_count(&mut m, displayed.len());
        push_str(&mut m, " item");
        push_plural(&mut m, displayed.len());
        push_str(&mut m, " shown, ");
        push_count(&mut m, items.len());
        push_str(&mut m, " found just now). Reopen the review and try again.");
        return Err(string_of(m.as_slice()));
    }
    let total = items.len();
    if let Some(index) = out_of_range(deselected, total) {
        let mut m = chars_of("Deselected item ");
        push_count(&mut m, index);
        push_str(&mut m, " does not exist — this app has ");
        push_count(&mut m, total);
        push_str(&mut m, " associated item");
        push_plural(&mut m, total);
        push_str(&mut m, ". The list may be out of date; reopen the review and try again.");
        return Err(string_of(m.as_slice()));
    }
    Ok(keep_unselected(items, deselected))
}

pub open spec fn inspected_bytes(items: Seq<InspectItem>) -> u64
    decreases items.len(),
{
    if items.len() == 0 {
        0
    } else {
        let s = inspected_bytes(items.drop_last());
        if s + items.last().bytes > u64::MAX { u64::MAX } else { (s + items.last().bytes) as u64 }
    }
}

/// The estimate for the items kept: their sizes added, capped at `u64::MAX`.
pub fn estimated_item_bytes(items: &Vec<InspectItem>) -> (r: u64)
    ensures
        r == inspected_bytes(items@),
{
    let mut total: u64 = 0;
    let mut k: usize = 0;
    assert(items@.take(0) =~= Seq::<InspectItem>::empty());
    while k < items.len()
        invariant
            k <= items.len(),
            total == inspected_bytes(items@.take(k as int)),
        decreases items.len() - k,
    {
        assert(items@.take(k + 1).drop_last() =~= items@.take(k as int));
        total = match total.checked_add(items[k].bytes) {
            Some(x) => x,
            None => 18446744073709551615,
        };
        k += 1;
    }
    assert(items@.take(items@.len() as int) =~= items@);
    total
}

} // verus!
