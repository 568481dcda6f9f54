//! The Clean screen: the categories offered, the preview cap, the
//! candidates a selection makes, and the report a run adds up to.

use super::{
    dedup_by_id, has_id, tally, tally_places_every_report, tally_spec, tally_total, tally_view, FailedItem,
    Tally,
};
use crate::catalog::{
    catalog, catalog_spec, entries_view, entry_view, find, find_spec, CatalogEntry,
};

use crate::remove::types::{Candidate, Justification, Report};
use crate::scan::CategoryResult;
use crate::text::{chars_of, push_str, string_of};
use crate::volume::{material, shortfall_is_material};
use vstd::prelude::*;

verus! {

/// Paths per category sent to the webview; the true count and total stay.
pub const PATHS_PREVIEW_LIMIT: usize = 500;

#[derive(Debug)]
pub struct CategorySummary {
    pub id: String,
    pub label: String,
}

/// One summary per catalog entry, in catalog order, with its label verbatim.
pub fn category_summaries() -> (r: Vec<CategorySummary>)
    ensures
        r@.len() == catalog_spec().len(),
        forall|i: int|
            0 <= i < r@.len() ==> (#[trigger] r@[i]).id@ == catalog_spec()[i].id && r@[i].label@
                == catalog_spec()[i].label,
{
    let c = catalog();
    let mut out: Vec<CategorySummary> = Vec::new();
    let mut i: usize = 0;
    while i < c.len()
        invariant
            entries_view(c@) == catalog_spec(),
            i <= c.len(),
            out@.len() == i,
            forall|j: int|
                0 <= j < i ==> (#[trigger] out@[j]).id@ == catalog_spec()[j].id && out@[j].label@
                    == catalog_spec()[j].label,
        decreases c.len() - i,
    {
        assert(entry_view(c@[i as int]) == catalog_spec()[i as int]);
        out.push(CategorySummary { id: c[i].id.to_owned(), label: c[i].label.to_owned() });
        i += 1;
    }
    out
}

/// The path preview capped at the limit; the true count and total stay.
pub fn capped(result: CategoryResult) -> (r: CategoryResult)
    ensures
        r.id == result.id,
        r.label == result.label,
        r.bytes == result.bytes,
        r.items == result.items,
        r.paths@ == if result.paths@.len() > PATHS_PREVIEW_LIMIT {
            result.paths@.take(PATHS_PREVIEW_LIMIT as int)
        } else {
            result.paths@
        },
{
    let mut result = result;
    if result.paths.len() > PATHS_PREVIEW_LIMIT {
        result.paths.truncate(PATHS_PREVIEW_LIMIT);
    }
    result
}

/// Every candidate carries the catalog justification of the category it was
/// scanned from; nothing the webview sends supplies one.
pub fn catalog_candidates_for(id: &str, result: &CategoryResult) -> (r: Vec<Candidate>)
    ensures
        r@.len() == result.paths@.len(),
        forall|i: int|
            0 <= i < r@.len() ==> ((#[trigger] r@[i]).path@ == result.paths@[i]@
                && (r@[i].justification matches Justification::Catalog(c) && c@ == id@)),
{
    let mut out: Vec<Candidate> = Vec::new();
    let mut i: usize = 0;
    while i < result.paths.len()
        invariant
            i <= result.paths.len(),
            out@.len() == i,
            forall|j: int|
                0 <= j < i ==> ((#[trigger] out@[j]).path@ == result.paths@[j]@
                    && (out@[j].justification matches Justification::Catalog(c) && c@ == id@)),
        decreases result.paths.len() - i,
    {
        out.push(Candidate {
            path: result.paths[i].clone(),
            justification: Justification::Catalog(id.to_owned()),
        });
        i += 1;
    }
    out
}

pub open spec fn snapshot_note_text() -> Seq<char> {
    "A local Time Machine snapshot still holds some of this space. The files are gone; the space returns when the snapshot expires."@
}

pub open spec fn opt_string(o: Option<String>) -> Option<Seq<char>> {
    match o {
        Some(s) => Some(s@),
        None => None,
    }
}

/// A note only when the shortfall is material and a snapshot really exists:
/// otherwise say nothing rather than guess.
pub fn snapshot_note(estimated: u64, measured: u64, snapshots: bool) -> (r: Option<String>)
    ensures
        opt_string(r) == if material(estimated, measured) && snapshots {
            Some(snapshot_note_text())
        } else {
            None
        },
{
    if shortfall_is_material(estimated, measured) && snapshots {
        Some(
            "A local Time Machine snapshot still holds some of this space. The files are gone; the space returns when the snapshot expires.".to_owned(),
        )
    } else {
        None
    }
}

pub open spec fn empty_selection_message() -> Seq<char> {
    "No categories were selected. Tick at least one and try again."@
}

pub open spec fn unknown_category_message(id: Seq<char>) -> Seq<char> {
    "\""@ + id + "\" is not a category in this release. Nothing was removed. Reopen Spiral Clean to refresh the list."@
}

pub open spec fn all_in_catalog(ids: Seq<String>, upto: int) -> bool {
    forall|k: int| 0 <= k < upto ==> (#[trigger] find_spec(ids[k]@)) is Some
}

/// What a selection resolves to: refused when empty, refused whole on the
/// first id that is not a category, otherwise each selected entry once.
pub fn clean_selection(ids: Vec<String>) -> (r: Result<Vec<(String, CatalogEntry)>, String>)
    ensures
        ids@.len() == 0 ==> (r matches Err(m) && m@ == empty_selection_message()),
        ids@.len() > 0 ==> (r is Ok <==> all_in_catalog(ids@, ids@.len() as int)),
        ids@.len() > 0 ==> (r matches Err(m) ==> exists|k: int|
            0 <= k < ids@.len() && all_in_catalog(ids@, k) && (#[trigger] find_spec(ids@[k]@)) is None
                && m@ == unknown_category_message(ids@[k]@)),
        r matches Ok(entries) ==> {
            &&& forall|i: int, j: int| 0 <= i < j < entries@.len() ==> entries@[i].0@ != entries@[j].0@
            &&& forall|i: int|
                0 <= i < entries@.len() ==> exists|k: int|
                    0 <= k < ids@.len() && (#[trigger] entries@[i]).0@ == ids@[k]@ && find_spec(ids@[k]@)
                        == Some(entry_view(entries@[i].1))
            &&& forall|k: int| 0 <= k < ids@.len() ==> has_id(entries@, (#[trigger] ids@[k])@)
        },
{
    if ids.len() == 0 {
        return Err("No categories were selected. Tick at least one and try again.".to_owned());
    }
    let mut entries: Vec<(String, CatalogEntry)> = Vec::new();
    let mut k: usize = 0;
    while k < ids.len()
        invariant
            k <= ids.len(),
            entries@.len() == k,
            all_in_catalog(ids@, k as int),
            forall|j: int|
                0 <= j < k ==> (#[trigger] entries@[j]).0@ == ids@[j]@ && find_spec(ids@[j]@) == Some(
                    entry_view(entries@[j].1),
                ),
        decreases ids.len() - k,
    {
        match find(ids[k].as_str()) {
            Some(e) => {
                entries.push((ids[k].clone(), e));
            },
            None => {
                let mut m = chars_of("\"");
                push_str(&mut m, ids[k].as_str());
                push_str(
                    &mut m,
                    "\" is not a category in this release. Nothing was removed. Reopen Spiral Clean to refresh the list.",
                );
                let r = Err(string_of(m.as_slice()));
                assert(find_spec(ids@[k as int]@) is None);
                return r;
            },
        }
        k += 1;
    }
    let ghost before = entries@;
    let out = dedup_by_id(entries);
    proof {
        assert forall|i: int| 0 <= i < out@.len() implies exists|k: int|
            0 <= k < ids@.len() && (#[trigger] out@[i]).0@ == ids@[k]@ && find_spec(ids@[k]@) == Some(
                entry_view(out@[i].1),
            ) by {
            assert(before.contains(out@[i]));
            let j = choose|j: int| 0 <= j < before.len() && before[j] == out@[i];
            assert(before[j].0@ == ids@[j]@);
        }
        assert forall|k: int| 0 <= k < ids@.len() implies has_id(out@, (#[trigger] ids@[k])@) by {
            assert(before[k].0@ == ids@[k]@);
            assert(has_id(out@, before[k].0@));
        }
    }
    Ok(out)
}

/// The scan result for an entry: the last one carrying its id.
pub open spec fn result_for(results: Seq<CategoryResult>, id: Seq<char>) -> Option<CategoryResult>
    decreases results.len(),
{
    if results.len() == 0 {
        None
    } else if results.last().id@ == id {
        Some(results.last())
    } else {
        result_for(results.drop_last(), id)
    }
}

fn find_result(results: &Vec<CategoryResult>, id: &str) -> (r: Option<usize>)
    ensures
        match r {
            Some(i) => i < results.len() && result_for(results@, id@) == Some(results@[i as int]),
            None => result_for(results@, id@) is None,
        },
{
    let mut i = results.len();
    assert(results@.take(i as int) =~= results@);
    while i > 0
        invariant
            i <= results.len(),
            result_for(results@, id@) == result_for(results@.take(i as int), id@),
        decreases i,
    {
        let ghost t = results@.take(i as int);
        assert(t.drop_last() =~= results@.take(i - 1));
        assert(t.last() == results@[i - 1]);
        if crate::text::str_eq(results[i - 1].id.as_str(), id) {
            return Some(i - 1);
        }
        i -= 1;
    }
    None
}

pub open spec fn sum_sat(a: u64, b: u64) -> u64 {
    if a + b > u64::MAX { u64::MAX } else { (a + b) as u64 }
}

/// The candidates and estimate for the selected entries, from a scan
/// attributed against the whole catalog: each entry takes the files its
/// category claimed, under its own id.
pub open spec fn clean_plan(entries: Seq<(String, CatalogEntry)>, results: Seq<CategoryResult>) -> (Seq<(Seq<char>, Seq<char>)>, u64)
    decreases entries.len(),
{
    if entries.len() == 0 {
        (Seq::empty(), 0)
    } else {
        let (cands, est) = clean_plan(entries.drop_last(), results);
        let id = entries.last().0@;
        match result_for(results, id) {
            Some(res) => (
                cands + res.paths@.map_values(|p: String| (p@, id)),
                sum_sat(est, res.bytes),
            ),
            None => (cands, est),
        }
    }
}

/// The bytes of the selected entries' categories, summed.
pub open spec fn selected_bytes(entries: Seq<(String, CatalogEntry)>, results: Seq<CategoryResult>) -> int
    decreases entries.len(),
{
    if entries.len() == 0 {
        0
    } else {
        selected_bytes(entries.drop_last(), results) + match result_for(results, entries.last().0@) {
            Some(res) => res.bytes as int,
            None => 0,
        }
    }
}

/// How many paths the selected entries' categories hold, summed.
pub open spec fn selected_paths(entries: Seq<(String, CatalogEntry)>, results: Seq<CategoryResult>) -> nat
    decreases entries.len(),
{
    if entries.len() == 0 {
        0
    } else {
        selected_paths(entries.drop_last(), results) + match result_for(results, entries.last().0@) {
            Some(res) => res.paths@.len(),
            None => 0,
        }
    }
}

proof fn lemma_plan_sums(entries: Seq<(String, CatalogEntry)>, results: Seq<CategoryResult>)
    ensures
        clean_plan(entries, results).1 as int == if selected_bytes(entries, results) > u64::MAX {
            u64::MAX as int
        } else {
            selected_bytes(entries, results)
        },
        clean_plan(entries, results).0.len() == selected_paths(entries, results),
    decreases entries.len(),
{
    if entries.len() > 0 {
        lemma_plan_sums(entries.drop_last(), results);
    }
}

/// A Clean run accounts for its selection: the estimate is the sum of the
/// selected categories' bytes (held at the largest `u64`), and when the
/// removal reports once per candidate, the removed, partially removed,
/// excluded and failed counts add up to the number of paths in those
/// categories.
pub proof fn clean_run_accounts_for_its_selection(
    entries: Seq<(String, CatalogEntry)>,
    results: Seq<CategoryResult>,
    reports: Seq<Report>,
)
    requires
        reports.len() == clean_plan(entries, results).0.len(),
    ensures
        clean_plan(entries, results).1 as int == if selected_bytes(entries, results) > u64::MAX {
            u64::MAX as int
        } else {
            selected_bytes(entries, results)
        },
        tally_total(tally_spec(reports)) == selected_paths(entries, results),
{
    lemma_plan_sums(entries, results);
    tally_places_every_report(reports);
}

pub open spec fn candidate_view(c: Candidate) -> (Seq<char>, Seq<char>) {
    (c.path@, match c.justification {
        Justification::Catalog(id) => id@,
        _ => Seq::empty(),
    })
}

pub fn clean_candidates(entries: &Vec<(String, CatalogEntry)>, results: &Vec<CategoryResult>) -> (r: (Vec<Candidate>, u64))
    ensures
        r.0@.map_values(|c: Candidate| candidate_view(c)) == clean_plan(entries@, results@).0,
        forall|i: int| 0 <= i < r.0@.len() ==> (#[trigger] r.0@[i]).justification is Catalog,
        r.1 == clean_plan(entries@, results@).1,
{
    let mut cands: Vec<Candidate> = Vec::new();
    let mut est: u64 = 0;
    let mut k: usize = 0;
    assert(entries@.take(0) =~= Seq::<(String, CatalogEntry)>::empty());
    while k < entries.len()
        invariant
            k <= entries.len(),
            cands@.map_values(|c: Candidate| candidate_view(c)) == clean_plan(entries@.take(k as int), results@).0,
            forall|i: int| 0 <= i < cands@.len() ==> (#[trigger] cands@[i]).justification is Catalog,
            est == clean_plan(entries@.take(k as int), results@).1,
        decreases entries.len() - k,
    {
        assert(entries@.take(k + 1).drop_last() =~= entries@.take(k as int));
        assert(entries@.take(k + 1).last() == entries@[k as int]);
        let id = entries[k].0.as_str();
        match find_result(results, id) {
            Some(i) => {
                let more = catalog_candidates_for(id, &results[i]);
                let ghost before = cands@;
                let mut more = more;
                let ghost added = more@;
                cands.append(&mut more);
                assert(cands@.map_values(|c: Candidate| candidate_view(c)) =~= before.map_values(
                    |c: Candidate| candidate_view(c),
                ) + results@[i as int].paths@.map_values(|p: String| (p@, id@)));
                assert forall|x: int| 0 <= x < cands@.len() implies (#[trigger] cands@[x]).justification is Catalog by {
                    if x >= before.len() {
                        assert(cands@[x] == added[x - before.len()]);
                    } else {
                        assert(cands@[x] == before[x]);
                    }
                }
                est = match est.checked_add(results[i].bytes) {
                    Some(x) => x,
                    None => 18446744073709551615,
                };
            },
            None => {},
        }
        k += 1;
    }
    assert(entries@.take(entries@.len() as int) =~= entries@);
    (cands, est)
}

#[derive(Debug)]
pub struct CleanReport {
    /// Logical size of what was selected. Always an estimate.
    pub estimated_bytes: u64,
    /// Actual change in volume free space: the reported result.
    pub measured_bytes: u64,
    pub removed: usize,
    /// Items partly destroyed, kept apart from `failed`.
    pub partially_removed: Vec<FailedItem>,
    pub excluded: usize,
    pub failed: Vec<FailedItem>,
    /// Present only when a material shortfall was explained by a real snapshot.
    pub snapshot_note: Option<String>,
}

/// What a run reports: the removal's tally, the estimate, the measured
/// delta, and a snapshot note when one explains a material shortfall.
pub fn clean_report(reports: Vec<Report>, estimated: u64, measured: u64, snapshots: bool) -> (r: CleanReport)
    ensures
        r.estimated_bytes == estimated,
        r.measured_bytes == measured,
        tally_view(
            Tally {
                removed: r.removed,
                partially_removed: r.partially_removed,
                excluded: r.excluded,
                failed: r.failed,
            },
        ) == tally_spec(reports@),
        opt_string(r.snapshot_note) == if material(estimated, measured) && snapshots {
            Some(snapshot_note_text())
        } else {
            None
        },
{
    let t = tally(reports);
    let note = snapshot_note(estimated, measured, snapshots);
    CleanReport {
        estimated_bytes: estimated,
        measured_bytes: measured,
        removed: t.removed,
        partially_removed: t.partially_removed,
        excluded: t.excluded,
        failed: t.failed,
        snapshot_note: note,
    }
}

} // verus!
