//! What the screens decide around a removal: which candidates a selection
//! makes, whether the list a user reviewed is still the list on disk, and
//! what the removal reports add up to. Running the scans and the removal,
//! and talking to the webview, are the caller's work.

pub mod clean;
pub mod leftovers;
pub mod uninstall;

use crate::catalog::CatalogEntry;
use crate::fsview::{fs_view, normalized, FsView};
use crate::order::{lemma_lex_antisym, lemma_lex_total, lemma_lex_trans, lex_le, sort_by, text_le};
use crate::paths::{render, render_exec};
use crate::remove::types::{Outcome, Report};
use crate::text::{decimal, decimal_string, push_str, str_eq};
use vstd::prelude::*;

verus! {

#[derive(Debug, Clone, PartialEq, Eq)]
pub struct FailedItem {
    pub path: String,
    pub reason: String,
}

/// What a batch of removal reports adds up to.
#[derive(Debug)]
pub struct Tally {
    pub removed: usize,
    /// Something was destroyed here, so never folded into `failed`.
    pub partially_removed: Vec<FailedItem>,
    pub excluded: usize,
    /// Denied or failed: nothing was removed.
    pub failed: Vec<FailedItem>,
}

pub struct TallyView {
    pub removed: nat,
    pub partially_removed: Seq<(Seq<char>, Seq<char>)>,
    pub excluded: nat,
    pub failed: Seq<(Seq<char>, Seq<char>)>,
}

pub open spec fn items_view(v: Seq<FailedItem>) -> Seq<(Seq<char>, Seq<char>)> {
    v.map_values(|f: FailedItem| (f.path@, f.reason@))
}

pub open spec fn tally_view(t: Tally) -> TallyView {
    TallyView {
        removed: t.removed as nat,
        partially_removed: items_view(t.partially_removed@),
        excluded: t.excluded as nat,
        failed: items_view(t.failed@),
    }
}

/// The reports summed in order: removed and excluded counted; partial
/// removals and failures (denied or failed) listed with their reasons.
pub open spec fn tally_spec(reports: Seq<Report>) -> TallyView
    decreases reports.len(),
{
    if reports.len() == 0 {
        TallyView {
            removed: 0,
            partially_removed: Seq::empty(),
            excluded: 0,
            failed: Seq::empty(),
        }
    } else {
        let t = tally_spec(reports.drop_last());
        let r = reports.last();
        match r.outcome {
            Outcome::Removed(_) => TallyView { removed: t.removed + 1, ..t },
            Outcome::PartiallyRemoved(why) => TallyView {
                partially_removed: t.partially_removed.push((r.path@, why@)),
                ..t
            },
            Outcome::Excluded(_) => TallyView { excluded: t.excluded + 1, ..t },
            Outcome::Denied(why) => TallyView { failed: t.failed.push((r.path@, why@)), ..t },
            Outcome::Failed(why) => TallyView { failed: t.failed.push((r.path@, why@)), ..t },
        }
    }
}

/// How many reports a tally has placed, over its four kinds.
pub open spec fn tally_total(t: TallyView) -> nat {
    t.removed + t.partially_removed.len() + t.excluded + t.failed.len()
}

/// Every report lands in exactly one of removed, partially removed,
/// excluded or failed.
pub proof fn tally_places_every_report(reports: Seq<Report>)
    ensures
        tally_total(tally_spec(reports)) == reports.len(),
    decreases reports.len(),
{
    if reports.len() > 0 {
        tally_places_every_report(reports.drop_last());
    }
}

proof fn lemma_tally_bounded(reports: Seq<Report>)
    ensures
        tally_spec(reports).removed + tally_spec(reports).excluded <= reports.len(),
    decreases reports.len(),
{
    if reports.len() > 0 {
        lemma_tally_bounded(reports.drop_last());
    }
}

pub fn tally(reports: Vec<Report>) -> (t: Tally)
    ensures
        tally_view(t) == tally_spec(reports@),
{
    let mut t = Tally { removed: 0, partially_removed: Vec::new(), excluded: 0, failed: Vec::new() };
    let n = reports.len();
    let ghost all = reports@;
    let mut rest = reports;
    let mut k: usize = 0;
    assert(all.take(0) =~= Seq::<Report>::empty());
    assert(items_view(t.partially_removed@) =~= Seq::<(Seq<char>, Seq<char>)>::empty());
    assert(items_view(t.failed@) =~= Seq::<(Seq<char>, Seq<char>)>::empty());
    assert(tally_view(t) == tally_spec(all.take(0)));
    while rest.len() > 0
        invariant
            k + rest@.len() == all.len(),
            n == all.len(),
            rest@ == all.subrange(k as int, all.len() as int),
            tally_view(t) == tally_spec(all.take(k as int)),
        decreases rest.len(),
    {
        let r = rest.remove(0);
        assert(r == all[k as int]);
        assert(all.take(k + 1).drop_last() =~= all.take(k as int));
        assert(all.take(k + 1).last() == r);
        proof {
            lemma_tally_bounded(all.take(k as int));
        }
        let ghost before = t;
        match r.outcome {
            Outcome::Removed(_) => {
                t.removed = t.removed + 1;
            },
            Outcome::PartiallyRemoved(reason) => {
                let item = FailedItem { path: r.path, reason };
                t.partially_removed.push(item);
                assert(items_view(t.partially_removed@) =~= items_view(before.partially_removed@).push(
                    (item.path@, item.reason@),
                ));
            },
            Outcome::Excluded(_) => {
                t.excluded = t.excluded + 1;
            },
            Outcome::Denied(reason) => {
                let item = FailedItem { path: r.path, reason };
                t.failed.push(item);
                assert(items_view(t.failed@) =~= items_view(before.failed@).push((item.path@, item.reason@)));
            },
            Outcome::Failed(reason) => {
                let item = FailedItem { path: r.path, reason };
                t.failed.push(item);
                assert(items_view(t.failed@) =~= items_view(before.failed@).push((item.path@, item.reason@)));
            },
        }
        k += 1;
        assert(rest@ =~= all.subrange(k as int, all.len() as int));
    }
    assert(all.take(all.len() as int) =~= all);
    t
}

// ---------------------------------------------------------------------------
// Deduplicating a selection
// ---------------------------------------------------------------------------

pub open spec fn id_le(a: (String, CatalogEntry), b: (String, CatalogEntry)) -> bool {
    lex_le(a.0@, b.0@)
}

/// Some entry of `s` carries `id`.
pub open spec fn has_id(s: Seq<(String, CatalogEntry)>, id: Seq<char>) -> bool {
    exists|i: int| 0 <= i < s.len() && s[i].0@ == id
}

proof fn lemma_has_id_push(s: Seq<(String, CatalogEntry)>, e: (String, CatalogEntry), id: Seq<char>)
    requires
        has_id(s, id) || e.0@ == id,
    ensures
        has_id(s.push(e), id),
{
    if e.0@ == id {
        assert(s.push(e)[s.len() as int] == e);
    } else {
        let i = choose|i: int| 0 <= i < s.len() && s[i].0@ == id;
        assert(s.push(e)[i] == s[i]);
    }
}

/// Keeps the first of each run of equal ids in an id-sorted list.
fn dedup_sorted(sorted: Vec<(String, CatalogEntry)>) -> (r: Vec<(String, CatalogEntry)>)
    requires
        forall|i: int, j: int| 0 <= i < j < sorted@.len() ==> lex_le(sorted@[i].0@, sorted@[j].0@),
    ensures
        forall|i: int, j: int| 0 <= i < j < r@.len() ==> lex_le(r@[i].0@, r@[j].0@),
        forall|i: int, j: int| 0 <= i < j < r@.len() ==> r@[i].0@ != r@[j].0@,
        forall|i: int| 0 <= i < r@.len() ==> sorted@.contains(#[trigger] r@[i]),
        forall|j: int| 0 <= j < sorted@.len() ==> has_id(r@, (#[trigger] sorted@[j]).0@),
{
    let ghost sv = sorted@;
    let n = sorted.len();
    let mut rest = sorted;
    let mut out: Vec<(String, CatalogEntry)> = Vec::new();
    let mut k: usize = 0;
    while rest.len() > 0
        invariant
            n == sv.len(),
            k + rest@.len() == n,
            rest@ == sv.subrange(k as int, n as int),
            forall|i: int, j: int| 0 <= i < j < sv.len() ==> lex_le(sv[i].0@, sv[j].0@),
            forall|i: int, j: int| 0 <= i < j < out@.len() ==> lex_le(out@[i].0@, out@[j].0@),
            forall|i: int, j: int| 0 <= i < j < out@.len() ==> out@[i].0@ != out@[j].0@,
            forall|i: int| 0 <= i < out@.len() ==> sv.contains(#[trigger] out@[i]),
            k > 0 ==> out@.len() > 0 && out@.last().0@ == sv[k - 1].0@,
            k == 0 ==> out@.len() == 0,
            forall|j: int| 0 <= j < k ==> has_id(out@, (#[trigger] sv[j]).0@),
        decreases rest.len(),
    {
        let e = rest.remove(0);
        assert(e == sv[k as int]);
        let fresh = out.len() == 0 || !str_eq(out[out.len() - 1].0.as_str(), e.0.as_str());
        let ghost before = out@;
        if fresh {
            proof {
                if before.len() > 0 {
                    let last = before.last();
                    assert(lex_le(sv[k - 1].0@, sv[k as int].0@));
                    assert forall|i: int| 0 <= i < before.len() implies lex_le(before[i].0@, e.0@)
                        && before[i].0@ != e.0@ by {
                        if i < before.len() - 1 {
                            assert(lex_le(before[i].0@, last.0@));
                            lemma_lex_trans(before[i].0@, last.0@, e.0@);
                            if before[i].0@ == e.0@ {
                                lemma_lex_antisym(last.0@, e.0@);
                            }
                        }
                    }
                }
            }
            out.push(e);
            proof {
                assert forall|i: int, j: int| 0 <= i < j < out@.len() implies lex_le(out@[i].0@, out@[j].0@)
                    && out@[i].0@ != out@[j].0@ by {
                    if j < before.len() {
                        assert(out@[i] == before[i] && out@[j] == before[j]);
                    } else {
                        assert(out@[i] == before[i] && out@[j] == e);
                    }
                }
                assert forall|i: int| 0 <= i < out@.len() implies sv.contains(#[trigger] out@[i]) by {
                    if i < before.len() {
                        assert(out@[i] == before[i]);
                    } else {
                        assert(sv[k as int] == out@[i]);
                    }
                }
                assert forall|j: int| 0 <= j < k + 1 implies has_id(out@, (#[trigger] sv[j]).0@) by {
                    if j < k {
                        lemma_has_id_push(before, e, sv[j].0@);
                    } else {
                        lemma_has_id_push(before, e, e.0@);
                    }
                }
            }
        } else {
            proof {
                assert(has_id(out@, sv[k as int].0@)) by {
                    assert(out@[out@.len() - 1].0@ == e.0@);
                }
            }
        }
        k += 1;
        assert(rest@ =~= sv.subrange(k as int, n as int));
    }
    out
}

/// Each id once, sorted, every entry one of those given, and every id given
/// still present. A duplicated id would otherwise scan the same category
/// twice and report the second pass's misses as failures.
pub fn dedup_by_id(entries: Vec<(String, CatalogEntry)>) -> (r: Vec<(String, CatalogEntry)>)
    ensures
        forall|i: int, j: int| 0 <= i < j < r@.len() ==> lex_le(r@[i].0@, r@[j].0@),
        forall|i: int, j: int| 0 <= i < j < r@.len() ==> r@[i].0@ != r@[j].0@,
        forall|i: int| 0 <= i < r@.len() ==> entries@.contains(#[trigger] r@[i]),
        forall|j: int| 0 <= j < entries@.len() ==> has_id(r@, (#[trigger] entries@[j]).0@),
{
    let le = |a: &(String, CatalogEntry), b: &(String, CatalogEntry)| -> (x: bool)
        ensures
            x == id_le(*a, *b),
        { text_le(a.0.as_str(), b.0.as_str()) };
    let ghost leq = |a: (String, CatalogEntry), b: (String, CatalogEntry)| id_le(a, b);
    proof {
        assert forall|a: (String, CatalogEntry), b: (String, CatalogEntry)| #[trigger] leq(a, b) || leq(b, a) by {
            lemma_lex_total(a.0@, b.0@);
        }
        assert forall|a: (String, CatalogEntry), b: (String, CatalogEntry), c: (String, CatalogEntry)|
            #[trigger] leq(a, b) && #[trigger] leq(b, c) implies leq(a, c) by {
            lemma_lex_trans(a.0@, b.0@, c.0@);
        }
    }
    let ghost input = entries@;
    let sorted = sort_by(entries, &le, Ghost(leq));
    let ghost sv = sorted@;
    assert forall|i: int, j: int| 0 <= i < j < sv.len() implies lex_le(sv[i].0@, sv[j].0@) by {
        assert(leq(sv[i], sv[j]));
    }
    let out = dedup_sorted(sorted);
    proof {
        broadcast use vstd::seq_lib::group_to_multiset_ensures;
        assert forall|i: int| 0 <= i < out@.len() implies input.contains(#[trigger] out@[i]) by {
            vstd::seq_lib::to_multiset_contains(sv, out@[i]);
            vstd::seq_lib::to_multiset_contains(input, out@[i]);
        }
        assert forall|j: int| 0 <= j < input.len() implies has_id(out@, (#[trigger] input[j]).0@) by {
            assert(input.contains(input[j]));
            vstd::seq_lib::to_multiset_contains(input, input[j]);
            vstd::seq_lib::to_multiset_contains(sv, input[j]);
            let m = choose|m: int| 0 <= m < sv.len() && sv[m] == input[j];
            assert(has_id(out@, sv[m].0@));
        }
    }
    out
}

// ---------------------------------------------------------------------------
// The canonical home
// ---------------------------------------------------------------------------

pub open spec fn unresolvable_home_message() -> Seq<char> {
    "Spiral Clean could not resolve your home folder, so it cannot verify any path is safe to remove. Nothing was uninstalled. Reopen Spiral Clean and try again."@
}

/// `home` as the removal boundary's own roots will see it: resolved, with
/// any firmlink prefix stripped, computed once and handed to every
/// consumer, so a list built from it and the boundary's scope agree.
pub open spec fn canonical_home_spec(fs: Seq<crate::fsview::ProbeView>, home: Seq<char>) -> Result<Seq<char>, Seq<char>> {
    match normalized(fs, home) {
        Some(p) => Ok(render(p)),
        None => Err(unresolvable_home_message()),
    }
}

pub open spec fn string_result(r: Result<String, String>) -> Result<Seq<char>, Seq<char>> {
    match r {
        Ok(s) => Ok(s@),
        Err(e) => Err(e@),
    }
}

pub fn canonical_home(home: &str, fs: &FsView) -> (r: Result<String, String>)
    ensures
        string_result(r) == canonical_home_spec(fs_view(fs), home@),
{
    match fs.normalize(home) {
        Some(p) => Ok(render_exec(&p)),
        None => Err(
            "Spiral Clean could not resolve your home folder, so it cannot verify any path is safe to remove. Nothing was uninstalled. Reopen Spiral Clean and try again.".to_owned(),
        ),
    }
}

// ---------------------------------------------------------------------------
// Indices the review sheet sends back
// ---------------------------------------------------------------------------

/// The first deselected index that names nothing in a list of `total`.
pub open spec fn first_out_of_range(d: Seq<usize>, total: nat) -> Option<usize>
    decreases d.len(),
{
    if d.len() == 0 {
        None
    } else if d[0] >= total {
        Some(d[0])
    } else {
        first_out_of_range(d.drop_first(), total)
    }
}

pub fn out_of_range(deselected: &Vec<usize>, total: usize) -> (r: Option<usize>)
    ensures
        r == first_out_of_range(deselected@, total as nat),
{
    assert(deselected@.subrange(0, deselected@.len() as int) =~= deselected@);
    let mut i: usize = 0;
    while i < deselected.len()
        invariant
            i <= deselected.len(),
            first_out_of_range(deselected@, total as nat) == first_out_of_range(
                deselected@.subrange(i as int, deselected@.len() as int),
                total as nat,
            ),
        decreases deselected.len() - i,
    {
        let ghost rest = deselected@.subrange(i as int, deselected@.len() as int);
        assert(rest.drop_first() =~= deselected@.subrange(i + 1, deselected@.len() as int));
        if deselected[i] >= total {
            return Some(deselected[i]);
        }
        i += 1;
    }
    None
}

/// The items whose positions were not deselected, in order.
pub open spec fn kept<T>(items: Seq<T>, d: Seq<usize>) -> Seq<T>
    decreases items.len(),
{
    if items.len() == 0 {
        Seq::empty()
    } else {
        let prev = kept(items.drop_last(), d);
        if d.contains((items.len() - 1) as usize) { prev } else { prev.push(items.last()) }
    }
}

fn deselected_has(d: &Vec<usize>, i: usize) -> (r: bool)
    ensures
        r == d@.contains(i),
{
    let mut k: usize = 0;
    while k < d.len()
        invariant
            k <= d.len(),
            forall|j: int| 0 <= j < k ==> d@[j] != i,
        decreases d.len() - k,
    {
        if d[k] == i {
            assert(d@[k as int] == i);
            return true;
        }
        k += 1;
    }
    false
}

pub fn keep_unselected<T>(items: Vec<T>, deselected: &Vec<usize>) -> (r: Vec<T>)
    ensures
        r@ == kept(items@, deselected@),
{
    let n = items.len();
    let ghost all = items@;
    let mut rest = items;
    let mut out: Vec<T> = Vec::new();
    let mut k: usize = 0;
    assert(all.take(0) =~= Seq::<T>::empty());
    while rest.len() > 0
        invariant
            n == all.len(),
            k + rest@.len() == n,
            rest@ == all.subrange(k as int, n as int),
            out@ == kept(all.take(k as int), deselected@),
        decreases rest.len(),
    {
        let x = rest.remove(0);
        assert(x == all[k as int]);
        assert(all.take(k + 1).drop_last() =~= all.take(k as int));
        assert(all.take(k + 1).last() == x);
        assert(all.take(k + 1).len() - 1 == k);
        if !deselected_has(deselected, k) {
            out.push(x);
        }
        k += 1;
        assert(rest@ =~= all.subrange(k as int, n as int));
    }
    assert(all.take(n as int) =~= all);
    out
}

pub open spec fn plural(n: nat) -> Seq<char> {
    if n == 1 { Seq::empty() } else { "s"@ }
}

pub fn push_count(v: &mut Vec<char>, n: usize)
    ensures
        final(v)@ == old(v)@ + decimal(n as nat),
{
    push_str(v, decimal_string(n as u64).as_str());
}

pub fn push_plural(v: &mut Vec<char>, n: usize)
    ensures
        final(v)@ == old(v)@ + plural(n as nat),
{
    if n == 1 {
        assert(old(v)@ + plural(1) =~= old(v)@);
    } else {
        push_str(v, "s");
    }
}

} // verus!
