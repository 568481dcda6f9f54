//! The Leftovers section: bundle-id-shaped entries no installed app
//! declares, removed to the Trash. The webview names positions in a list and
//! echoes what it was shown; it never names a path.

use super::{
    first_out_of_range, keep_unselected, kept, out_of_range, plural, push_count, push_plural,
    tally, tally_spec, tally_view, FailedItem, Tally,
};
use crate::order::{lemma_lex_total, lemma_lex_trans, lex_le, sort_by, sorted_by, text_le};
use crate::remove::types::{Candidate, Justification, Report};
use crate::text::{chars_of, decimal, string_of};
use vstd::prelude::*;

verus! {

/// What the orphan search found for one bundle id.
pub struct Leftover {
    pub bundle_id: String,
    pub paths: Vec<String>,
    pub bytes: u64,
}

#[derive(Debug)]
pub struct LeftoverItem {
    pub bundle_id: String,
    pub paths: Vec<String>,
    pub bytes: u64,
}

#[derive(Debug)]
pub struct UninstallReport {
    pub removed: usize,
    pub partially_removed: Vec<FailedItem>,
    pub excluded: usize,
    pub failed: Vec<FailedItem>,
}

/// Biggest reclaim first; bundle id breaks ties, so the order is total and
/// an index means the same item on every scan.
pub open spec fn leftover_before(a: LeftoverItem, b: LeftoverItem) -> bool {
    a.bytes > b.bytes || (a.bytes == b.bytes && lex_le(a.bundle_id@, b.bundle_id@))
}

pub fn order_leftovers(items: Vec<LeftoverItem>) -> (r: Vec<LeftoverItem>)
    ensures
        r@.to_multiset() == items@.to_multiset(),
        sorted_by(r@, |a: LeftoverItem, b: LeftoverItem| leftover_before(a, b)),
{
    let le = |a: &LeftoverItem, b: &LeftoverItem| -> (x: bool)
        ensures
            x == leftover_before(*a, *b),
        { a.bytes > b.bytes || (a.bytes == b.bytes && text_le(a.bundle_id.as_str(), b.bundle_id.as_str())) };
    let ghost leq = |a: LeftoverItem, b: LeftoverItem| leftover_before(a, b);
    proof {
        assert forall|a: LeftoverItem, b: LeftoverItem| #[trigger] leq(a, b) || leq(b, a) by {
            lemma_lex_total(a.bundle_id@, b.bundle_id@);
        }
        assert forall|a: LeftoverItem, b: LeftoverItem, c: LeftoverItem| #[trigger] leq(a, b) && #[trigger] leq(b, c)
            implies leq(a, c) by {
            if a.bytes == b.bytes && b.bytes == c.bytes {
                lemma_lex_trans(a.bundle_id@, b.bundle_id@, c.bundle_id@);
            }
        }
    }
    sort_by(items, &le, Ghost(leq))
}

/// The paths in lexicographic order, so the flattened list is the same on
/// every scan.
pub fn sorted_paths(paths: Vec<String>) -> (r: Vec<String>)
    ensures
        r@.to_multiset() == paths@.to_multiset(),
        sorted_by(r@, |a: String, b: String| lex_le(a@, b@)),
{
    let le = |a: &String, b: &String| -> (x: bool)
        ensures
            x == lex_le(a@, b@),
        { text_le(a.as_str(), b.as_str()) };
    let ghost leq = |a: String, b: String| lex_le(a@, b@);
    proof {
        assert forall|a: String, b: String| #[trigger] leq(a, b) || leq(b, a) by {
            lemma_lex_total(a@, b@);
        }
        assert forall|a: String, b: String, c: String| #[trigger] leq(a, b) && #[trigger] leq(b, c) implies leq(a, c) by {
            lemma_lex_trans(a@, b@, c@);
        }
    }
    sort_by(paths, &le, Ghost(leq))
}

/// Each leftover as an item with its own paths sorted, then the items in
/// their fixed order.
pub fn leftover_items_from(leftovers: Vec<Leftover>) -> (r: Vec<LeftoverItem>)
    ensures
        r@.len() == leftovers@.len(),
        sorted_by(r@, |a: LeftoverItem, b: LeftoverItem| leftover_before(a, b)),
        forall|i: int|
            0 <= i < r@.len() ==> sorted_by((#[trigger] r@[i]).paths@, |a: String, b: String| lex_le(a@, b@)),
        r@.map_values(|x: LeftoverItem| (x.bundle_id@, x.bytes, x.paths@.to_multiset())).to_multiset()
            == leftovers@.map_values(|l: Leftover| (l.bundle_id@, l.bytes, l.paths@.to_multiset())).to_multiset(),
{
    let n = leftovers.len();
    let ghost orig = leftovers@;
    let mut rest = leftovers;
    let mut items: Vec<LeftoverItem> = Vec::new();
    let mut k: usize = 0;
    while rest.len() > 0
        invariant
            n == orig.len(),
            k + rest@.len() == n,
            rest@ == orig.subrange(k as int, n as int),
            items@.len() == k,
            forall|i: int|
                0 <= i < k ==> sorted_by((#[trigger] items@[i]).paths@, |a: String, b: String| lex_le(a@, b@))
                    && items@[i].bundle_id == orig[i].bundle_id && items@[i].bytes == orig[i].bytes
                    && items@[i].paths@.to_multiset() == orig[i].paths@.to_multiset(),
        decreases rest.len(),
    {
        let l = rest.remove(0);
        assert(l == orig[k as int]);
        let paths = sorted_paths(l.paths);
        items.push(LeftoverItem { bundle_id: l.bundle_id, paths, bytes: l.bytes });
        k += 1;
        assert(rest@ =~= orig.subrange(k as int, n as int));
    }
    let ghost before = items@;
    let r = order_leftovers(items);
    proof {
        broadcast use vstd::seq_lib::group_to_multiset_ensures;
        vstd::seq_lib::to_multiset_len(r@);
        vstd::seq_lib::to_multiset_len(before);
        assert forall|i: int| 0 <= i < r@.len() implies sorted_by((#[trigger] r@[i]).paths@, |a: String, b: String| lex_le(a@, b@)) by {
            vstd::seq_lib::to_multiset_contains(r@, r@[i]);
            assert(r@.contains(r@[i]));
            vstd::seq_lib::to_multiset_contains(before, r@[i]);
            let j = choose|j: int| 0 <= j < before.len() && before[j] == r@[i];
            assert(before[j] == items@[j]);
        }
        crate::order::lemma_permutation_maps(r@, before, |x: LeftoverItem| (x.bundle_id@, x.bytes, x.paths@.to_multiset()));
        assert(before.map_values(|x: LeftoverItem| (x.bundle_id@, x.bytes, x.paths@.to_multiset())) =~= orig.map_values(
            |l: Leftover| (l.bundle_id@, l.bytes, l.paths@.to_multiset()),
        ));
        assert(orig == leftovers@);
    }
    r
}

pub open spec fn flat_paths(items: Seq<LeftoverItem>) -> Seq<Seq<char>>
    decreases items.len(),
{
    if items.len() == 0 {
        Seq::empty()
    } else {
        flat_paths(items.drop_last()) + items.last().paths@.map_values(|p: String| p@)
    }
}

pub open spec fn orphan_candidates(items: Seq<LeftoverItem>) -> Seq<(Seq<char>, Seq<char>)>
    decreases items.len(),
{
    if items.len() == 0 {
        Seq::empty()
    } else {
        orphan_candidates(items.drop_last()) + items.last().paths@.map_values(
            |p: String| (p@, items.last().bundle_id@),
        )
    }
}

pub open spec fn orphan_view(c: Candidate) -> (Seq<char>, Seq<char>) {
    (c.path@, match c.justification {
        Justification::Orphan { bundle_id } => bundle_id@,
        _ => Seq::empty(),
    })
}

/// Every path of every item, under the Orphan justification of its own
/// item; nothing the webview sends supplies one.
pub fn leftover_candidates_for(items: &Vec<LeftoverItem>) -> (r: Vec<Candidate>)
    ensures
        r@.map_values(|c: Candidate| orphan_view(c)) == orphan_candidates(items@),
        forall|i: int| 0 <= i < r@.len() ==> (#[trigger] r@[i]).justification is Orphan,
{
    let mut out: Vec<Candidate> = Vec::new();
    let mut k: usize = 0;
    assert(items@.take(0) =~= Seq::<LeftoverItem>::empty());
    while k < items.len()
        invariant
            k <= items.len(),
            out@.map_values(|c: Candidate| orphan_view(c)) == orphan_candidates(items@.take(k as int)),
            forall|i: int| 0 <= i < out@.len() ==> (#[trigger] out@[i]).justification is Orphan,
        decreases items.len() - k,
    {
        assert(items@.take(k + 1).drop_last() =~= items@.take(k as int));
        assert(items@.take(k + 1).last() == items@[k as int]);
        let item = &items[k];
        let ghost base = out@;
        let mut p: usize = 0;
        while p < item.paths.len()
            invariant
                p <= item.paths.len(),
                out@.len() == base.len() + p,
                forall|i: int| 0 <= i < base.len() ==> out@[i] == base[i],
                forall|i: int|
                    base.len() <= i < out@.len() ==> orphan_view(#[trigger] out@[i]) == (
                        item.paths@[i - base.len()]@,
                        item.bundle_id@,
                    ),
                forall|i: int| 0 <= i < out@.len() ==> (#[trigger] out@[i]).justification is Orphan,
                forall|i: int| 0 <= i < base.len() ==> (#[trigger] base[i]).justification is Orphan,
            decreases item.paths.len() - p,
        {
            out.push(Candidate {
                path: item.paths[p].clone(),
                justification: Justification::Orphan { bundle_id: item.bundle_id.clone() },
            });
            p += 1;
        }
        assert(out@.map_values(|c: Candidate| orphan_view(c)) =~= base.map_values(|c: Candidate| orphan_view(c))
            + item.paths@.map_values(|q: String| (q@, item.bundle_id@)));
        k += 1;
    }
    assert(items@.take(items@.len() as int) =~= items@);
    out
}

/// Every path of every item, in item order.
pub fn flatten_paths(items: &Vec<LeftoverItem>) -> (r: Vec<String>)
    ensures
        r@.map_values(|s: String| s@) == flat_paths(items@),
{
    let mut fresh: Vec<String> = Vec::new();
    let mut k: usize = 0;
    assert(items@.take(0) =~= Seq::<LeftoverItem>::empty());
    while k < items.len()
        invariant
            k <= items.len(),
            fresh@.map_values(|s: String| s@) == flat_paths(items@.take(k as int)),
        decreases items.len() - k,
    {
        assert(items@.take(k + 1).drop_last() =~= items@.take(k as int));
        assert(items@.take(k + 1).last() == items@[k as int]);
        let ghost base = fresh@;
        let mut p: usize = 0;
        while p < items[k].paths.len()
            invariant
                k < items.len(),
                p <= items@[k as int].paths.len(),
                fresh@.len() == base.len() + p,
                forall|i: int| 0 <= i < base.len() ==> fresh@[i] == base[i],
                forall|i: int|
                    base.len() <= i < fresh@.len() ==> (#[trigger] fresh@[i])@ == items@[k as int].paths@[i
                        - base.len()]@,
            decreases items@[k as int].paths.len() - p,
        {
            fresh.push(items[k].paths[p].clone());
            p += 1;
        }
        assert(fresh@.map_values(|s: String| s@) =~= base.map_values(|s: String| s@)
            + items@[k as int].paths@.map_values(|s: String| s@));
        k += 1;
    }
    assert(items@.take(items@.len() as int) =~= items@);
    fresh
}

/// `displayed` is, position for position, every path of every item a fresh
/// scan found. A checksum, never authority.
pub fn echo_matches_leftovers(displayed: &Vec<String>, items: &Vec<LeftoverItem>) -> (r: bool)
    ensures
        r == (displayed@.map_values(|s: String| s@) == flat_paths(items@)),
{
    let fresh = flatten_paths(items);
    seq_strings_eq(displayed, &fresh)
}

fn seq_strings_eq(a: &Vec<String>, b: &Vec<String>) -> (r: bool)
    ensures
        r == (a@.map_values(|s: String| s@) == b@.map_values(|s: String| s@)),
{
    if a.len() != b.len() {
        assert(a@.map_values(|s: String| s@).len() != b@.map_values(|s: String| s@).len());
        return false;
    }
    let mut i: usize = 0;
    while i < a.len()
        invariant
            a.len() == b.len(),
            i <= a.len(),
            forall|j: int| 0 <= j < i ==> a@[j]@ == b@[j]@,
        decreases a.len() - i,
    {
        if !crate::text::str_eq(a[i].as_str(), b[i].as_str()) {
            assert(a@.map_values(|s: String| s@)[i as int] != b@.map_values(|s: String| s@)[i as int]);
            return false;
        }
        i += 1;
    }
    assert(a@.map_values(|s: String| s@) =~= b@.map_values(|s: String| s@));
    true
}

pub open spec fn changed_message(shown: nat, found: nat) -> Seq<char> {
    "The list changed while you were reviewing it ("@ + crate::text::decimal(shown) + " path"@ + plural(shown)
        + " shown, "@ + crate::text::decimal(found) + " found just now). Scan again and try again."@
}

pub open spec fn missing_item_message(index: nat, total: nat) -> Seq<char> {
    "Deselected item "@ + crate::text::decimal(index) + " does not exist — this scan found "@
        + crate::text::decimal(total) + " leftover item"@ + plural(total)
        + ". The list may be out of date; scan again and try again."@
}

pub open spec fn path_count(items: Seq<LeftoverItem>) -> nat {
    flat_paths(items).len()
}

pub open spec fn kept_result(r: Result<Vec<LeftoverItem>, String>) -> Result<Seq<LeftoverItem>, Seq<char>> {
    match r {
        Ok(v) => Ok(v@),
        Err(e) => Err(e@),
    }
}

/// The items to remove: refused whole when the echo no longer matches the
/// fresh scan, or when any deselected index names no item; otherwise every
/// item not deselected, in order. Indices count items, not paths.
pub open spec fn leftovers_to_remove(items: Seq<LeftoverItem>, deselected: Seq<usize>, displayed: Seq<Seq<char>>) -> Result<Seq<LeftoverItem>, Seq<char>> {
    if displayed != flat_paths(items) {
        Err(changed_message(displayed.len(), path_count(items)))
    } else {
        match first_out_of_range(deselected, items.len()) {
            Some(i) => Err(missing_item_message(i as nat, items.len())),
            None => Ok(kept(items, deselected)),
        }
    }
}

pub fn leftovers_kept(items: Vec<LeftoverItem>, deselected: &Vec<usize>, displayed: &Vec<String>) -> (r: Result<
    Vec<LeftoverItem>,
    String,
>)
    ensures
        kept_result(r) == leftovers_to_remove(items@, deselected@, displayed@.map_values(|s: String| s@)),
{
    if !echo_matches_leftovers(displayed, &items) {
        let fresh = flatten_paths(&items);
        let fresh_count = fresh.len();
        assert(fresh_count == flat_paths(items@).len());
        let mut m = chars_of("The list changed while you were reviewing it (");
        push_count(&mut m, displayed.len());
        crate::text::push_str(&mut m, " path");
        push_plural(&mut m, displayed.len());
        crate::text::push_str(&mut m, " shown, ");
        push_count(&mut m, fresh_count);
        crate::text::push_str(&mut m, " found just now). Scan again and try again.");
        return Err(string_of(m.as_slice()));
    }
    let total = items.len();
    if let Some(index) = out_of_range(deselected, total) {
        let mut m = chars_of("Deselected item ");
        push_count(&mut m, index);
        crate::text::push_str(&mut m, " does not exist — this scan found ");
        push_count(&mut m, total);
        crate::text::push_str(&mut m, " leftover item");
        push_plural(&mut m, total);
        crate::text::push_str(&mut m, ". The list may be out of date; scan again and try again.");
        return Err(string_of(m.as_slice()));
    }
    Ok(keep_unselected(items, deselected))
}

pub open spec fn sum_bytes(items: Seq<LeftoverItem>) -> u64
    decreases items.len(),
{
    if items.len() == 0 {
        0
    } else {
        let s = sum_bytes(items.drop_last());
        if s + items.last().bytes > u64::MAX { u64::MAX } else { (s + items.last().bytes) as u64 }
    }
}

/// The estimate for the items kept: their sizes added, capped at `u64::MAX`.
pub fn estimated_bytes(items: &Vec<LeftoverItem>) -> (r: u64)
    ensures
        r == sum_bytes(items@),
{
    let mut total: u64 = 0;
    let mut k: usize = 0;
    assert(items@.take(0) =~= Seq::<LeftoverItem>::empty());
    while k < items.len()
        invariant
            k <= items.len(),
            total == sum_bytes(items@.take(k as int)),
        decreases items.len() - k,
    {
        assert(items@.take(k + 1).drop_last() =~= items@.take(k as int));
        total = match total.checked_add(items[k].bytes) {
            Some(x) => x,
            None => 18446744073709551615,
        };
        k += 1;
    }
    assert(items@.take(items@.len() as int) =~= items@);
    total
}

/// What a removal reports, for Leftovers and Uninstall alike.
pub fn removal_report(reports: Vec<Report>) -> (r: UninstallReport)
    ensures
        tally_view(
            Tally {
                removed: r.removed,
                partially_removed: r.partially_removed,
                excluded: r.excluded,
                failed: r.failed,
            },
        ) == tally_spec(reports@),
{
    let t = tally(reports);
    UninstallReport {
        removed: t.removed,
        partially_removed: t.partially_removed,
        excluded: t.excluded,
        failed: t.failed,
    }
}

} // verus!
