//! Attributing every file under the catalog's roots to exactly one catalog
//! entry: the one whose root is the file's longest matching prefix.
//!
//! Catalog roots nest (`~/Library/Caches` holds the browser caches), so each
//! outermost root is walked once and every file found is attributed by
//! longest prefix across all roots: nested and parent categories partition
//! the files between them, with no double counting. Walking a directory is
//! the caller's work, handed in as a function.

use crate::catalog::{catalog, catalog_spec, entries_view, entry_view, expand, expand_spec};
use crate::paths::{
    components, components_of, starts_with_case_insensitive, starts_with_ci, parts_view,
};
use vstd::prelude::*;

verus! {

#[derive(Debug, Clone)]
pub struct CategoryResult {
    pub id: String,
    pub label: String,
    /// Logical size, always presented as an estimate.
    pub bytes: u64,
    pub items: usize,
    pub paths: Vec<String>,
}

// ---------------------------------------------------------------------------
// The roots
// ---------------------------------------------------------------------------

pub open spec fn entry_roots(i: int, home: Seq<char>) -> Seq<(int, Seq<char>)> {
    catalog_spec()[i].roots.map_values(|r: Seq<char>| (i, expand_spec(r, home)))
}

pub open spec fn roots_upto(home: Seq<char>, n: nat) -> Seq<(int, Seq<char>)>
    decreases n,
{
    if n == 0 {
        Seq::empty()
    } else {
        roots_upto(home, (n - 1) as nat) + entry_roots(n - 1, home)
    }
}

/// Every root of every catalog entry, expanded against `home`, tagged with
/// the entry's position in the catalog; an entry with several roots gives
/// one pair per root.
pub open spec fn all_roots_spec(home: Seq<char>) -> Seq<(int, Seq<char>)> {
    roots_upto(home, catalog_spec().len())
}

pub open spec fn tagged_view(v: Seq<(usize, String)>) -> Seq<(int, Seq<char>)> {
    v.map_values(|p: (usize, String)| (p.0 as int, p.1@))
}

proof fn lemma_roots_tags(home: Seq<char>, n: nat)
    requires
        n <= catalog_spec().len(),
    ensures
        forall|j: int| 0 <= j < roots_upto(home, n).len() ==> 0 <= #[trigger] roots_upto(home, n)[j].0 < n,
    decreases n,
{
    if n > 0 {
        lemma_roots_tags(home, (n - 1) as nat);
        let prev = roots_upto(home, (n - 1) as nat);
        let e = entry_roots(n - 1, home);
        assert forall|j: int| 0 <= j < roots_upto(home, n).len() implies 0 <= #[trigger] roots_upto(home, n)[j].0 < n by {
            if j < prev.len() {
                assert(roots_upto(home, n)[j] == prev[j]);
            } else {
                assert(roots_upto(home, n)[j] == e[j - prev.len()]);
            }
        }
    }
}

pub fn expand_all_roots(home: &str) -> (r: Vec<(usize, String)>)
    ensures
        tagged_view(r@) == all_roots_spec(home@),
        forall|j: int| 0 <= j < r@.len() ==> (#[trigger] r@[j]).0 < catalog_spec().len(),
{
    let c = catalog();
    let mut out: Vec<(usize, String)> = Vec::new();
    let mut i: usize = 0;
    while i < c.len()
        invariant
            entries_view(c@) == catalog_spec(),
            i <= c.len(),
            tagged_view(out@) == roots_upto(home@, i as nat),
        decreases c.len() - i,
    {
        assert(entry_view(c@[i as int]) == catalog_spec()[i as int]);
        let roots = &c[i].roots;
        let ghost base = out@;
        let mut k: usize = 0;
        while k < roots.len()
            invariant
                k <= roots.len(),
                i < c.len(),
                entry_view(c@[i as int]) == catalog_spec()[i as int],
                *roots == c@[i as int].roots,
                tagged_view(out@) == tagged_view(base) + entry_roots(i as int, home@).take(k as int),
            decreases roots.len() - k,
        {
            let e = expand(roots[k], home);
            let ghost before = out@;
            out.push((i, e));
            assert(tagged_view(out@) =~= tagged_view(before).push((i as int, e@)));
            assert(entry_roots(i as int, home@).take(k + 1) =~= entry_roots(i as int, home@).take(k as int).push(
                (i as int, expand_spec(roots@[k as int]@, home@)),
            ));
            k += 1;
        }
        assert(entry_roots(i as int, home@).take(roots@.len() as int) =~= entry_roots(i as int, home@));
        i += 1;
    }
    proof {
        lemma_roots_tags(home@, catalog_spec().len());
        assert forall|j: int| 0 <= j < out@.len() implies (#[trigger] out@[j]).0 < catalog_spec().len() by {
            assert(tagged_view(out@)[j].0 == out@[j].0 as int);
        }
    }
    out
}

/// `root` lies inside `candidate`: a whole-component prefix, ignoring case,
/// and not the same path.
pub open spec fn nested(root: Seq<char>, candidate: Seq<char>) -> bool {
    components(root) != components(candidate) && starts_with_ci(root, candidate)
}

pub fn is_nested_in(root: &str, candidate: &str) -> (r: bool)
    ensures
        r == nested(root@, candidate@),
{
    let a = components_of(root);
    let b = components_of(candidate);
    let same = same_parts(&a, &b);
    !same && starts_with_case_insensitive(root, candidate)
}

fn same_parts(a: &Vec<Vec<char>>, b: &Vec<Vec<char>>) -> (r: bool)
    ensures
        r == (parts_view(a@) == parts_view(b@)),
{
    if a.len() != b.len() {
        assert(parts_view(a@).len() != parts_view(b@).len());
        return false;
    }
    let mut i: usize = 0;
    while i < a.len()
        invariant
            a.len() == b.len(),
            i <= a.len(),
            forall|j: int| 0 <= j < i ==> a@[j]@ == b@[j]@,
        decreases a.len() - i,
    {
        if !crate::text::seq_eq(a[i].as_slice(), b[i].as_slice()) {
            assert(parts_view(a@)[i as int] != parts_view(b@)[i as int]);
            return false;
        }
        i += 1;
    }
    assert(parts_view(a@) =~= parts_view(b@));
    true
}

/// No other root has this one inside it.
pub open spec fn is_outermost(roots: Seq<(int, Seq<char>)>, r: Seq<char>) -> bool {
    forall|j: int| 0 <= j < roots.len() ==> !nested(r, #[trigger] roots[j].1)
}

pub open spec fn outermost_upto(roots: Seq<(int, Seq<char>)>, k: nat) -> Seq<Seq<char>>
    decreases k,
{
    if k == 0 {
        Seq::empty()
    } else {
        let prev = outermost_upto(roots, (k - 1) as nat);
        if is_outermost(roots, roots[k - 1].1) { prev.push(roots[k - 1].1) } else { prev }
    }
}

/// The outermost roots, in root order: walking only these, once each, visits
/// every file at most once.
pub open spec fn outermost_spec(roots: Seq<(int, Seq<char>)>) -> Seq<Seq<char>> {
    outermost_upto(roots, roots.len())
}

pub open spec fn strings_view(v: Seq<String>) -> Seq<Seq<char>> {
    v.map_values(|s: String| s@)
}

pub fn outermost_roots(all: &Vec<(usize, String)>) -> (r: Vec<String>)
    ensures
        strings_view(r@) == outermost_spec(tagged_view(all@)),
{
    let ghost tv = tagged_view(all@);
    let mut out: Vec<String> = Vec::new();
    let mut k: usize = 0;
    while k < all.len()
        invariant
            tv == tagged_view(all@),
            k <= all.len(),
            strings_view(out@) == outermost_upto(tv, k as nat),
        decreases all.len() - k,
    {
        let mut outer = true;
        let mut j: usize = 0;
        while j < all.len()
            invariant
                tv == tagged_view(all@),
                k < all.len(),
                j <= all.len(),
                outer == forall|m: int| 0 <= m < j ==> !nested(tv[k as int].1, #[trigger] tv[m].1),
            decreases all.len() - j,
        {
            assert(tv[j as int].1 == all@[j as int].1@);
            assert(tv[k as int].1 == all@[k as int].1@);
            if is_nested_in(all[k].1.as_str(), all[j].1.as_str()) {
                outer = false;
            }
            proof {
                if outer {
                    assert forall|m: int| 0 <= m < j + 1 implies !nested(tv[k as int].1, #[trigger] tv[m].1) by {
                        if m == j {
                        }
                    }
                }
            }
            j += 1;
        }
        assert(tv[k as int].1 == all@[k as int].1@);
        if outer {
            let ghost before = out@;
            let r = all[k].1.clone();
            out.push(r);
            assert(strings_view(out@) =~= strings_view(before).push(tv[k as int].1));
        }
        k += 1;
    }
    out
}

/// Among the roots `path` lies under, the index of the one with the most
/// components, the last such on a tie (as `max_by_key` picks).
pub open spec fn best_upto(path: Seq<char>, roots: Seq<(int, Seq<char>)>, k: nat) -> Option<int>
    decreases k,
{
    if k == 0 {
        None
    } else {
        let b = best_upto(path, roots, (k - 1) as nat);
        if starts_with_ci(path, roots[k - 1].1) {
            match b {
                None => Some(k - 1),
                Some(j) => if components(roots[k - 1].1).len() >= components(roots[j].1).len() {
                    Some(k - 1)
                } else {
                    Some(j)
                },
            }
        } else {
            b
        }
    }
}

/// The catalog position of the entry whose root is `path`'s longest
/// matching prefix, if any root covers it.
pub open spec fn owner(path: Seq<char>, roots: Seq<(int, Seq<char>)>) -> Option<int> {
    match best_upto(path, roots, roots.len()) {
        Some(j) => Some(roots[j].0),
        None => None,
    }
}

proof fn lemma_best_in_range(path: Seq<char>, roots: Seq<(int, Seq<char>)>, k: nat)
    requires
        k <= roots.len(),
    ensures
        best_upto(path, roots, k) matches Some(j) ==> 0 <= j < k,
    decreases k,
{
    if k > 0 {
        lemma_best_in_range(path, roots, (k - 1) as nat);
    }
}

pub fn longest_prefix_owner(path: &str, all: &Vec<(usize, String)>) -> (r: Option<usize>)
    ensures
        match r {
            Some(c) => owner(path@, tagged_view(all@)) == Some(c as int),
            None => owner(path@, tagged_view(all@)) is None,
        },
{
    let ghost tv = tagged_view(all@);
    let mut best: Option<usize> = None;
    let mut best_len: usize = 0;
    let mut k: usize = 0;
    while k < all.len()
        invariant
            tv == tagged_view(all@),
            k <= all.len(),
            match best {
                Some(j) => best_upto(path@, tv, k as nat) == Some(j as int) && (j as int) < k
                    && best_len == components(tv[j as int].1).len(),
                None => best_upto(path@, tv, k as nat) is None,
            },
        decreases all.len() - k,
    {
        if starts_with_case_insensitive(path, all[k].1.as_str()) {
            let n = components_of(all[k].1.as_str()).len();
            match best {
                None => {
                    best = Some(k);
                    best_len = n;
                },
                Some(j) => {
                    if n >= best_len {
                        best = Some(k);
                        best_len = n;
                    }
                },
            }
        }
        k += 1;
    }
    match best {
        Some(j) => Some(all[j].0),
        None => None,
    }
}

// ---------------------------------------------------------------------------
// Attribution and when a category is final
// ---------------------------------------------------------------------------

pub open spec fn files_view(v: Seq<(String, u64)>) -> Seq<(Seq<char>, u64)> {
    v.map_values(|f: (String, u64)| (f.0@, f.1))
}

/// The walks, one after another.
pub open spec fn flat(walks: Seq<Seq<(Seq<char>, u64)>>) -> Seq<(Seq<char>, u64)>
    decreases walks.len(),
{
    if walks.len() == 0 {
        Seq::empty()
    } else {
        flat(walks.drop_last()) + walks.last()
    }
}

/// The files, in order, whose owner is the entry at catalog position `c`.
pub open spec fn attributed(c: int, files: Seq<(Seq<char>, u64)>, roots: Seq<(int, Seq<char>)>) -> Seq<(Seq<char>, u64)>
    decreases files.len(),
{
    if files.len() == 0 {
        Seq::empty()
    } else {
        let prev = attributed(c, files.drop_last(), roots);
        if owner(files.last().0, roots) == Some(c) { prev.push(files.last()) } else { prev }
    }
}

pub open spec fn under_some(root: Seq<char>, outer: Seq<Seq<char>>) -> bool {
    exists|k: int| 0 <= k < outer.len() && starts_with_ci(root, #[trigger] outer[k])
}

/// How many of entry `c`'s roots among the first `n` lie under an outermost
/// root: how many walks the entry waits for.
pub open spec fn waits(c: int, roots: Seq<(int, Seq<char>)>, outer: Seq<Seq<char>>, n: nat) -> nat
    decreases n,
{
    if n == 0 {
        0
    } else {
        waits(c, roots, outer, (n - 1) as nat) + if roots[n - 1].0 == c && under_some(roots[n - 1].1, outer) {
            1nat
        } else {
            0nat
        }
    }
}

/// How many of entry `c`'s roots among the first `n` lie under `o`.
pub open spec fn hits(c: int, roots: Seq<(int, Seq<char>)>, o: Seq<char>, n: nat) -> nat
    decreases n,
{
    if n == 0 {
        0
    } else {
        hits(c, roots, o, (n - 1) as nat) + if roots[n - 1].0 == c && starts_with_ci(roots[n - 1].1, o) {
            1nat
        } else {
            0nat
        }
    }
}

/// Roots of `c` accounted for after the first `k` outermost walks.
pub open spec fn done_after(c: int, roots: Seq<(int, Seq<char>)>, outer: Seq<Seq<char>>, k: nat) -> nat
    decreases k,
{
    if k == 0 {
        0
    } else {
        done_after(c, roots, outer, (k - 1) as nat) + hits(c, roots, outer[k - 1], roots.len())
    }
}

pub open spec fn final_after(c: int, roots: Seq<(int, Seq<char>)>, outer: Seq<Seq<char>>, k: nat) -> bool {
    waits(c, roots, outer, roots.len()) > 0 && done_after(c, roots, outer, k) >= waits(c, roots, outer, roots.len())
}

/// The files entry `c` is reported with once it is final after `k` walks:
/// those attributed to it by the walk that made it final. Files a later
/// walk attributes to it are not added.
pub open spec fn final_upto(
    c: int,
    roots: Seq<(int, Seq<char>)>,
    outer: Seq<Seq<char>>,
    walks: Seq<Seq<(Seq<char>, u64)>>,
    k: nat,
) -> Option<Seq<(Seq<char>, u64)>>
    decreases k,
{
    if k == 0 {
        None
    } else {
        match final_upto(c, roots, outer, walks, (k - 1) as nat) {
            Some(f) => Some(f),
            None => if final_after(c, roots, outer, k) {
                Some(attributed(c, flat(walks.take(k as int)), roots))
            } else {
                None
            },
        }
    }
}

/// What entry `c` is reported with: its files as of the walk that made it
/// final, or, for an entry no walk could reach, everything attributed to it.
pub open spec fn reported_files(
    c: int,
    roots: Seq<(int, Seq<char>)>,
    outer: Seq<Seq<char>>,
    walks: Seq<Seq<(Seq<char>, u64)>>,
) -> Seq<(Seq<char>, u64)> {
    match final_upto(c, roots, outer, walks, outer.len()) {
        Some(f) => f,
        None => attributed(c, flat(walks), roots),
    }
}

pub open spec fn sat_sum(files: Seq<(Seq<char>, u64)>) -> u64
    decreases files.len(),
{
    if files.len() == 0 {
        0
    } else {
        let s = sat_sum(files.drop_last());
        if s + files.last().1 > u64::MAX { u64::MAX } else { (s + files.last().1) as u64 }
    }
}

pub open spec fn result_matches(r: CategoryResult, i: int, files: Seq<(Seq<char>, u64)>) -> bool {
    &&& r.id@ == catalog_spec()[i].id
    &&& r.label@ == catalog_spec()[i].label
    &&& strings_view(r.paths@) == files.map_values(|f: (Seq<char>, u64)| f.0)
    &&& r.items == files.len()
    &&& r.bytes == sat_sum(files)
}

pub open spec fn walk_answered<W: Fn(&str) -> Vec<(String, u64)>>(walk: &W, root: Seq<char>, w: Seq<(Seq<char>, u64)>) -> bool {
    exists|p: &str, out: Vec<(String, u64)>| #[trigger] walk.ensures((p,), out) && p@ == root && files_view(out@) == w
}

pub open spec fn scanned_as<W: Fn(&str) -> Vec<(String, u64)>>(
    walk: &W,
    home: Seq<char>,
    walks: Seq<Seq<(Seq<char>, u64)>>,
    r: Seq<CategoryResult>,
) -> bool {
    let roots = all_roots_spec(home);
    let outer = outermost_spec(roots);
    &&& walks.len() == outer.len()
    &&& forall|k: int| 0 <= k < outer.len() ==> walk_answered(walk, outer[k], #[trigger] walks[k])
    &&& r.len() == catalog_spec().len()
    &&& forall|i: int| 0 <= i < r.len() ==> result_matches(#[trigger] r[i], i, reported_files(i, roots, outer, walks))
}

/// One category's result from the files attributed to it.
fn summarize(table: &Vec<crate::catalog::CatalogEntry>, c: usize, files: Vec<(String, u64)>) -> (r: CategoryResult)
    requires
        entries_view(table@) == catalog_spec(),
        c < table.len(),
    ensures
        result_matches(r, c as int, files_view(files@)),
{
    let ghost orig = files@;
    let ghost fv = files_view(files@);
    let n = files.len();
    let mut rest = files;
    let mut paths: Vec<String> = Vec::new();
    let mut bytes: u64 = 0;
    let mut k: usize = 0;
    assert(fv.take(0) =~= Seq::<(Seq<char>, u64)>::empty());
    while rest.len() > 0
        invariant
            n == orig.len(),
            fv == files_view(orig),
            k + rest@.len() == n,
            rest@ == orig.subrange(k as int, n as int),
            strings_view(paths@) == fv.take(k as int).map_values(|f: (Seq<char>, u64)| f.0),
            paths@.len() == k,
            bytes == sat_sum(fv.take(k as int)),
        decreases rest.len(),
    {
        let f = rest.remove(0);
        assert(f == orig[k as int]);
        assert(fv[k as int] == (f.0@, f.1));
        assert(fv.take(k + 1).drop_last() =~= fv.take(k as int));
        assert(fv.take(k + 1).last() == fv[k as int]);
        bytes = match bytes.checked_add(f.1) {
            Some(x) => x,
            None => 18446744073709551615,
        };
        let ghost pb = paths@;
        let ghost p0 = f.0@;
        paths.push(f.0);
        assert(strings_view(paths@) =~= strings_view(pb).push(p0));
        assert(fv.take(k + 1).map_values(|f: (Seq<char>, u64)| f.0) =~= fv.take(k as int).map_values(
            |f: (Seq<char>, u64)| f.0,
        ).push(p0));
        k += 1;
        assert(rest@ =~= orig.subrange(k as int, n as int));
    }
    assert(fv.take(n as int) =~= fv);
    assert(entry_view(table@[c as int]) == catalog_spec()[c as int]);
    let id = table[c].id.to_owned();
    let label = table[c].label.to_owned();
    CategoryResult { id, label, bytes, items: n, paths }
}

proof fn lemma_final_prefix(
    c: int,
    roots: Seq<(int, Seq<char>)>,
    outer: Seq<Seq<char>>,
    w1: Seq<Seq<(Seq<char>, u64)>>,
    w2: Seq<Seq<(Seq<char>, u64)>>,
    k: nat,
)
    requires
        k <= w1.len(),
        k <= w2.len(),
        forall|i: int| 0 <= i < k ==> w1[i] == w2[i],
    ensures
        final_upto(c, roots, outer, w1, k) == final_upto(c, roots, outer, w2, k),
    decreases k,
{
    if k > 0 {
        lemma_final_prefix(c, roots, outer, w1, w2, (k - 1) as nat);
        assert(w1.take(k as int) =~= w2.take(k as int));
    }
}

proof fn lemma_flat_push(walks: Seq<Seq<(Seq<char>, u64)>>, w: Seq<(Seq<char>, u64)>)
    ensures
        flat(walks.push(w)) == flat(walks) + w,
{
    assert(walks.push(w).drop_last() =~= walks);
}

proof fn lemma_final_means_done(
    c: int,
    roots: Seq<(int, Seq<char>)>,
    outer: Seq<Seq<char>>,
    walks: Seq<Seq<(Seq<char>, u64)>>,
    k: nat,
)
    ensures
        final_upto(c, roots, outer, walks, k) is Some ==> waits(c, roots, outer, roots.len()) > 0
            && done_after(c, roots, outer, k) >= waits(c, roots, outer, roots.len()),
    decreases k,
{
    if k > 0 {
        lemma_final_means_done(c, roots, outer, walks, (k - 1) as nat);
    }
}

pub open spec fn pend(c: int, roots: Seq<(int, Seq<char>)>, outer: Seq<Seq<char>>, done: nat) -> nat {
    let w = waits(c, roots, outer, roots.len());
    if done >= w { 0 } else { (w - done) as nat }
}

/// A filled slot holds a result that `on_ready` was handed.
pub open spec fn heard<E: Fn(&CategoryResult)>(on_ready: &E, s: Option<CategoryResult>) -> bool {
    s matches Some(x) ==> on_ready.ensures((&x,), ())
}

pub open spec fn slot_ok(s: Option<CategoryResult>, c: int, f: Option<Seq<(Seq<char>, u64)>>) -> bool {
    match f {
        Some(files) => s matches Some(r) && result_matches(r, c, files),
        None => s is None,
    }
}

/// Attributes every file the walks find and reports one result per catalog
/// entry, in catalog order. `walk` lists the files beneath a root (none for
/// a root that is absent); `on_ready` hears each category once, as soon as
/// every walk that could change its total is done.
pub fn scan_attributed_streaming<W: Fn(&str) -> Vec<(String, u64)>, E: Fn(&CategoryResult)>(
    home: &str,
    walk: &W,
    on_ready: &E,
) -> (r: Vec<CategoryResult>)
    requires
        forall|p: &str| walk.requires((p,)),
        forall|x: &CategoryResult| on_ready.requires((x,)),
    ensures
        r@.len() == catalog_spec().len(),
        exists|walks: Seq<Seq<(Seq<char>, u64)>>| #[trigger] scanned_as(walk, home@, walks, r@),
        forall|i: int| 0 <= i < r@.len() ==> on_ready.ensures((&#[trigger] r@[i],), ()),
{
    let table = catalog();
    let n = table.len();
    let all = expand_all_roots(home);
    let outer = outermost_roots(&all);
    let ghost roots = tagged_view(all@);
    let ghost outs = strings_view(outer@);
    assert(roots == all_roots_spec(home@));
    assert(outs == outermost_spec(roots));
    // How many walks each entry waits for.
    let mut pending: Vec<usize> = Vec::new();
    while pending.len() < n
        invariant
            pending@.len() <= n,
            forall|c: int| 0 <= c < pending@.len() ==> pending@[c] == 0,
        decreases n - pending.len(),
    {
        pending.push(0);
    }
    let mut j: usize = 0;
    while j < all.len()
        invariant
            roots == tagged_view(all@),
            outs == strings_view(outer@),
            n == catalog_spec().len(),
            forall|i: int| 0 <= i < all@.len() ==> (#[trigger] all@[i]).0 < catalog_spec().len(),
            j <= all.len(),
            pending@.len() == n,
            forall|c: int| 0 <= c < n ==> pending@[c] == waits(c, roots, outs, j as nat) && pending@[c] <= j,
        decreases all.len() - j,
    {
        let mut under = false;
        let mut k: usize = 0;
        while k < outer.len()
            invariant
                outs == strings_view(outer@),
                roots == tagged_view(all@),
                j < all.len(),
                k <= outer.len(),
                under == exists|m: int| 0 <= m < k && starts_with_ci(roots[j as int].1, #[trigger] outs[m]),
            decreases outer.len() - k,
        {
            assert(roots[j as int].1 == all@[j as int].1@);
            assert(outs[k as int] == outer@[k as int]@);
            if starts_with_case_insensitive(all[j].1.as_str(), outer[k].as_str()) {
                under = true;
            }
            k += 1;
        }
        assert(under == under_some(roots[j as int].1, outs));
        assert(roots[j as int].0 == all@[j as int].0 as int);
        if under {
            let c = all[j].0;
            let v = pending[c] + 1;
            pending.set(c, v);
        }
        j += 1;
    }
    let mut buckets: Vec<Vec<(String, u64)>> = Vec::new();
    let mut slots: Vec<Option<CategoryResult>> = Vec::new();
    while buckets.len() < n
        invariant
            buckets@.len() == slots@.len(),
            buckets@.len() <= n,
            forall|c: int| 0 <= c < buckets@.len() ==> (#[trigger] buckets@[c])@.len() == 0,
            forall|c: int| 0 <= c < slots@.len() ==> (#[trigger] slots@[c]) is None,
        decreases n - buckets.len(),
    {
        buckets.push(Vec::new());
        slots.push(None);
    }
    let ghost mut walks: Seq<Seq<(Seq<char>, u64)>> = Seq::empty();
    assert forall|c: int| 0 <= c < n implies files_view(buckets@[c]@) == attributed(c, flat(walks), roots) by {
        assert(buckets@[c]@.len() == 0);
        assert(files_view(buckets@[c]@) =~= Seq::<(Seq<char>, u64)>::empty());
        assert(flat(walks) =~= Seq::<(Seq<char>, u64)>::empty());
    }
    let mut k: usize = 0;
    while k < outer.len()
        invariant
            table_ok(&table),
            n == table.len(),
            roots == tagged_view(all@),
            outs == strings_view(outer@),
            roots == all_roots_spec(home@),
            outs == outermost_spec(roots),
            forall|i: int| 0 <= i < all@.len() ==> (#[trigger] all@[i]).0 < catalog_spec().len(),
            forall|p: &str| walk.requires((p,)),
            forall|x: &CategoryResult| on_ready.requires((x,)),
            k <= outer.len(),
            walks.len() == k,
            forall|m: int| 0 <= m < k ==> walk_answered(walk, outs[m], #[trigger] walks[m]),
            pending@.len() == n,
            buckets@.len() == n,
            slots@.len() == n,
            forall|c: int| 0 <= c < n ==> pending@[c] == pend(c, roots, outs, done_after(c, roots, outs, k as nat)),
            forall|c: int| 0 <= c < n ==> slot_ok(slots@[c], c, final_upto(c, roots, outs, walks, k as nat)),
            forall|c: int|
                0 <= c < n && final_upto(c, roots, outs, walks, k as nat) is None ==> files_view(
                    buckets@[c]@,
                ) == attributed(c, flat(walks), roots),
            forall|c: int| 0 <= c < n ==> heard(on_ready, #[trigger] slots@[c]),
        decreases outer.len() - k,
    {
        let p = outer[k].as_str();
        let files = walk(p);
        let ghost w = files_view(files@);
        assert(walk_answered(walk, outs[k as int], w));
        // Attribute this walk's files.
        let nf = files.len();
        let ghost orig = files@;
        let mut rest = files;
        let mut f: usize = 0;
        assert(w.take(0) =~= Seq::<(Seq<char>, u64)>::empty());
        assert(flat(walks) + w.take(0) =~= flat(walks));
        while rest.len() > 0
            invariant
                roots == tagged_view(all@),
                forall|i: int| 0 <= i < all@.len() ==> (#[trigger] all@[i]).0 < catalog_spec().len(),
                n == catalog_spec().len(),
                nf == w.len(),
                w == files_view(orig),
                orig.len() == nf,
                f + rest@.len() == nf,
                rest@ == orig.subrange(f as int, nf as int),
                buckets@.len() == n,
                forall|c: int|
                    0 <= c < n && final_upto(c, roots, outs, walks, k as nat) is None ==> files_view(
                        buckets@[c]@,
                    ) == attributed(c, flat(walks) + w.take(f as int), roots),
            decreases rest.len(),
        {
            let file = rest.remove(0);
            assert(file == orig[f as int]);
            assert(w[f as int] == (file.0@, file.1));
            let ghost acc = flat(walks) + w.take(f as int);
            assert((flat(walks) + w.take(f + 1)).drop_last() =~= acc);
            assert((flat(walks) + w.take(f + 1)).last() == w[f as int]);
            match longest_prefix_owner(file.0.as_str(), &all) {
                Some(c) => {
                    proof {
                        let j = best_upto(file.0@, roots, roots.len())->0;
                        lemma_best_in_range(file.0@, roots, roots.len());
                        assert(roots[j].0 == all@[j].0 as int);
                    }
                    let ghost old_buckets = buckets@;
                    let mut b = buckets.remove(c);
                    b.push(file);
                    buckets.insert(c, b);
                    proof {
                        assert forall|d: int|
                            0 <= d < n && final_upto(d, roots, outs, walks, k as nat) is None implies files_view(
                                buckets@[d]@,
                            ) == attributed(d, flat(walks) + w.take(f + 1), roots) by {
                            if d == c {
                                assert(buckets@[d]@ == old_buckets[d]@.push(file));
                                assert(files_view(buckets@[d]@) =~= files_view(old_buckets[d]@).push(w[f as int]));
                                assert(attributed(d, flat(walks) + w.take(f + 1), roots) == attributed(d, acc, roots).push(w[f as int]));
                            } else {
                                assert(buckets@[d] == old_buckets[d]);
                                assert(attributed(d, flat(walks) + w.take(f + 1), roots) == attributed(d, acc, roots));
                            }
                        }
                    }
                },
                None => {
                    proof {
                        assert forall|d: int|
                            0 <= d < n && final_upto(d, roots, outs, walks, k as nat) is None implies files_view(
                                buckets@[d]@,
                            ) == attributed(d, flat(walks) + w.take(f + 1), roots) by {
                            assert(attributed(d, flat(walks) + w.take(f + 1), roots) == attributed(d, acc, roots));
                        }
                    }
                },
            }
            f += 1;
            assert(rest@ =~= orig.subrange(f as int, nf as int));
        }
        assert(w.take(nf as int) =~= w);
        let ghost old_walks = walks;
        proof {
            walks = walks.push(w);
            lemma_flat_push(old_walks, w);
            assert forall|c: int| 0 <= c < n implies final_upto(c, roots, outs, walks, k as nat) == final_upto(
                c,
                roots,
                outs,
                old_walks,
                k as nat,
            ) by {
                lemma_final_prefix(c, roots, outs, walks, old_walks, k as nat);
            }
            assert(walks.take(k + 1) =~= walks);
        }
        // Every entry root under this outermost root is now accounted for.
        let mut j: usize = 0;
        while j < all.len()
            invariant
                table_ok(&table),
                n == table.len(),
                roots == tagged_view(all@),
                outs == strings_view(outer@),
                forall|i: int| 0 <= i < all@.len() ==> (#[trigger] all@[i]).0 < catalog_spec().len(),
                forall|x: &CategoryResult| on_ready.requires((x,)),
                k < outer.len(),
                walks.len() == k + 1,
                walks.take(k + 1) == walks,
                j <= all.len(),
                pending@.len() == n,
                buckets@.len() == n,
                slots@.len() == n,
                forall|c: int|
                    0 <= c < n ==> pending@[c] == pend(
                        c,
                        roots,
                        outs,
                        done_after(c, roots, outs, k as nat) + hits(c, roots, outs[k as int], j as nat),
                    ),
                forall|c: int|
                    0 <= c < n ==> slot_ok(
                        slots@[c],
                        c,
                        match final_upto(c, roots, outs, walks, k as nat) {
                            Some(f) => Some(f),
                            None => if waits(c, roots, outs, roots.len()) > 0 && done_after(c, roots, outs, k as nat)
                                + hits(c, roots, outs[k as int], j as nat) >= waits(c, roots, outs, roots.len()) {
                                Some(attributed(c, flat(walks), roots))
                            } else {
                                None
                            },
                        },
                    ),
                forall|c: int|
                    0 <= c < n && final_upto(c, roots, outs, walks, k as nat) is None && !(waits(
                        c,
                        roots,
                        outs,
                        roots.len(),
                    ) > 0 && done_after(c, roots, outs, k as nat) + hits(c, roots, outs[k as int], j as nat)
                        >= waits(c, roots, outs, roots.len())) ==> files_view(buckets@[c]@) == attributed(
                        c,
                        flat(walks),
                        roots,
                    ),
                forall|c: int| 0 <= c < n ==> heard(on_ready, #[trigger] slots@[c]),
            decreases all.len() - j,
        {
            let c = all[j].0;
            assert(roots[j as int] == (all@[j as int].0 as int, all@[j as int].1@));
            assert(outs[k as int] == outer@[k as int]@);
            let ghost old_pending = pending@;
            let ghost old_slots = slots@;
            let ghost old_buckets = buckets@;
            proof {
                assert(hits(c as int, roots, outs[k as int], (j + 1) as nat) == hits(c as int, roots, outs[k as int], j as nat)
                    + if roots[j as int].0 == c as int && starts_with_ci(roots[j as int].1, outs[k as int]) { 1nat } else { 0nat });
                lemma_final_means_done(c as int, roots, outs, walks, k as nat);
            }
            if starts_with_case_insensitive(all[j].1.as_str(), outer[k].as_str()) && pending[c] > 0 {
                let v = pending[c] - 1;
                pending.set(c, v);
                if v == 0 {
                    let files_c = buckets.remove(c);
                    buckets.insert(c, Vec::new());
                    let result = summarize(&table, c, files_c);
                    on_ready(&result);
                    slots.set(c, Some(result));
                }
            }
            proof {
                assert forall|d: int| 0 <= d < n implies pending@[d] == pend(
                    d,
                    roots,
                    outs,
                    done_after(d, roots, outs, k as nat) + hits(d, roots, outs[k as int], (j + 1) as nat),
                ) && slot_ok(
                    slots@[d],
                    d,
                    match final_upto(d, roots, outs, walks, k as nat) {
                        Some(f) => Some(f),
                        None => if waits(d, roots, outs, roots.len()) > 0 && done_after(d, roots, outs, k as nat)
                            + hits(d, roots, outs[k as int], (j + 1) as nat) >= waits(d, roots, outs, roots.len()) {
                            Some(attributed(d, flat(walks), roots))
                        } else {
                            None
                        },
                    },
                ) && (final_upto(d, roots, outs, walks, k as nat) is None && !(waits(d, roots, outs, roots.len())
                    > 0 && done_after(d, roots, outs, k as nat) + hits(d, roots, outs[k as int], (j + 1) as nat)
                    >= waits(d, roots, outs, roots.len())) ==> files_view(buckets@[d]@) == attributed(
                    d,
                    flat(walks),
                    roots,
                )) by {
                    if d != c as int {
                        assert(pending@[d] == old_pending[d]);
                        assert(slots@[d] == old_slots[d]);
                        assert(buckets@[d] == old_buckets[d]);
                    }
                }
                assert forall|d: int| 0 <= d < n implies heard(on_ready, #[trigger] slots@[d]) by {
                    if d != c as int {
                        assert(slots@[d] == old_slots[d]);
                    }
                }
            }
            j += 1;
        }
        proof {
            assert forall|c: int| 0 <= c < n implies #[trigger] final_upto(c, roots, outs, walks, (k + 1) as nat) == match final_upto(
                c,
                roots,
                outs,
                walks,
                k as nat,
            ) {
                Some(f) => Some(f),
                None => if waits(c, roots, outs, roots.len()) > 0 && done_after(c, roots, outs, k as nat) + hits(
                    c,
                    roots,
                    outs[k as int],
                    roots.len(),
                ) >= waits(c, roots, outs, roots.len()) {
                    Some(attributed(c, flat(walks), roots))
                } else {
                    None
                },
            } by {
            }
        }
        k += 1;
    }
    // An entry no walk could reach is still reported.
    let mut c: usize = 0;
    while c < n
        invariant
            table_ok(&table),
            n == table.len(),
            roots == all_roots_spec(home@),
            outs == outermost_spec(roots),
            walks.len() == outs.len(),
            forall|x: &CategoryResult| on_ready.requires((x,)),
            c <= n,
            buckets@.len() == n,
            slots@.len() == n,
            forall|d: int| 0 <= d < c ==> slot_ok(slots@[d], d, Some(reported_files(d, roots, outs, walks))),
            forall|d: int|
                c <= d < n ==> slot_ok(slots@[d], d, final_upto(d, roots, outs, walks, outs.len())),
            forall|d: int|
                c <= d < n && final_upto(d, roots, outs, walks, outs.len()) is None ==> files_view(
                    buckets@[d]@,
                ) == attributed(d, flat(walks), roots),
            forall|d: int| 0 <= d < n ==> heard(on_ready, #[trigger] slots@[d]),
        decreases n - c,
    {
        let ghost old_slots = slots@;
        if slots[c].is_none() {
            let files_c = buckets.remove(c);
            buckets.insert(c, Vec::new());
            let result = summarize(&table, c, files_c);
            on_ready(&result);
            slots.set(c, Some(result));
        }
        proof {
            assert forall|d: int| 0 <= d < c + 1 implies slot_ok(slots@[d], d, Some(reported_files(d, roots, outs, walks))) by {
                if d < c {
                    assert(slots@[d] == old_slots[d]);
                }
            }
            assert forall|d: int| 0 <= d < n implies heard(on_ready, #[trigger] slots@[d]) by {
                if d != c as int {
                    assert(slots@[d] == old_slots[d]);
                }
            }
        }
        c += 1;
    }
    let mut out: Vec<CategoryResult> = Vec::new();
    let ghost sv = slots@;
    let mut rest = slots;
    while rest.len() > 0
        invariant
            sv.len() == n,
            out@.len() + rest@.len() == n,
            rest@ == sv.subrange(out@.len() as int, n as int),
            forall|d: int| 0 <= d < n ==> slot_ok(sv[d], d, Some(reported_files(d, roots, outs, walks))),
            forall|d: int| 0 <= d < out@.len() ==> result_matches(#[trigger] out@[d], d, reported_files(d, roots, outs, walks)),
            forall|d: int| 0 <= d < n ==> heard(on_ready, #[trigger] sv[d]),
            forall|d: int| 0 <= d < out@.len() ==> on_ready.ensures((&#[trigger] out@[d],), ()),
        decreases rest.len(),
    {
        let ghost i = out@.len();
        let s = rest.remove(0);
        assert(s == sv[i as int]);
        match s {
            Some(res) => {
                assert(heard(on_ready, sv[i as int]));
                out.push(res);
            },
            None => {
                assert(false);
            },
        }
        assert(rest@ =~= sv.subrange(out@.len() as int, n as int));
    }
    assert(scanned_as(walk, home@, walks, out@));
    out
}

pub open spec fn table_ok(t: &Vec<crate::catalog::CatalogEntry>) -> bool {
    entries_view(t@) == catalog_spec()
}

/// `scan_attributed_streaming` for a caller with nothing to report
/// progress to.
pub fn scan_attributed_in<W: Fn(&str) -> Vec<(String, u64)>>(home: &str, walk: &W) -> (r: Vec<CategoryResult>)
    requires
        forall|p: &str| walk.requires((p,)),
    ensures
        r@.len() == catalog_spec().len(),
        exists|walks: Seq<Seq<(Seq<char>, u64)>>| #[trigger] scanned_as(walk, home@, walks, r@),
{
    let quiet = |_r: &CategoryResult| {};
    scan_attributed_streaming(home, walk, &quiet)
}

/// What a category result says, by value.
pub open spec fn result_view(r: CategoryResult) -> (Seq<char>, Seq<char>, u64, usize, Seq<Seq<char>>) {
    (r.id@, r.label@, r.bytes, r.items, strings_view(r.paths@))
}

/// The streaming scan and the batch scan agree: two scans of one home whose
/// walks found the same files report the same results (ids in catalog
/// order, labels, sizes, counts and paths), whatever either reported on the
/// way.
pub proof fn scans_agree_on_the_same_walks<
    A: Fn(&str) -> Vec<(String, u64)>,
    B: Fn(&str) -> Vec<(String, u64)>,
>(
    walk_a: &A,
    walk_b: &B,
    home: Seq<char>,
    walks: Seq<Seq<(Seq<char>, u64)>>,
    ra: Seq<CategoryResult>,
    rb: Seq<CategoryResult>,
)
    requires
        scanned_as(walk_a, home, walks, ra),
        scanned_as(walk_b, home, walks, rb),
    ensures
        ra.len() == rb.len(),
        forall|i: int| 0 <= i < ra.len() ==> result_view(#[trigger] ra[i]) == result_view(rb[i]),
{
    let roots = all_roots_spec(home);
    let outer = outermost_spec(roots);
    assert forall|i: int| 0 <= i < ra.len() implies result_view(#[trigger] ra[i]) == result_view(rb[i]) by {
        assert(result_matches(ra[i], i, reported_files(i, roots, outer, walks)));
        assert(result_matches(rb[i], i, reported_files(i, roots, outer, walks)));
    }
}

// ---------------------------------------------------------------------------
// No double counting
// ---------------------------------------------------------------------------

/// How many of `files` some root covers.
pub open spec fn owned_count(files: Seq<(Seq<char>, u64)>, roots: Seq<(int, Seq<char>)>) -> nat
    decreases files.len(),
{
    if files.len() == 0 {
        0
    } else {
        owned_count(files.drop_last(), roots) + if owner(files.last().0, roots) is Some { 1nat } else { 0nat }
    }
}

/// The files attributed to the first `m` entries, counted together.
pub open spec fn attributed_total(files: Seq<(Seq<char>, u64)>, roots: Seq<(int, Seq<char>)>, m: nat) -> nat
    decreases m,
{
    if m == 0 {
        0
    } else {
        attributed_total(files, roots, (m - 1) as nat) + attributed(m - 1, files, roots).len()
    }
}

proof fn lemma_total_step(files: Seq<(Seq<char>, u64)>, roots: Seq<(int, Seq<char>)>, m: nat)
    requires
        files.len() > 0,
    ensures
        attributed_total(files, roots, m) == attributed_total(files.drop_last(), roots, m) + match owner(
            files.last().0,
            roots,
        ) {
            Some(o) => if 0 <= o < m { 1nat } else { 0nat },
            None => 0nat,
        },
    decreases m,
{
    if m > 0 {
        lemma_total_step(files, roots, (m - 1) as nat);
    }
}

/// Every file a root covers is counted in exactly one category: the
/// categories' item counts add up to the number of covered files, with no
/// file counted under both a parent and a nested category.
pub proof fn lemma_no_double_counting(home: Seq<char>, files: Seq<(Seq<char>, u64)>)
    ensures
        attributed_total(files, all_roots_spec(home), catalog_spec().len()) == owned_count(files, all_roots_spec(home)),
    decreases files.len(),
{
    let roots = all_roots_spec(home);
    if files.len() == 0 {
        assert(attributed_total(files, roots, catalog_spec().len()) == 0) by {
            lemma_total_zero(files, roots, catalog_spec().len());
        }
    } else {
        lemma_no_double_counting(home, files.drop_last());
        lemma_total_step(files, roots, catalog_spec().len());
        lemma_roots_tags(home, catalog_spec().len());
        if let Some(o) = owner(files.last().0, roots) {
            lemma_best_in_range(files.last().0, roots, roots.len());
            let j = best_upto(files.last().0, roots, roots.len())->0;
            assert(0 <= roots[j].0 < catalog_spec().len());
        }
    }
}

proof fn lemma_total_zero(files: Seq<(Seq<char>, u64)>, roots: Seq<(int, Seq<char>)>, m: nat)
    requires
        files.len() == 0,
    ensures
        attributed_total(files, roots, m) == 0,
    decreases m,
{
    if m > 0 {
        lemma_total_zero(files, roots, (m - 1) as nat);
    }
}

} // verus!
