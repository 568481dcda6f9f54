//! The disk analyzer's rules: how a child of a directory is sized and in
//! which order the children are shown. Listing the directory and walking
//! each child is the caller's work; what comes of it is decided here.
//!
//! The analyzer produces no removal candidates: an `Entry` has no way into
//! the removal path, and nothing here builds a selection.

use crate::order::{lemma_lex_total, lemma_lex_trans, lex_le, sort_by, sorted_by, text_le};
use vstd::prelude::*;

verus! {

/// One child of the directory being looked at, with its full recursive size.
pub struct Entry {
    pub name: String,
    pub path: String,
    pub bytes: u64,
    pub is_dir: bool,
    /// True when part of the entry could not be read, so `bytes` is an
    /// undercount. Said rather than silently under-reported.
    pub partial: bool,
}

/// One item met while walking a directory (symlinks never followed).
pub enum WalkStep {
    /// A regular file, with its length, or `None` when its metadata could not be read.
    File(Option<u64>),
    /// A directory or a symlink: it adds nothing by itself.
    Other,
    /// A subtree the walk could not read.
    Unreadable,
}

pub open spec fn sat_add(a: u64, b: u64) -> u64 {
    if a + b > u64::MAX { u64::MAX } else { (a + b) as u64 }
}

/// The bytes of every readable file in the walk, saturating.
pub open spec fn tree_bytes(steps: Seq<WalkStep>) -> u64
    decreases steps.len(),
{
    if steps.len() == 0 {
        0
    } else {
        let t = tree_bytes(steps.drop_last());
        match steps.last() {
            WalkStep::File(Some(n)) => sat_add(t, n),
            _ => t,
        }
    }
}

pub open spec fn step_unreadable(s: WalkStep) -> bool {
    s matches WalkStep::Unreadable || s matches WalkStep::File(None)
}

/// Whether anything in the walk could not be read.
pub open spec fn tree_partial(steps: Seq<WalkStep>) -> bool {
    exists|i: int| 0 <= i < steps.len() && #[trigger] step_unreadable(steps[i])
}

/// The total of a walk and whether it is an undercount.
pub fn tree_size(steps: &[WalkStep]) -> (r: (u64, bool))
    ensures
        r.0 == tree_bytes(steps@),
        r.1 == tree_partial(steps@),
{
    let mut total: u64 = 0;
    let mut partial = false;
    let mut i: usize = 0;
    assert(steps@.take(0) =~= Seq::<WalkStep>::empty());
    while i < steps.len()
        invariant
            i <= steps.len(),
            total == tree_bytes(steps@.take(i as int)),
            partial == tree_partial(steps@.take(i as int)),
        decreases steps.len() - i,
    {
        let ghost before = steps@.take(i as int);
        let ghost after = steps@.take(i + 1);
        assert(after.drop_last() =~= before);
        assert(after.last() == steps@[i as int]);
        match &steps[i] {
            WalkStep::File(Some(n)) => {
                total = total.saturating_add(*n);
            },
            WalkStep::File(None) => {
                partial = true;
            },
            WalkStep::Other => {},
            WalkStep::Unreadable => {
                partial = true;
            },
        }
        proof {
            if step_unreadable(steps@[i as int]) {
                assert(step_unreadable(after[i as int]));
            }
            assert forall|j: int| 0 <= j < i implies #[trigger] after[j] == before[j] by {}
            if tree_partial(after) && !step_unreadable(steps@[i as int]) {
                let j = choose|j: int| 0 <= j < after.len() && #[trigger] step_unreadable(after[j]);
                assert(step_unreadable(before[j]));
            }
            if tree_partial(before) {
                let j = choose|j: int| 0 <= j < before.len() && #[trigger] step_unreadable(before[j]);
                assert(step_unreadable(after[j]));
            }
        }
        i += 1;
    }
    assert(steps@.take(steps@.len() as int) =~= steps@);
    (total, partial)
}

/// A child as the analyzer shows it: a directory at the size of everything
/// beneath it, anything else (a file, a symlink) at its own length.
pub fn child_entry(name: String, path: String, is_dir: bool, len: u64, walk: &[WalkStep]) -> (e: Entry)
    ensures
        e.name@ == name@,
        e.path@ == path@,
        e.is_dir == is_dir,
        is_dir ==> e.bytes == tree_bytes(walk@) && e.partial == tree_partial(walk@),
        !is_dir ==> e.bytes == len && !e.partial,
{
    if is_dir {
        let (bytes, partial) = tree_size(walk);
        Entry { name, path, bytes, is_dir, partial }
    } else {
        Entry { name, path, bytes: len, is_dir, partial: false }
    }
}

/// Largest first, then by name, so equal sizes do not shuffle between calls.
pub open spec fn shown_before(a: Entry, b: Entry) -> bool {
    a.bytes > b.bytes || (a.bytes == b.bytes && lex_le(a.name@, b.name@))
}

pub fn order_entries(entries: Vec<Entry>) -> (r: Vec<Entry>)
    ensures
        r@.to_multiset() == entries@.to_multiset(),
        sorted_by(r@, |a: Entry, b: Entry| shown_before(a, b)),
{
    let le = |a: &Entry, b: &Entry| -> (r: bool)
        ensures
            r == shown_before(*a, *b),
        { a.bytes > b.bytes || (a.bytes == b.bytes && text_le(a.name.as_str(), b.name.as_str())) };
    let ghost leq = |a: Entry, b: Entry| shown_before(a, b);
    proof {
        assert forall|a: Entry, b: Entry| #[trigger] leq(a, b) || leq(b, a) by {
            lemma_lex_total(a.name@, b.name@);
        }
        assert forall|a: Entry, b: Entry, c: Entry| #[trigger] leq(a, b) && #[trigger] leq(b, c)
            implies leq(a, c) by {
            if a.bytes == b.bytes && b.bytes == c.bytes {
                lemma_lex_trans(a.name@, b.name@, c.name@);
            }
        }
    }
    sort_by(entries, &le, Ghost(leq))
}

/// Where the analyzer starts: the home directory, or `/` when it cannot be
/// resolved.
pub fn analysis_root(home: Option<String>) -> (r: String)
    ensures
        r@ == match home {
            Some(h) => h@,
            None => "/"@,
        },
{
    match home {
        Some(h) => h,
        None => "/".to_owned(),
    }
}

} // verus!
