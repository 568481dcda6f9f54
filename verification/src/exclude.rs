//! The exclusion list: paths the user asked Spiral Clean never to touch.
//!
//! Matching is deliberately generous — every clause can only protect more.
//! Reading and writing the list on disk belongs to the caller; what stands
//! here is what the list means, and the validator that decides whether a
//! list may be used at all.

use crate::fsview::{fs_view, normalized, FsView, ProbeView};
use crate::paths::{
    components, components_of, has_parent_dir, has_parent_dir_exec, is_absolute, parts_start_with,
    parts_view, prefix_ci, strip_firmlink, strip_firmlink_exec,
};
use crate::text::{chars_of, push_str, string_of};
use vstd::prelude::*;

verus! {

pub const FILE: &'static str = "exclusions.json";

#[derive(Debug, Default, Clone)]
pub struct ExclusionList {
    paths: Vec<String>,
}

/// Build a list directly from its entries, without the validator that
/// saving and loading apply — for a list that has no file behind it.
pub fn new(paths: Vec<String>) -> (r: ExclusionList)
    ensures
        r.view() == paths@.map_values(|p: String| p@),
{
    ExclusionList { paths }
}

/// Why a candidate is covered, and by which entry. The two directions read
/// very differently to a user, so they are kept apart.
#[derive(Debug, Clone, PartialEq, Eq)]
pub enum Coverage {
    /// The candidate is the excluded path, or lives beneath it.
    Beneath(String),
    /// The candidate is an ancestor of the excluded path: removing it would
    /// take the excluded path with it.
    Contains(String),
}

pub open spec fn beneath_message(entry: Seq<char>) -> Seq<char> {
    "Skipped because you asked Spiral Clean never to touch "@ + entry + "."@
}

pub open spec fn contains_message(entry: Seq<char>) -> Seq<char> {
    "Skipped because removing it would also remove "@ + entry
        + ", which you asked Spiral Clean never to touch."@
}

/// `(true, entry)` for `Beneath`, `(false, entry)` for `Contains`.
pub open spec fn coverage_view(c: Coverage) -> (bool, Seq<char>) {
    match c {
        Coverage::Beneath(e) => (true, e@),
        Coverage::Contains(e) => (false, e@),
    }
}

pub open spec fn reason_of(c: (bool, Seq<char>)) -> Seq<char> {
    if c.0 { beneath_message(c.1) } else { contains_message(c.1) }
}

impl Coverage {
    /// Plain language, naming the entry responsible.
    pub fn reason(&self) -> (r: String)
        ensures
            r@ == reason_of(coverage_view(*self)),
    {
        match self {
            Coverage::Beneath(entry) => {
                let mut v = chars_of("Skipped because you asked Spiral Clean never to touch ");
                push_str(&mut v, entry.as_str());
                push_str(&mut v, ".");
                string_of(&v)
            },
            Coverage::Contains(entry) => {
                let mut v = chars_of("Skipped because removing it would also remove ");
                push_str(&mut v, entry.as_str());
                push_str(&mut v, ", which you asked Spiral Clean never to touch.");
                string_of(&v)
            },
        }
    }
}

/// How one entry covers a candidate, if it does — the three clauses in cost
/// order: lexical (case-folded, firmlink-stripped, no I/O, so it holds even
/// when neither side resolves), resolved (both sides normalised, so a
/// symlinked route to an excluded file matches), and ancestor (the mirror of
/// the first: excluding `~/x/keep` stops a candidate of `~/x`, since removal
/// is whole).
pub open spec fn entry_covers(fs: Seq<ProbeView>, entry: Seq<char>, candidate: Seq<char>) -> Option<
    bool,
> {
    let lexical_candidate = strip_firmlink(components(candidate));
    let lexical_entry = strip_firmlink(components(entry));
    if prefix_ci(lexical_candidate, lexical_entry) {
        Some(true)
    } else if (match (normalized(fs, candidate), normalized(fs, entry)) {
        (Some(c), Some(e)) => prefix_ci(c, e),
        _ => false,
    }) {
        Some(true)
    } else if prefix_ci(lexical_entry, lexical_candidate) {
        Some(false)
    } else {
        None
    }
}

/// The first entry that covers the candidate, and in which direction.
pub open spec fn covering_spec(fs: Seq<ProbeView>, entries: Seq<Seq<char>>, candidate: Seq<char>) -> Option<
    (bool, Seq<char>),
>
    decreases entries.len(),
{
    if entries.len() == 0 {
        None
    } else {
        match entry_covers(fs, entries[0], candidate) {
            Some(b) => Some((b, entries[0])),
            None => covering_spec(fs, entries.drop_first(), candidate),
        }
    }
}

pub open spec fn empty_entry_message() -> Seq<char> {
    "it contains an empty entry, which would match every path and block every clean"@
}

pub open spec fn relative_entry_message(e: Seq<char>) -> Seq<char> {
    "the entry "@ + e + " is not a full path starting at /"@
}

pub open spec fn parent_entry_message(e: Seq<char>) -> Seq<char> {
    "the entry "@ + e
        + " contains \"..\", so it cannot be matched against anything and would protect nothing"@
}

/// What is wrong with one entry, if anything: empty (matches everything),
/// relative (names a different path depending on the working directory),
/// or containing `..` (matches nothing, so it would protect nothing).
pub open spec fn entry_problem(e: Seq<char>) -> Option<Seq<char>> {
    if e.len() == 0 {
        Some(empty_entry_message())
    } else if !is_absolute(e) {
        Some(relative_entry_message(e))
    } else if has_parent_dir(components(e)) {
        Some(parent_entry_message(e))
    } else {
        None
    }
}

pub open spec fn malformed_spec(entries: Seq<Seq<char>>) -> Option<Seq<char>>
    decreases entries.len(),
{
    if entries.len() == 0 {
        None
    } else {
        match entry_problem(entries[0]) {
            Some(why) => Some(why),
            None => malformed_spec(entries.drop_first()),
        }
    }
}

/// Entries are the same path when their components are identical — exact,
/// never case-folded: un-excluding must not take a neighbour.
pub open spec fn same_entry(a: Seq<char>, b: Seq<char>) -> bool {
    components(a) == components(b)
}

pub open spec fn removed_entries(entries: Seq<Seq<char>>, path: Seq<char>) -> Seq<Seq<char>> {
    entries.filter(|e: Seq<char>| !same_entry(e, path))
}

fn entry_problem_exec(p: &String) -> (r: Option<String>)
    ensures
        opt_seq(r) == entry_problem(p@),
{
    let c = chars_of(p.as_str());
    if c.len() == 0 {
        return Some(
            "it contains an empty entry, which would match every path and block every clean".to_owned(),
        );
    }
    if c[0] != '/' {
        let mut v = chars_of("the entry ");
        push_str(&mut v, p.as_str());
        push_str(&mut v, " is not a full path starting at /");
        return Some(string_of(&v));
    }
    let parts = components_of(p.as_str());
    if has_parent_dir_exec(&parts) {
        let mut v = chars_of("the entry ");
        push_str(&mut v, p.as_str());
        push_str(
            &mut v,
            " contains \"..\", so it cannot be matched against anything and would protect nothing",
        );
        return Some(string_of(&v));
    }
    None
}

pub open spec fn opt_seq(o: Option<String>) -> Option<Seq<char>> {
    match o {
        Some(s) => Some(s@),
        None => None,
    }
}

pub open spec fn opt_coverage(o: Option<Coverage>) -> Option<(bool, Seq<char>)> {
    match o {
        Some(c) => Some(coverage_view(c)),
        None => None,
    }
}

impl ExclusionList {
    pub closed spec fn view(&self) -> Seq<Seq<char>> {
        self.paths@.map_values(|p: String| p@)
    }

    /// The entry that covers `candidate` — which entry matched, and in which
    /// direction — or `None`. Every clause compares whole components, so
    /// `/tmp/keep` never covers `/tmp/keepsake.txt`.
    ///
    /// Known limit: hard links defeat this, since every clause compares
    /// paths and a hard link is a second name with no path relationship to
    /// the first.
    pub fn covering(&self, candidate: &str, fs: &FsView) -> (r: Option<Coverage>)
        ensures
            opt_coverage(r) == covering_spec(fs_view(fs), self.view(), candidate@),
    {
        let ghost es = self.view();
        let lexical_candidate = strip_firmlink_exec(components_of(candidate));
        let resolved_candidate = fs.normalize(candidate);
        let mut i: usize = 0;
        assert(es.subrange(0, es.len() as int) =~= es);
        while i < self.paths.len()
            invariant
                es == self.view(),
                es.len() == self.paths.len(),
                i <= self.paths.len(),
                parts_view(lexical_candidate@) == strip_firmlink(components(candidate@)),
                match resolved_candidate {
                    Some(p) => normalized(fs_view(fs), candidate@) == Some(parts_view(p@)),
                    None => normalized(fs_view(fs), candidate@) is None,
                },
                covering_spec(fs_view(fs), es, candidate@) == covering_spec(
                    fs_view(fs),
                    es.subrange(i as int, es.len() as int),
                    candidate@,
                ),
            decreases self.paths.len() - i,
        {
            let excluded = &self.paths[i];
            let ghost rest = es.subrange(i as int, es.len() as int);
            assert(rest[0] == excluded@);
            assert(rest.drop_first() =~= es.subrange(i + 1, es.len() as int));
            let lexical_excluded = strip_firmlink_exec(components_of(excluded.as_str()));
            if parts_start_with(&lexical_candidate, &lexical_excluded) {
                return Some(Coverage::Beneath(excluded.clone()));
            }
            let resolved_match = match (&resolved_candidate, fs.normalize(excluded.as_str())) {
                (Some(c), Some(e)) => parts_start_with(c, &e),
                _ => false,
            };
            if resolved_match {
                return Some(Coverage::Beneath(excluded.clone()));
            }
            if parts_start_with(&lexical_excluded, &lexical_candidate) {
                return Some(Coverage::Contains(excluded.clone()));
            }
            i += 1;
        }
        None
    }

    /// Whether `candidate` is covered at all.
    pub fn covers(&self, candidate: &str, fs: &FsView) -> (r: bool)
        ensures
            r == covering_spec(fs_view(fs), self.view(), candidate@) is Some,
    {
        self.covering(candidate, fs).is_some()
    }

    /// The first entry that cannot mean what an exclusion has to mean,
    /// described for the user. A malformed entry makes the whole list
    /// unusable rather than being dropped: silently discarding one would
    /// remove protection the user believes they have.
    pub fn malformed_entry(&self) -> (r: Option<String>)
        ensures
            opt_seq(r) == malformed_spec(self.view()),
    {
        let ghost es = self.view();
        let mut i: usize = 0;
        assert(es.subrange(0, es.len() as int) =~= es);
        while i < self.paths.len()
            invariant
                es == self.view(),
                es.len() == self.paths.len(),
                i <= self.paths.len(),
                malformed_spec(es) == malformed_spec(es.subrange(i as int, es.len() as int)),
            decreases self.paths.len() - i,
        {
            let ghost rest = es.subrange(i as int, es.len() as int);
            assert(rest[0] == self.paths@[i as int]@);
            assert(rest.drop_first() =~= es.subrange(i + 1, es.len() as int));
            match entry_problem_exec(&self.paths[i]) {
                Some(why) => return Some(why),
                None => {},
            }
            i += 1;
        }
        None
    }

    /// The excluded paths, in the order they were added.
    pub fn entries(&self) -> (r: &Vec<String>)
        ensures
            r@.map_values(|p: String| p@) == self.view(),
    {
        &self.paths
    }

    /// Add a path, or say why it would change nothing: a path already
    /// covered — an entry, beneath one, or above one — is refused with the
    /// reason naming the entry responsible.
    pub fn add(&mut self, path: String, fs: &FsView) -> (r: Result<(), String>)
        ensures
            match covering_spec(fs_view(fs), old(self).view(), path@) {
                Some(c) => r matches Err(why) && why@ == reason_of(c) && final(self).view()
                    == old(self).view(),
                None => r is Ok && final(self).view() == old(self).view().push(path@),
            },
    {
        match self.covering(path.as_str(), fs) {
            Some(coverage) => Err(coverage.reason()),
            None => {
                let ghost before = self.paths@;
                self.paths.push(path);
                assert(self.paths@.map_values(|p: String| p@) =~= before.map_values(
                    |p: String| p@,
                ).push(path@));
                Ok(())
            },
        }
    }

    /// Remove an entry by exact path. Returns false when it was not there.
    pub fn remove(&mut self, path: &str) -> (r: bool)
        ensures
            final(self).view() == removed_entries(old(self).view(), path@),
            r == (final(self).view().len() != old(self).view().len()),
    {
        let target = components_of(path);
        let ghost es = self.view();
        let mut kept: Vec<String> = Vec::new();
        let mut i: usize = 0;
        let n = self.paths.len();
        assert(es.subrange(0, 0).filter(|e: Seq<char>| !same_entry(e, path@)) =~= Seq::<
            Seq<char>,
        >::empty());
        while i < n
            invariant
                n == self.paths.len(),
                es == self.view(),
                es.len() == n,
                i <= n,
                parts_view(target@) == components(path@),
                kept@.map_values(|p: String| p@) == es.subrange(0, i as int).filter(
                    |e: Seq<char>| !same_entry(e, path@),
                ),
            decreases n - i,
        {
            let e = &self.paths[i];
            let c = components_of(e.as_str());
            let same = parts_equal(&c, &target);
            proof {
                assert(es[i as int] == e@);
                assert(es.subrange(0, i + 1).drop_last() =~= es.subrange(0, i as int));
                assert(es.subrange(0, i + 1).last() == e@);
                es.subrange(0, i as int).lemma_filter_push(e@, |x: Seq<char>| !same_entry(x, path@));
                assert(es.subrange(0, i + 1) =~= es.subrange(0, i as int).push(e@));
            }
            if !same {
                let ghost before = kept@;
                kept.push(e.clone());
                assert(kept@.map_values(|p: String| p@) =~= before.map_values(|p: String| p@).push(
                    e@,
                ));
            }
            i += 1;
        }
        assert(es.subrange(0, n as int) =~= es);
        let changed = kept.len() != n;
        self.paths = kept;
        changed
    }
}

fn parts_equal(a: &Vec<Vec<char>>, b: &Vec<Vec<char>>) -> (r: bool)
    ensures
        r == (parts_view(a@) == parts_view(b@)),
{
    if a.len() != b.len() {
        return false;
    }
    let mut i: usize = 0;
    while i < a.len()
        invariant
            a.len() == b.len(),
            i <= a.len(),
            forall|j: int| 0 <= j < i ==> parts_view(a@)[j] == parts_view(b@)[j],
        decreases a.len() - i,
    {
        if !crate::text::seq_eq(&a[i], &b[i]) {
            assert(parts_view(a@)[i as int] != parts_view(b@)[i as int]);
            return false;
        }
        i += 1;
    }
    assert(parts_view(a@) =~= parts_view(b@));
    true
}

pub open spec fn unreadable_message(path: Seq<char>, why: Seq<char>) -> Seq<char> {
    "Spiral Clean could not read your exclusion list at "@ + path + " ("@ + why
        + "). Nothing was removed, because it cannot tell which paths you asked it to protect. Fix that file, or move it aside to start again with an empty list."@
}

/// States the problem and a next step, per the project's error-copy rule.
pub fn unreadable(path: &str, why: &str) -> (r: String)
    ensures
        r@ == unreadable_message(path@, why@),
{
    let mut v = chars_of("Spiral Clean could not read your exclusion list at ");
    push_str(&mut v, path);
    push_str(&mut v, " (");
    push_str(&mut v, why);
    push_str(
        &mut v,
        "). Nothing was removed, because it cannot tell which paths you asked it to protect. Fix that file, or move it aside to start again with an empty list.",
    );
    string_of(&v)
}

pub open spec fn save_refusal_message(why: Seq<char>) -> Seq<char> {
    "Spiral Clean did not save your exclusion list because "@ + why + "."@
}

/// The decision `save` makes before touching the disk: a list with a
/// malformed entry is never written, and the refusal says why.
pub fn save_refusal(list: &ExclusionList) -> (r: Option<String>)
    ensures
        match malformed_spec(list.view()) {
            Some(why) => r matches Some(m) && m@ == save_refusal_message(why),
            None => r is None,
        },
{
    match list.malformed_entry() {
        Some(why) => {
            let mut v = chars_of("Spiral Clean did not save your exclusion list because ");
            push_str(&mut v, why.as_str());
            push_str(&mut v, ".");
            Some(string_of(&v))
        },
        None => None,
    }
}

/// The decision `load` makes once the file's text has been read and parsed:
/// a list with a malformed entry is an error naming the file, never a list
/// with that entry quietly dropped.
pub fn accept_loaded(list: ExclusionList, file: &str) -> (r: Result<ExclusionList, String>)
    ensures
        match malformed_spec(list.view()) {
            Some(why) => r matches Err(m) && m@ == unreadable_message(file@, why),
            None => r matches Ok(l) && l.view() == list.view(),
        },
{
    match list.malformed_entry() {
        Some(why) => Err(unreadable(file, why.as_str())),
        None => Ok(list),
    }
}

// ---------------------------------------------------------------------------
// Laws
// ---------------------------------------------------------------------------

/// An entry always covers itself and everything beneath it, however the
/// filesystem resolves either side: the lexical clause needs no I/O.
pub proof fn lemma_an_entry_covers_what_lies_beneath_it(
    fs: Seq<ProbeView>,
    entries: Seq<Seq<char>>,
    k: int,
    candidate: Seq<char>,
)
    requires
        0 <= k < entries.len(),
        prefix_ci(strip_firmlink(components(candidate)), strip_firmlink(components(entries[k]))),
    ensures
        covering_spec(fs, entries, candidate) is Some,
    decreases k,
{
    if k > 0 {
        if entry_covers(fs, entries[0], candidate) is None {
            assert(entries.drop_first()[k - 1] == entries[k]);
            lemma_an_entry_covers_what_lies_beneath_it(fs, entries.drop_first(), k - 1, candidate);
        }
    }
}

/// An entry also covers every ancestor of itself: removing the ancestor
/// would take the entry with it.
pub proof fn lemma_an_entry_covers_its_ancestors(
    fs: Seq<ProbeView>,
    entries: Seq<Seq<char>>,
    k: int,
    candidate: Seq<char>,
)
    requires
        0 <= k < entries.len(),
        prefix_ci(strip_firmlink(components(entries[k])), strip_firmlink(components(candidate))),
    ensures
        covering_spec(fs, entries, candidate) is Some,
    decreases k,
{
    if k > 0 {
        if entry_covers(fs, entries[0], candidate) is None {
            assert(entries.drop_first()[k - 1] == entries[k]);
            lemma_an_entry_covers_its_ancestors(fs, entries.drop_first(), k - 1, candidate);
        }
    }
}

/// The list only ever protects more as it grows: whatever some entries
/// cover, those entries with more after them still cover.
pub proof fn lemma_more_entries_protect_more(
    fs: Seq<ProbeView>,
    entries: Seq<Seq<char>>,
    more: Seq<Seq<char>>,
    candidate: Seq<char>,
)
    requires
        covering_spec(fs, entries, candidate) is Some,
    ensures
        covering_spec(fs, entries + more, candidate) is Some,
    decreases entries.len(),
{
    let all = entries + more;
    assert(all[0] == entries[0]);
    if entry_covers(fs, entries[0], candidate) is None {
        assert(all.drop_first() =~= entries.drop_first() + more);
        lemma_more_entries_protect_more(fs, entries.drop_first(), more, candidate);
    }
}

/// Adding a path that nothing covered makes it covered.
pub proof fn lemma_added_path_is_covered(fs: Seq<ProbeView>, entries: Seq<Seq<char>>, path: Seq<char>)
    ensures
        covering_spec(fs, entries.push(path), path) is Some,
{
    let all = entries.push(path);
    let p = strip_firmlink(components(path));
    assert forall|i: int| 0 <= i < p.len() implies crate::paths::same_component(#[trigger] p[i], p[i]) by {}
    assert(all[entries.len() as int] == path);
    lemma_an_entry_covers_what_lies_beneath_it(fs, all, entries.len() as int, path);
}

/// Removing is exact: every entry that is not the named path survives, in
/// order, and the named path is gone.
pub proof fn lemma_remove_is_exact(entries: Seq<Seq<char>>, path: Seq<char>)
    ensures
        forall|e: Seq<char>|
            removed_entries(entries, path).contains(e) <==> (entries.contains(e) && !same_entry(
                e,
                path,
            )),
{
    assert forall|e: Seq<char>|
        removed_entries(entries, path).contains(e) <==> (entries.contains(e) && !same_entry(
            e,
            path,
        )) by {
        if removed_entries(entries, path).contains(e) {
            entries.lemma_filter_contains_rev(|x: Seq<char>| !same_entry(x, path), e);
            broadcast use vstd::seq_lib::group_filter_ensures;
            let i = choose|i: int| 0 <= i < removed_entries(entries, path).len() && removed_entries(entries, path)[i] == e;
            assert(!same_entry(removed_entries(entries, path)[i], path));
        }
        if entries.contains(e) && !same_entry(e, path) {
            let i = choose|i: int| 0 <= i < entries.len() && entries[i] == e;
            entries.lemma_filter_contains(|x: Seq<char>| !same_entry(x, path), i);
        }
    }
}

} // verus!
