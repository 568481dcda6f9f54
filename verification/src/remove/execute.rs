//! The bars, in order — the exclusion list's readability, the home, the
//! user-content bar, the exclusions, then the justification — and the one
//! call that deletes.

use super::disposition::{disposition_for, disposition_spec};
use super::roots::{is_user_content, is_user_content_spec, roots_spec, Roots, RootsView};
use super::types::{just_view, Candidate, FailureKind, JustView, Outcome, Report};
use crate::catalog::Disposition;
use crate::exclude::{covering_spec, reason_of, ExclusionList};
use crate::fsview::{fs_view, normalized, FsView, ProbeView};
use crate::text::{chars_of, push_str, string_of};
use vstd::prelude::*;

verus! {

/// What the boundary decided for one candidate, before anything happened.
pub enum Verdict {
    Deny(Seq<char>),
    Exclude(Seq<char>),
    Delete(Disposition),
}

pub open spec fn no_home_message() -> Seq<char> {
    "Spiral Clean could not determine your home directory, so it cannot prove any path is safe to remove. Nothing was removed."@
}

pub open spec fn unidentifiable_message(path: Seq<char>) -> Seq<char> {
    "Spiral Clean could not work out what "@ + path
        + " refers to — a broken or looping symlink, or a folder it is not allowed to read — and it never removes a path it cannot identify. Check the path, then try again."@
}

pub open spec fn own_content_message(path: Seq<char>) -> Seq<char> {
    path + " is your own content. Spiral Clean never removes it."@
}

/// The bars, in order. An unreadable exclusion list stops everything; so
/// does a home that cannot be resolved; then a path that cannot be
/// identified, the user-content bar, the exclusions, and last the
/// justification itself.
pub open spec fn verdict(
    fs: Seq<ProbeView>,
    path: Seq<char>,
    j: JustView,
    excl: Result<Seq<Seq<char>>, Seq<char>>,
    roots: Option<RootsView>,
) -> Verdict {
    match excl {
        Err(why) => Verdict::Deny(why),
        Ok(entries) => match roots {
            None => Verdict::Deny(no_home_message()),
            Some(r) => if normalized(fs, path) is None {
                Verdict::Deny(unidentifiable_message(path))
            } else if is_user_content_spec(fs, path, r) {
                Verdict::Deny(own_content_message(path))
            } else {
                match covering_spec(fs, entries, path) {
                    Some(c) => Verdict::Exclude(reason_of(c)),
                    None => match disposition_spec(fs, path, j, r) {
                        Err(why) => Verdict::Deny(why),
                        Ok(how) => Verdict::Delete(how),
                    },
                }
            },
        },
    }
}

/// What the report says once `delete` has answered for a `Delete` verdict.
pub open spec fn deleted_outcome(how: Disposition, res: Result<(), FailureKind>, o: Outcome) -> bool {
    match res {
        Ok(()) => o == Outcome::Removed(how),
        Err(FailureKind::Partial(why)) => o matches Outcome::PartiallyRemoved(w) && w@ == why@,
        Err(FailureKind::Total(why)) => o matches Outcome::Failed(w) && w@ == why@,
    }
}

/// The report for one candidate agrees with its verdict — and, for a
/// deletion, with what `delete` answered when it was asked.
pub open spec fn report_matches<D: Fn(&str, Disposition) -> Result<(), FailureKind>>(
    delete: D,
    v: Verdict,
    path: Seq<char>,
    o: Outcome,
) -> bool {
    match v {
        Verdict::Deny(m) => o matches Outcome::Denied(w) && w@ == m,
        Verdict::Exclude(m) => o matches Outcome::Excluded(w) && w@ == m,
        Verdict::Delete(how) => exists|p: &str, res: Result<(), FailureKind>|
            p@ == path && delete.ensures((p, how), res) && deleted_outcome(how, res, o),
    }
}

pub open spec fn excl_view(e: Result<&ExclusionList, &str>) -> Result<Seq<Seq<char>>, Seq<char>> {
    match e {
        Ok(l) => Ok(l.view()),
        Err(why) => Err(why@),
    }
}

pub open spec fn roots_opt_view(r: Option<&Roots>) -> Option<RootsView> {
    match r {
        Some(r) => Some(r.view()),
        None => None,
    }
}

/// The decision for one candidate, as a value the caller can act on.
pub enum Decision {
    Delete(Disposition),
    Excluded(String),
    Denied(String),
}

pub open spec fn decision_matches(d: Decision, v: Verdict) -> bool {
    match v {
        Verdict::Deny(m) => d matches Decision::Denied(w) && w@ == m,
        Verdict::Exclude(m) => d matches Decision::Excluded(w) && w@ == m,
        Verdict::Delete(how) => d == Decision::Delete(how),
    }
}

/// Every bar, in order, for one candidate.
pub fn decide(c: &Candidate, excl: Result<&ExclusionList, &str>, roots: Option<&Roots>, fs: &FsView) -> (d: Decision)
    ensures
        decision_matches(d, verdict(fs_view(fs), c.path@, just_view(c.justification), excl_view(excl), roots_opt_view(roots))),
{
    match excl {
        Err(why) => Decision::Denied(why.to_owned()),
        Ok(list) => match roots {
            None => Decision::Denied("Spiral Clean could not determine your home directory, so it cannot prove any path is safe to remove. Nothing was removed.".to_owned()),
            Some(roots) => {
                if fs.normalize(c.path.as_str()).is_none() {
                    let mut v = chars_of("Spiral Clean could not work out what ");
                    push_str(&mut v, c.path.as_str());
                    push_str(&mut v, " refers to — a broken or looping symlink, or a folder it is not allowed to read — and it never removes a path it cannot identify. Check the path, then try again.");
                    return Decision::Denied(string_of(&v));
                }
                if is_user_content(c.path.as_str(), roots, fs) {
                    let mut v = chars_of(c.path.as_str());
                    push_str(&mut v, " is your own content. Spiral Clean never removes it.");
                    return Decision::Denied(string_of(&v));
                }
                match list.covering(c.path.as_str(), fs) {
                    Some(coverage) => Decision::Excluded(coverage.reason()),
                    None => match disposition_for(c.path.as_str(), &c.justification, roots, fs) {
                        Err(why) => Decision::Denied(why),
                        Ok(how) => Decision::Delete(how),
                    },
                }
            },
        },
    }
}

/// The body of `execute`, against an explicit root set. `None` means the
/// home directory could not be resolved, and nothing is removed.
///
/// No single failure aborts the batch: every candidate gets exactly one
/// report, in order, for its own path.
pub fn execute_within<D: Fn(&str, Disposition) -> Result<(), FailureKind>>(
    candidates: Vec<Candidate>,
    excl: Result<&ExclusionList, &str>,
    roots: Option<&Roots>,
    fs: &FsView,
    delete: &D,
) -> (r: Vec<Report>)
    requires
        forall|p: &str, how: Disposition| delete.requires((p, how)),
    ensures
        r.len() == candidates.len(),
        forall|i: int|
            0 <= i < candidates.len() ==> (#[trigger] r@[i]).path@ == candidates@[i].path@
                && report_matches(
                *delete,
                verdict(
                    fs_view(fs),
                    candidates@[i].path@,
                    just_view(candidates@[i].justification),
                    excl_view(excl),
                    roots_opt_view(roots),
                ),
                candidates@[i].path@,
                r@[i].outcome,
            ),
{
    let mut reports: Vec<Report> = Vec::new();
    let mut i: usize = 0;
    while i < candidates.len()
        invariant
            i <= candidates.len(),
            reports.len() == i,
            forall|p: &str, how: Disposition| delete.requires((p, how)),
            forall|k: int|
                0 <= k < i ==> (#[trigger] reports@[k]).path@ == candidates@[k].path@
                    && report_matches(
                    *delete,
                    verdict(
                        fs_view(fs),
                        candidates@[k].path@,
                        just_view(candidates@[k].justification),
                        excl_view(excl),
                        roots_opt_view(roots),
                    ),
                    candidates@[k].path@,
                    reports@[k].outcome,
                ),
        decreases candidates.len() - i,
    {
        let c = &candidates[i];
        let outcome = match decide(c, excl, roots, fs) {
            Decision::Denied(why) => Outcome::Denied(why),
            Decision::Excluded(why) => Outcome::Excluded(why),
            Decision::Delete(how) => {
                let p: &str = c.path.as_str();
                let res = delete(p, how);
                let o = match res {
                    Ok(()) => Outcome::Removed(how),
                    Err(FailureKind::Partial(why)) => Outcome::PartiallyRemoved(why),
                    Err(FailureKind::Total(why)) => Outcome::Failed(why),
                };
                assert(p@ == c.path@);
                o
            },
        };
        reports.push(Report { path: c.path.clone(), outcome });
        i += 1;
    }
    reports
}

/// The only function in Spiral Clean that deletes anything.
///
/// Bars are applied in order — the exclusion list, the home, user content,
/// exclusions, then justification — and no single failure aborts the batch.
/// Takes the exclusion list's *load result*, so a list that exists but
/// cannot be read stops removal instead of quietly meaning "nothing is
/// protected". `home` is supplied by the caller so every destructive path
/// is confinable; a home that cannot be resolved denies every candidate.
/// `fs` holds what the filesystem said about every path involved, and
/// `delete` is the one way a file leaves.
pub fn execute<D: Fn(&str, Disposition) -> Result<(), FailureKind>>(
    candidates: Vec<Candidate>,
    excl: &Result<ExclusionList, String>,
    home: &str,
    fs: &FsView,
    delete: &D,
) -> (r: Vec<Report>)
    requires
        forall|p: &str, how: Disposition| delete.requires((p, how)),
    ensures
        r.len() == candidates.len(),
        forall|i: int|
            0 <= i < candidates.len() ==> (#[trigger] r@[i]).path@ == candidates@[i].path@
                && report_matches(
                *delete,
                verdict(
                    fs_view(fs),
                    candidates@[i].path@,
                    just_view(candidates@[i].justification),
                    match excl {
                        Ok(l) => Ok(l.view()),
                        Err(why) => Err(why@),
                    },
                    roots_spec(fs_view(fs), home@),
                ),
                candidates@[i].path@,
                r@[i].outcome,
            ),
{
    let roots = Roots::new(home, fs);
    let e: Result<&ExclusionList, &str> = match excl {
        Ok(l) => Ok(l),
        Err(why) => Err(why.as_str()),
    };
    let r: Option<&Roots> = match &roots {
        Some(r) => Some(r),
        None => None,
    };
    execute_within(candidates, e, r, fs, delete)
}

// ---------------------------------------------------------------------------
// Laws of the boundary
// ---------------------------------------------------------------------------

/// User content — and any path that cannot be identified — is never
/// deleted, whatever the justification.
pub proof fn lemma_user_content_is_never_deleted(
    fs: Seq<ProbeView>,
    path: Seq<char>,
    j: JustView,
    excl: Result<Seq<Seq<char>>, Seq<char>>,
    r: RootsView,
)
    requires
        is_user_content_spec(fs, path, r),
    ensures
        verdict(fs, path, j, excl, Some(r)) is Deny,
{
}

/// An excluded path is never deleted.
pub proof fn lemma_excluded_is_never_deleted(
    fs: Seq<ProbeView>,
    path: Seq<char>,
    j: JustView,
    entries: Seq<Seq<char>>,
    roots: Option<RootsView>,
)
    requires
        covering_spec(fs, entries, path) is Some,
    ensures
        !(verdict(fs, path, j, Ok(entries), roots) is Delete),
{
}

/// With the exclusion list unreadable, or the home unresolvable, nothing is
/// deleted at all.
pub proof fn lemma_fail_closed(
    fs: Seq<ProbeView>,
    path: Seq<char>,
    j: JustView,
    excl: Result<Seq<Seq<char>>, Seq<char>>,
    roots: Option<RootsView>,
)
    requires
        excl is Err || roots is None,
    ensures
        verdict(fs, path, j, excl, roots) is Deny,
{
}

/// A deletion is only ever what `disposition_for` granted.
pub proof fn lemma_deletion_is_the_granted_disposition(
    fs: Seq<ProbeView>,
    path: Seq<char>,
    j: JustView,
    excl: Result<Seq<Seq<char>>, Seq<char>>,
    roots: Option<RootsView>,
    how: Disposition,
)
    requires
        verdict(fs, path, j, excl, roots) == Verdict::Delete(how),
    ensures
        roots matches Some(r) && disposition_spec(fs, path, j, r) == Ok::<Disposition, Seq<char>>(how),
        !is_user_content_spec(fs, path, roots.unwrap()),
        excl matches Ok(es) && covering_spec(fs, es, path) is None,
{
}

} // verus!
