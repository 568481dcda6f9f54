//! How a permanent removal is reported. The tree is walked bottom-up by the
//! caller, each entry removed on its own; what the walk met decides whether
//! the removal was whole, partial, or did nothing.

use super::types::FailureKind;
use crate::text::{push_str, string_of};
use vstd::prelude::*;

verus! {

/// One entry of a bottom-up removal walk.
pub enum DeleteStep {
    /// The entry was removed.
    Removed,
    /// The entry, or the walk at that point, failed; the message says where and why.
    Failed(String),
}

pub open spec fn removed_any(steps: Seq<DeleteStep>) -> bool {
    exists|i: int| 0 <= i < steps.len() && #[trigger] steps[i] matches DeleteStep::Removed
}

/// The message of the first failure of the walk, if any failed.
pub open spec fn first_failure(steps: Seq<DeleteStep>) -> Option<Seq<char>>
    decreases steps.len(),
{
    if steps.len() == 0 {
        None
    } else {
        match steps[0] {
            DeleteStep::Failed(m) => Some(m@),
            DeleteStep::Removed => first_failure(steps.drop_first()),
        }
    }
}

pub open spec fn total_message(path: Seq<char>, why: Seq<char>) -> Seq<char> {
    "Could not remove "@ + path + ": "@ + why
}

pub open spec fn partial_message(path: Seq<char>, why: Seq<char>) -> Seq<char> {
    "Some contents of "@ + path + " were removed before a failure ("@ + why
        + "). The rest remains — check permissions and try again."@
}

pub open spec fn failure_view(r: Result<(), FailureKind>) -> Option<(bool, Seq<char>)> {
    match r {
        Ok(()) => None,
        Err(FailureKind::Total(m)) => Some((false, m@)),
        Err(FailureKind::Partial(m)) => Some((true, m@)),
    }
}

/// A removal that destroyed nothing.
pub fn could_not_remove(path: &str, why: &str) -> (k: FailureKind)
    ensures
        k matches FailureKind::Total(m) && m@ == total_message(path@, why@),
{
    let mut m: Vec<char> = Vec::new();
    push_str(&mut m, "Could not remove ");
    push_str(&mut m, path);
    push_str(&mut m, ": ");
    push_str(&mut m, why);
    FailureKind::Total(string_of(m.as_slice()))
}

/// What a bottom-up removal of the directory at `path` amounts to: whole
/// when nothing failed; partial when something failed after something was
/// removed; nothing done when something failed and nothing was removed.
/// The first failure's message is the one reported.
pub fn permanent_result(path: &str, steps: &[DeleteStep]) -> (r: Result<(), FailureKind>)
    ensures
        failure_view(r) == match first_failure(steps@) {
            None => None,
            Some(why) => if removed_any(steps@) {
                Some((true, partial_message(path@, why)))
            } else {
                Some((false, total_message(path@, why)))
            },
        },
{
    let mut any = false;
    let mut first: Option<String> = None;
    let mut i: usize = 0;
    assert(steps@.subrange(0, steps@.len() as int) =~= steps@);
    while i < steps.len()
        invariant
            i <= steps.len(),
            any == exists|j: int| 0 <= j < i && #[trigger] steps@[j] matches DeleteStep::Removed,
            first_failure(steps@) == match first {
                Some(m) => Some(m@),
                None => first_failure(steps@.subrange(i as int, steps@.len() as int)),
            },
        decreases steps.len() - i,
    {
        let ghost rest = steps@.subrange(i as int, steps@.len() as int);
        assert(rest.drop_first() =~= steps@.subrange(i + 1, steps@.len() as int));
        assert(rest[0] == steps@[i as int]);
        match &steps[i] {
            DeleteStep::Removed => {
                any = true;
            },
            DeleteStep::Failed(m) => {
                if first.is_none() {
                    first = Some(m.clone());
                }
            },
        }
        i += 1;
    }
    assert(steps@.subrange(steps@.len() as int, steps@.len() as int) =~= Seq::<DeleteStep>::empty());
    match first {
        None => Ok(()),
        Some(e) => {
            if any {
                let mut m: Vec<char> = Vec::new();
                push_str(&mut m, "Some contents of ");
                push_str(&mut m, path);
                push_str(&mut m, " were removed before a failure (");
                push_str(&mut m, e.as_str());
                push_str(&mut m, "). The rest remains — check permissions and try again.");
                Err(FailureKind::Partial(string_of(m.as_slice())))
            } else {
                Err(could_not_remove(path, e.as_str()))
            }
        },
    }
}

} // verus!
