//! The run log: what Spiral Clean did, kept small on purpose. Reading and
//! writing the file is the caller's work; what is written, and when nothing
//! may be, is decided here.

use crate::text::{chars_of, push_str, string_of};
use vstd::prelude::*;

verus! {

/// The log answers "what did Spiral Clean do", not "what is on this disk".
pub const MAX_RUNS: usize = 200;

#[derive(Debug, Clone)]
pub struct RunRecord {
    pub started_at: String,
    pub screen: String,
    pub removed: usize,
    /// Items a failed removal left partly destroyed, counted apart from
    /// `removed`.
    pub partially_removed: usize,
    /// Logical size of what was selected.
    pub estimated_bytes: u64,
    /// Actual volume free-space delta after the run.
    pub measured_bytes: u64,
    /// True when the user quit mid-removal.
    pub interrupted: bool,
}

/// The log after one more run: the record added last, then the oldest
/// dropped until at most `MAX_RUNS` remain.
pub open spec fn appended_spec(runs: Seq<RunRecord>, record: RunRecord) -> Seq<RunRecord> {
    let all = runs.push(record);
    if all.len() > MAX_RUNS { all.subrange(all.len() - MAX_RUNS, all.len() as int) } else { all }
}

pub fn appended(runs: Vec<RunRecord>, record: RunRecord) -> (r: Vec<RunRecord>)
    ensures
        r@ == appended_spec(runs@, record),
{
    let mut runs = runs;
    runs.push(record);
    if runs.len() > MAX_RUNS {
        let drop = runs.len() - MAX_RUNS;
        let ghost all = runs@;
        let mut kept: Vec<RunRecord> = Vec::new();
        let mut rest = runs;
        let mut i: usize = 0;
        let n = rest.len();
        while rest.len() > 0
            invariant
                n == all.len(),
                drop == n - MAX_RUNS,
                i + rest@.len() == n,
                rest@ == all.subrange(i as int, n as int),
                kept@ == if i <= drop { Seq::<RunRecord>::empty() } else { all.subrange(drop as int, i as int) },
            decreases rest.len(),
        {
            let x = rest.remove(0);
            assert(x == all[i as int]);
            if i >= drop {
                kept.push(x);
                assert(kept@ =~= all.subrange(drop as int, i + 1));
            }
            i += 1;
            assert(rest@ =~= all.subrange(i as int, n as int));
        }
        kept
    } else {
        runs
    }
}

pub open spec fn plan_view(r: Result<Vec<RunRecord>, String>) -> Result<Seq<RunRecord>, Seq<char>> {
    match r {
        Ok(v) => Ok(v@),
        Err(e) => Err(e@),
    }
}

/// What to write back for one more run. The log is rewritten whole, so a
/// log that could not be read is never written over: its error comes back
/// and nothing is written.
pub fn append(loaded: Result<Vec<RunRecord>, String>, record: RunRecord) -> (r: Result<Vec<RunRecord>, String>)
    ensures
        plan_view(r) == match loaded {
            Ok(runs) => Ok(appended_spec(runs@, record)),
            Err(e) => Err(e@),
        },
{
    match loaded {
        Ok(runs) => Ok(appended(runs, record)),
        Err(e) => Err(e),
    }
}

pub open spec fn unreadable_message(path: Seq<char>, why: Seq<char>) -> Seq<char> {
    "Spiral Clean could not read your run history at "@ + path + " ("@ + why
        + "). This run was not added to it, because writing the log back would replace history it cannot read. Fix that file, or move it aside to start a new one."@
}

pub open spec fn unwritable_message(path: Seq<char>, why: Seq<char>) -> Seq<char> {
    "Spiral Clean could not write your run history at "@ + path + " ("@ + why
        + "). The run itself finished; only the log entry is missing. Check that the folder is writable and has free space."@
}

/// Names the file, says the run was not recorded, and gives a next step.
pub fn unreadable(path: &str, why: &str) -> (r: String)
    ensures
        r@ == unreadable_message(path@, why@),
{
    let mut v = chars_of("Spiral Clean could not read your run history at ");
    push_str(&mut v, path);
    push_str(&mut v, " (");
    push_str(&mut v, why);
    push_str(
        &mut v,
        "). This run was not added to it, because writing the log back would replace history it cannot read. Fix that file, or move it aside to start a new one.",
    );
    string_of(v.as_slice())
}

/// A log that was read but could not be written is intact on disk: the
/// opposite situation, with the opposite next step.
pub fn unwritable(path: &str, why: &str) -> (r: String)
    ensures
        r@ == unwritable_message(path@, why@),
{
    let mut v = chars_of("Spiral Clean could not write your run history at ");
    push_str(&mut v, path);
    push_str(&mut v, " (");
    push_str(&mut v, why);
    push_str(
        &mut v,
        "). The run itself finished; only the log entry is missing. Check that the folder is writable and has free space.",
    );
    string_of(v.as_slice())
}

/// The log never grows past its cap, and the newest run is always last.
pub proof fn lemma_the_log_is_capped(runs: Seq<RunRecord>, record: RunRecord)
    ensures
        appended_spec(runs, record).len() <= MAX_RUNS,
        appended_spec(runs, record).last() == record,
        runs.len() < MAX_RUNS ==> appended_spec(runs, record) == runs.push(record),
{
}

} // verus!
