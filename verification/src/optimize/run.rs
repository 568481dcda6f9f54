//! Resolving a selection, the plan the UI is shown, and the shape of what a
//! run reports.

use super::table::{
    actions, actions_spec, note_view, requires_admin, requires_admin_view, table_view, Group, Spec,
    SpecView,
};
use crate::text::{chars_of, push_str, str_eq, string_of, trim, trimmed_str};
use vstd::prelude::*;

verus! {

#[derive(Debug, Clone, PartialEq, Eq)]
pub enum ActionOutcome {
    Succeeded,
    Failed { reason: String },
    /// Deliberately not attempted, with the reason: a blocked Bluetooth
    /// reset, or a batch the user declined.
    Skipped { reason: String },
    /// Selected, but no result came back. Never reported as success.
    NotRun,
}

#[derive(Debug, Clone, PartialEq, Eq)]
pub struct ActionResult {
    pub id: &'static str,
    pub label: &'static str,
    pub outcome: ActionOutcome,
}

#[derive(Debug, Clone, PartialEq, Eq)]
pub struct OptimizeReport {
    pub results: Vec<ActionResult>,
    /// True when the run needed administrator access and the user declined.
    pub cancelled: bool,
}

#[derive(Debug, Clone, PartialEq, Eq)]
pub struct ActionSummary {
    pub id: &'static str,
    pub label: &'static str,
    pub group: Group,
    pub default_selected: bool,
    pub requires_admin: bool,
    pub note: Option<&'static str>,
    /// Present when the action cannot be run right now, with the reason.
    pub blocked: Option<String>,
}

pub enum OutcomeView {
    Succeeded,
    Failed(Seq<char>),
    Skipped(Seq<char>),
    NotRun,
}

pub open spec fn outcome_view(o: ActionOutcome) -> OutcomeView {
    match o {
        ActionOutcome::Succeeded => OutcomeView::Succeeded,
        ActionOutcome::Failed { reason } => OutcomeView::Failed(reason@),
        ActionOutcome::Skipped { reason } => OutcomeView::Skipped(reason@),
        ActionOutcome::NotRun => OutcomeView::NotRun,
    }
}

// ---------------------------------------------------------------------------
// Resolving a selection
// ---------------------------------------------------------------------------

/// The first index in `t` whose id is `id`.
pub open spec fn first_with_id(t: Seq<SpecView>, id: Seq<char>) -> Option<int>
    decreases t.len(),
{
    if t.len() == 0 {
        None
    } else if t[0].id == id {
        Some(0)
    } else {
        match first_with_id(t.drop_first(), id) {
            Some(i) => Some(i + 1),
            None => None,
        }
    }
}

pub open spec fn table_index(id: Seq<char>) -> Option<int> {
    first_with_id(actions_spec(), id)
}

pub open spec fn unknown_message(id: Seq<char>) -> Seq<char> {
    id + " is not something Spiral Clean can do, so nothing was run."@
}

pub open spec fn all_known(ids: Seq<String>) -> bool {
    forall|k: int| 0 <= k < ids.len() ==> (#[trigger] table_index(ids[k]@)) is Some
}

/// The table indices a selection names, when every id is known.
pub open spec fn selection(ids: Seq<String>) -> Seq<int> {
    Seq::new(ids.len(), |k: int| table_index(ids[k]@)->0)
}

pub proof fn lemma_first_with_id(t: Seq<SpecView>, id: Seq<char>)
    ensures
        match first_with_id(t, id) {
            Some(i) => 0 <= i < t.len() && t[i].id == id && forall|j: int|
                0 <= j < i ==> (#[trigger] t[j]).id != id,
            None => forall|j: int| 0 <= j < t.len() ==> (#[trigger] t[j]).id != id,
        },
    decreases t.len(),
{
    if t.len() > 0 {
        lemma_first_with_id(t.drop_first(), id);
        assert forall|j: int| 1 <= j < t.len() implies t[j] == t.drop_first()[j - 1] by {}
    }
}

fn index_of(table: &Vec<Spec>, id: &str) -> (r: Option<usize>)
    requires
        table_view(table@) == actions_spec(),
    ensures
        match r {
            Some(i) => table_index(id@) == Some(i as int),
            None => table_index(id@) is None,
        },
{
    proof {
        lemma_first_with_id(actions_spec(), id@);
    }
    let mut i: usize = 0;
    while i < table.len()
        invariant
            table_view(table@) == actions_spec(),
            i <= table.len(),
            forall|j: int| 0 <= j < i ==> (#[trigger] actions_spec()[j]).id != id@,
        decreases table.len() - i,
    {
        assert(table_view(table@)[i as int] == actions_spec()[i as int]);
        if str_eq(table[i].id, id) {
            proof {
                lemma_first_with_id(actions_spec(), id@);
            }
            return Some(i);
        }
        i += 1;
    }
    proof {
        lemma_first_with_id(actions_spec(), id@);
    }
    None
}

pub open spec fn resolved(ids: Seq<String>, r: Result<Vec<usize>, String>) -> bool {
    match r {
        Ok(v) => all_known(ids) && v@.len() == ids.len() && forall|k: int|
            0 <= k < ids.len() ==> table_index(ids[k]@) == Some(#[trigger] v@[k] as int),
        Err(m) => exists|k: int|
            0 <= k < ids.len() && (#[trigger] table_index(ids[k]@)) is None && (forall|j: int|
                0 <= j < k ==> (#[trigger] table_index(ids[j]@)) is Some) && m@ == unknown_message(
                ids[k]@,
            ),
    }
}

/// Table indices for the selected ids, refusing the whole call on an
/// unknown one: an id the app does not recognise means the UI and the
/// backend disagree about what exists, and running the subset that happens
/// to match would act on a selection the user never made.
pub fn resolve(ids: &[String]) -> (r: Result<Vec<usize>, String>)
    ensures
        resolved(ids@, r),
        r is Ok <==> all_known(ids@),
{
    let table = actions();
    let mut v: Vec<usize> = Vec::new();
    let mut k: usize = 0;
    while k < ids.len()
        invariant
            table_view(table@) == actions_spec(),
            k <= ids.len(),
            v@.len() == k,
            forall|j: int| 0 <= j < k ==> table_index(ids@[j]@) == Some(#[trigger] v@[j] as int),
        decreases ids.len() - k,
    {
        match index_of(&table, ids[k].as_str()) {
            Some(i) => v.push(i),
            None => {
                let mut m = chars_of(ids[k].as_str());
                push_str(&mut m, " is not something Spiral Clean can do, so nothing was run.");
                let r = Err(string_of(m.as_slice()));
                assert(forall|j: int| 0 <= j < k ==> (#[trigger] table_index(ids@[j]@)) is Some) by {
                    assert forall|j: int| 0 <= j < k implies (#[trigger] table_index(ids@[j]@)) is Some by {
                        assert(table_index(ids@[j]@) == Some(v@[j] as int));
                    }
                }
                assert(resolved(ids@, r));
                return r;
            },
        }
        k += 1;
    }
    assert(all_known(ids@)) by {
        assert forall|j: int| 0 <= j < ids@.len() implies (#[trigger] table_index(ids@[j]@)) is Some by {
            assert(table_index(ids@[j]@) == Some(v@[j] as int));
        }
    }
    Ok(v)
}

// ---------------------------------------------------------------------------
// The plan the UI is shown
// ---------------------------------------------------------------------------

pub open spec fn summary_matches(a: ActionSummary, s: SpecView, refusal: Option<Seq<char>>) -> bool {
    &&& a.id@ == s.id
    &&& a.label@ == s.label
    &&& a.group == s.group
    &&& a.default_selected == s.default_selected
    &&& a.requires_admin == requires_admin_view(s.plan)
    &&& note_view(a.note) == s.note
    &&& (match a.blocked {
        Some(b) => s.guard is Some && refusal == Some(b@),
        None => s.guard is None || refusal is None,
    })
}

pub open spec fn opt_string(o: Option<String>) -> Option<Seq<char>> {
    match o {
        Some(s) => Some(s@),
        None => None,
    }
}

/// Every action, in table order, as the UI lists it. `guard_refusal` is the
/// Bluetooth guard's current answer; an action that carries a guard is
/// shown blocked with that reason, one that carries none never is.
pub fn plan(guard_refusal: Option<String>) -> (r: Vec<ActionSummary>)
    ensures
        r.len() == actions_spec().len(),
        forall|i: int|
            0 <= i < r.len() ==> summary_matches(
                #[trigger] r@[i],
                actions_spec()[i],
                opt_string(guard_refusal),
            ),
{
    let table = actions();
    let mut out: Vec<ActionSummary> = Vec::new();
    let mut i: usize = 0;
    while i < table.len()
        invariant
            table_view(table@) == actions_spec(),
            i <= table.len(),
            out@.len() == i,
            forall|j: int|
                0 <= j < i ==> summary_matches(
                    #[trigger] out@[j],
                    actions_spec()[j],
                    opt_string(guard_refusal),
                ),
        decreases table.len() - i,
    {
        assert(table_view(table@)[i as int] == actions_spec()[i as int]);
        let s = &table[i];
        let blocked = if s.guard.is_some() {
            match &guard_refusal {
                Some(reason) => Some(reason.clone()),
                None => None,
            }
        } else {
            None
        };
        out.push(ActionSummary {
            id: s.id,
            label: s.label,
            group: s.group,
            default_selected: s.default_selected,
            requires_admin: requires_admin(&s.plan),
            note: s.note,
            blocked,
        });
        i += 1;
    }
    out
}

/// What one unprivileged command's run amounts to. `ran` is `Err` with the
/// reason when the command could not be started, otherwise whether it
/// exited successfully and what it wrote to stderr.
pub open spec fn command_outcome_spec(binary: Seq<char>, ran: Result<(bool, Seq<char>), Seq<char>>) -> OutcomeView {
    match ran {
        Err(e) => OutcomeView::Failed("Could not run "@ + binary + ": "@ + e + "."@),
        Ok((true, _)) => OutcomeView::Succeeded,
        Ok((false, stderr)) => if trim(stderr).len() == 0 {
            OutcomeView::Failed(binary + " reported a problem."@)
        } else {
            OutcomeView::Failed(binary + " reported: "@ + trim(stderr))
        },
    }
}

pub open spec fn ran_view(ran: Result<(bool, String), String>) -> Result<(bool, Seq<char>), Seq<char>> {
    match ran {
        Ok((ok, stderr)) => Ok((ok, stderr@)),
        Err(e) => Err(e@),
    }
}

pub fn command_outcome(binary: &str, ran: Result<(bool, String), String>) -> (r: ActionOutcome)
    ensures
        outcome_view(r) == command_outcome_spec(binary@, ran_view(ran)),
{
    match ran {
        Err(e) => {
            let mut v = chars_of("Could not run ");
            push_str(&mut v, binary);
            push_str(&mut v, ": ");
            push_str(&mut v, e.as_str());
            push_str(&mut v, ".");
            ActionOutcome::Failed { reason: string_of(&v) }
        },
        Ok((true, _)) => ActionOutcome::Succeeded,
        Ok((false, stderr)) => {
            let detail = trimmed_str(stderr.as_str());
            let mut v = chars_of(binary);
            if detail.len() == 0 {
                push_str(&mut v, " reported a problem.");
            } else {
                push_str(&mut v, " reported: ");
                let mut d = detail;
                v.append(&mut d);
            }
            ActionOutcome::Failed { reason: string_of(&v) }
        },
    }
}

} // verus!
