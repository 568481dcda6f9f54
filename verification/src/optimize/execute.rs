//! Running a selection. The order is fixed: unprivileged work first, in
//! selection order, then one privileged batch behind one password prompt,
//! and only when the selection holds a privileged action. Results are
//! reported in the table's order, whatever order the work finished in.
//!
//! Everything that touches the machine comes in through `Effects`, so what
//! is proved here is the orchestration: what each answer from outside turns
//! into, and that nothing else does.

use super::dynamic::{
    dhcp_renew_command, dhcp_renew_of, thin_snapshots_command, thin_snapshots_commands,
};
use super::run::{
    all_known, opt_string, outcome_view, resolve, resolved, selection, ActionOutcome, ActionResult,
    OptimizeReport, OutcomeView,
};
use super::table::{
    actions, actions_spec, command_view, commands_view, spec_view, table_view, Dynamic, Plan,
    PlanView, Spec, SpecView,
};
use crate::escalate::{BatchResult, Outcome, PrivilegedStep, StepResult};
use crate::order::{lemma_permutation_maps, sort_by, sorted_by};
use crate::text::str_eq;
use vstd::prelude::*;

verus! {

/// Everything a run does to the machine, behind one seam.
pub struct Effects<'a, C: ?Sized, R: ?Sized, B: ?Sized, G: ?Sized, T: ?Sized> {
    /// Runs one unprivileged command.
    pub run_command: &'a C,
    /// Clears the catalog entry a removal action names, through the Clean
    /// flow.
    pub remove_catalog: &'a R,
    /// Runs the privileged batch.
    pub run_batch: &'a B,
    /// Answers for the guard of an action that carries one.
    pub guard_override: &'a G,
    /// The output of `route -n get default`, when it ran.
    pub read_route: &'a T,
}

// ---------------------------------------------------------------------------
// What each action contributes
// ---------------------------------------------------------------------------

/// What came back from outside for one action, as far as the action asked.
pub struct Answer {
    /// The guard's refusal, for an action that carries a guard.
    pub guard: Option<Seq<char>>,
    /// The outcomes of the plain commands run, in order.
    pub outs: Seq<OutcomeView>,
    /// The removal's error, when it failed.
    pub removal: Option<Seq<char>>,
    /// The route output, for the DHCP renewal.
    pub route: Option<Seq<char>>,
}

pub enum Contribution {
    /// A result, known before the batch.
    Record(OutcomeView),
    /// A step for the privileged batch, with its commands.
    Step(Seq<Seq<Seq<char>>>),
}

/// A plain action's commands run in order and stop at the first that does
/// not succeed.
pub open spec fn plain_run(cmds: Seq<Seq<Seq<char>>>, outs: Seq<OutcomeView>) -> bool {
    &&& outs.len() <= cmds.len()
    &&& forall|j: int| 0 <= j < outs.len() - 1 ==> (#[trigger] outs[j]) is Succeeded
    &&& outs.len() < cmds.len() ==> outs.len() > 0 && !(outs.last() is Succeeded)
}

/// The last command run decides; no command at all is success.
pub open spec fn plain_outcome(outs: Seq<OutcomeView>) -> OutcomeView {
    if outs.len() == 0 {
        OutcomeView::Succeeded
    } else {
        outs.last()
    }
}

pub open spec fn contribution(s: SpecView, a: Answer) -> Contribution {
    if s.guard is Some && a.guard is Some {
        Contribution::Record(OutcomeView::Skipped(a.guard->0))
    } else {
        match s.plan {
            PlanView::Plain(_) => Contribution::Record(plain_outcome(a.outs)),
            PlanView::Removal(_) => Contribution::Record(
                match a.removal {
                    None => OutcomeView::Succeeded,
                    Some(m) => OutcomeView::Failed(m),
                },
            ),
            PlanView::Privileged(cmds) => Contribution::Step(cmds),
            PlanView::Dynamic(Dynamic::ThinSnapshots) => Contribution::Step(thin_snapshots_commands()),
            PlanView::Dynamic(Dynamic::DhcpRenew) => match dhcp_renew_of(a.route) {
                Ok(c) => Contribution::Step(c),
                Err(m) => Contribution::Record(OutcomeView::Failed(m)),
            },
        }
    }
}

pub open spec fn slice_view(c: &[&str]) -> Seq<Seq<char>> {
    c@.map_values(|t: &str| t@)
}

pub open spec fn guard_answered<G: Fn() -> Option<String> + ?Sized>(g: &G, a: Option<Seq<char>>) -> bool {
    exists|o: Option<String>| #[trigger] g.ensures((), o) && opt_string(o) == a
}

pub open spec fn command_answered<C: Fn(&[&str]) -> ActionOutcome + ?Sized>(
    rc: &C,
    cmd: Seq<Seq<char>>,
    out: OutcomeView,
) -> bool {
    exists|c: &[&str], o: ActionOutcome|
        #[trigger] rc.ensures((c,), o) && slice_view(c) == cmd && outcome_view(o) == out
}

pub open spec fn removal_result(o: Result<(), String>) -> Option<Seq<char>> {
    match o {
        Ok(_) => None,
        Err(e) => Some(e@),
    }
}

pub open spec fn removal_answered<R: Fn(&str) -> Result<(), String> + ?Sized>(
    rm: &R,
    catalog_id: Seq<char>,
    a: Option<Seq<char>>,
) -> bool {
    exists|x: &str, o: Result<(), String>|
        #[trigger] rm.ensures((x,), o) && x@ == catalog_id && removal_result(o) == a
}

pub open spec fn route_answered<T: Fn() -> Option<String> + ?Sized>(rt: &T, a: Option<Seq<char>>) -> bool {
    exists|o: Option<String>| #[trigger] rt.ensures((), o) && opt_string(o) == a
}

/// The answer for one action came from the effects it consulted.
pub open spec fn answered<
    C: Fn(&[&str]) -> ActionOutcome + ?Sized,
    R: Fn(&str) -> Result<(), String> + ?Sized,
    B: Fn(&[PrivilegedStep]) -> BatchResult + ?Sized,
    G: Fn() -> Option<String> + ?Sized,
    T: Fn() -> Option<String> + ?Sized,
>(e: &Effects<C, R, B, G, T>, s: SpecView, a: Answer) -> bool {
    &&& s.guard is Some ==> guard_answered(e.guard_override, a.guard)
    &&& (s.guard is None || a.guard is None) ==> match s.plan {
        PlanView::Plain(cmds) => plain_run(cmds, a.outs) && forall|j: int|
            0 <= j < a.outs.len() ==> command_answered(e.run_command, cmds[j], #[trigger] a.outs[j]),
        PlanView::Removal(cid) => removal_answered(e.remove_catalog, cid, a.removal),
        PlanView::Dynamic(Dynamic::DhcpRenew) => route_answered(e.read_route, a.route),
        _ => true,
    }
}

// ---------------------------------------------------------------------------
// The run, as a sequence of results
// ---------------------------------------------------------------------------

/// The results known before the batch, tagged with their table index, for
/// the first `k` selected actions.
pub open spec fn records_upto(sel: Seq<int>, ans: Seq<Answer>, k: nat) -> Seq<(int, OutcomeView)>
    decreases k,
{
    if k == 0 {
        Seq::empty()
    } else {
        let prev = records_upto(sel, ans, (k - 1) as nat);
        match contribution(actions_spec()[sel[k - 1]], ans[k - 1]) {
            Contribution::Record(o) => prev.push((sel[k - 1], o)),
            Contribution::Step(_) => prev,
        }
    }
}

/// The batch's steps for the first `k` selected actions, tagged likewise.
pub open spec fn steps_upto(sel: Seq<int>, ans: Seq<Answer>, k: nat) -> Seq<(int, Seq<Seq<Seq<char>>>)>
    decreases k,
{
    if k == 0 {
        Seq::empty()
    } else {
        let prev = steps_upto(sel, ans, (k - 1) as nat);
        match contribution(actions_spec()[sel[k - 1]], ans[k - 1]) {
            Contribution::Record(_) => prev,
            Contribution::Step(c) => prev.push((sel[k - 1], c)),
        }
    }
}

pub open spec fn step_outcome(o: Outcome) -> OutcomeView {
    match o {
        Outcome::Succeeded => OutcomeView::Succeeded,
        Outcome::Failed(r) => OutcomeView::Failed(r@),
        Outcome::NotRun => OutcomeView::NotRun,
    }
}

/// The table index of the first selected action with this id.
pub open spec fn selected_with_id(sel: Seq<int>, id: Seq<char>) -> Option<int>
    decreases sel.len(),
{
    if sel.len() == 0 {
        None
    } else if actions_spec()[sel[0]].id == id {
        Some(sel[0])
    } else {
        selected_with_id(sel.drop_first(), id)
    }
}

/// Step results, each against the selected action it names; a result that
/// names none is dropped.
pub open spec fn ran_records(sel: Seq<int>, rs: Seq<StepResult>) -> Seq<(int, OutcomeView)>
    decreases rs.len(),
{
    if rs.len() == 0 {
        Seq::empty()
    } else {
        let prev = ran_records(sel, rs.drop_last());
        match selected_with_id(sel, rs.last().id@) {
            Some(t) => prev.push((t, step_outcome(rs.last().outcome))),
            None => prev,
        }
    }
}

pub open spec fn declined_message() -> Seq<char> {
    "You did not give administrator access, so this was left alone."@
}

/// What the batch's answer turns into: each step result against its own
/// action; a declined prompt skips every privileged action; a batch that
/// could not run fails each with its reason.
pub open spec fn batch_records(sel: Seq<int>, tags: Seq<int>, b: BatchResult) -> Seq<(int, OutcomeView)> {
    match b {
        BatchResult::Ran(rs) => ran_records(sel, rs@),
        BatchResult::Cancelled => tags.map_values(|t: int| (t, OutcomeView::Skipped(declined_message()))),
        BatchResult::Failed(m) => tags.map_values(|t: int| (t, OutcomeView::Failed(m@))),
    }
}

pub open spec fn step_tags(steps: Seq<(int, Seq<Seq<Seq<char>>>)>) -> Seq<int> {
    steps.map_values(|p: (int, Seq<Seq<Seq<char>>>)| p.0)
}

pub open spec fn collected(sel: Seq<int>, ans: Seq<Answer>, b: Option<BatchResult>) -> Seq<(int, OutcomeView)> {
    records_upto(sel, ans, sel.len()) + match b {
        Some(br) => batch_records(sel, step_tags(steps_upto(sel, ans, sel.len())), br),
        None => Seq::empty(),
    }
}

/// The batch was handed exactly these steps and answered `br`.
pub open spec fn batch_answered<B: Fn(&[PrivilegedStep]) -> BatchResult + ?Sized>(
    rb: &B,
    steps: Seq<(int, Seq<Seq<Seq<char>>>)>,
    br: BatchResult,
) -> bool {
    exists|st: &[PrivilegedStep]|
        #[trigger] rb.ensures((st,), br) && st@.len() == steps.len() && forall|i: int|
            0 <= i < steps.len() ==> (#[trigger] st@[i]).id@ == actions_spec()[steps[i].0].id
                && st@[i].commands.deep_view() == steps[i].1
}

/// The report lists exactly the collected results, each under its action's
/// id and label, in table order; `ps` gives each result's table position.
pub open spec fn reported_with(results: Seq<ActionResult>, coll: Seq<(int, OutcomeView)>, ps: Seq<int>) -> bool {
    &&& ps.len() == results.len()
    &&& forall|i: int, j: int| 0 <= i < j < ps.len() ==> ps[i] <= ps[j]
    &&& forall|i: int|
        0 <= i < ps.len() ==> 0 <= #[trigger] ps[i] < actions_spec().len() && results[i].id@
            == actions_spec()[ps[i]].id && results[i].label@ == actions_spec()[ps[i]].label
    &&& Seq::new(results.len(), |i: int| (ps[i], outcome_view(results[i].outcome))).to_multiset()
        == coll.to_multiset()
}

pub open spec fn reported(results: Seq<ActionResult>, coll: Seq<(int, OutcomeView)>) -> bool {
    exists|ps: Seq<int>| #[trigger] reported_with(results, coll, ps)
}

pub open spec fn ran_as<
    C: Fn(&[&str]) -> ActionOutcome + ?Sized,
    R: Fn(&str) -> Result<(), String> + ?Sized,
    B: Fn(&[PrivilegedStep]) -> BatchResult + ?Sized,
    G: Fn() -> Option<String> + ?Sized,
    T: Fn() -> Option<String> + ?Sized,
>(
    e: &Effects<C, R, B, G, T>,
    sel: Seq<int>,
    ans: Seq<Answer>,
    b: Option<BatchResult>,
    report: OptimizeReport,
) -> bool {
    &&& ans.len() == sel.len()
    &&& forall|k: int| 0 <= k < sel.len() ==> answered(e, actions_spec()[sel[k]], #[trigger] ans[k])
    &&& (b is None <==> steps_upto(sel, ans, sel.len()).len() == 0)
    &&& (b matches Some(br) ==> batch_answered(e.run_batch, steps_upto(sel, ans, sel.len()), br))
    &&& report.cancelled == (b matches Some(BatchResult::Cancelled))
    &&& reported(report.results@, collected(sel, ans, b))
}

// ---------------------------------------------------------------------------
// One action at a time
// ---------------------------------------------------------------------------

fn owned_command(c: &Vec<&'static str>) -> (r: Vec<String>)
    ensures
        r.deep_view() == command_view(*c),
{
    let mut r: Vec<String> = Vec::new();
    let mut i: usize = 0;
    while i < c.len()
        invariant
            i <= c.len(),
            r@.len() == i,
            forall|j: int| 0 <= j < i ==> (#[trigger] r@[j])@ == c@[j]@,
        decreases c.len() - i,
    {
        r.push(c[i].to_owned());
        i += 1;
    }
    assert(r.deep_view() =~= command_view(*c));
    r
}

fn owned_commands(cs: &Vec<Vec<&'static str>>) -> (r: Vec<Vec<String>>)
    ensures
        r.deep_view() == commands_view(*cs),
{
    let mut r: Vec<Vec<String>> = Vec::new();
    let mut i: usize = 0;
    while i < cs.len()
        invariant
            i <= cs.len(),
            r@.len() == i,
            forall|j: int| 0 <= j < i ==> (#[trigger] r@[j]).deep_view() == command_view(cs@[j]),
        decreases cs.len() - i,
    {
        r.push(owned_command(&cs[i]));
        i += 1;
    }
    assert(r.deep_view() =~= commands_view(*cs));
    r
}

/// Runs a plain action's commands in order, stopping at the first that does
/// not succeed.
fn run_plain<C: Fn(&[&str]) -> ActionOutcome + ?Sized>(cmds: &Vec<Vec<&'static str>>, rc: &C) -> (r: (
    ActionOutcome,
    Ghost<Seq<OutcomeView>>,
))
    requires
        forall|c: &[&str]| rc.requires((c,)),
    ensures
        plain_run(commands_view(*cmds), r.1@),
        forall|j: int|
            0 <= j < r.1@.len() ==> command_answered(rc, commands_view(*cmds)[j], #[trigger] r.1@[j]),
        outcome_view(r.0) == plain_outcome(r.1@),
{
    let ghost cv = commands_view(*cmds);
    let mut outcome = ActionOutcome::Succeeded;
    let ghost mut outs: Seq<OutcomeView> = Seq::empty();
    let mut i: usize = 0;
    while i < cmds.len()
        invariant
            cv == commands_view(*cmds),
            forall|c: &[&str]| rc.requires((c,)),
            i <= cmds.len(),
            outs.len() == i,
            forall|j: int| 0 <= j < outs.len() ==> (#[trigger] outs[j]) is Succeeded,
            forall|j: int| 0 <= j < outs.len() ==> command_answered(rc, cv[j], #[trigger] outs[j]),
            outcome_view(outcome) == plain_outcome(outs),
        decreases cmds.len() - i,
    {
        let cmd = cmds[i].as_slice();
        let o = rc(cmd);
        proof {
            assert(slice_view(cmd) == cv[i as int]);
            assert(command_answered(rc, cv[i as int], outcome_view(o)));
            outs = outs.push(outcome_view(o));
        }
        match o {
            ActionOutcome::Succeeded => {
                outcome = o;
            },
            _ => {
                proof {
                    assert forall|j: int| 0 <= j < outs.len() implies command_answered(
                        rc,
                        cv[j],
                        #[trigger] outs[j],
                    ) by {
                        if j < i {
                            assert(outs[j] == outs.drop_last()[j]);
                        }
                    }
                    assert forall|j: int| 0 <= j < outs.len() - 1 implies (#[trigger] outs[j]) is Succeeded by {
                        assert(outs[j] == outs.drop_last()[j]);
                    }
                }
                return (o, Ghost(outs));
            },
        }
        proof {
            assert forall|j: int| 0 <= j < outs.len() implies command_answered(rc, cv[j], #[trigger] outs[j]) by {
                if j < i {
                    assert(outs[j] == outs.drop_last()[j]);
                }
            }
            assert forall|j: int| 0 <= j < outs.len() implies (#[trigger] outs[j]) is Succeeded by {
                if j < i {
                    assert(outs[j] == outs.drop_last()[j]);
                }
            }
        }
        i += 1;
    }
    (outcome, Ghost(outs))
}

pub enum Piece {
    Done(ActionOutcome),
    Step(Vec<Vec<String>>),
}

pub open spec fn piece_view(p: Piece) -> Contribution {
    match p {
        Piece::Done(o) => Contribution::Record(outcome_view(o)),
        Piece::Step(c) => Contribution::Step(c.deep_view()),
    }
}

pub open spec fn effects_callable<
    C: Fn(&[&str]) -> ActionOutcome + ?Sized,
    R: Fn(&str) -> Result<(), String> + ?Sized,
    B: Fn(&[PrivilegedStep]) -> BatchResult + ?Sized,
    G: Fn() -> Option<String> + ?Sized,
    T: Fn() -> Option<String> + ?Sized,
>(e: &Effects<C, R, B, G, T>) -> bool {
    &&& forall|c: &[&str]| e.run_command.requires((c,))
    &&& forall|x: &str| e.remove_catalog.requires((x,))
    &&& forall|st: &[PrivilegedStep]| e.run_batch.requires((st,))
    &&& e.guard_override.requires(())
    &&& e.read_route.requires(())
}

/// Consults what one action needs from outside and says what it
/// contributes: a result now, or a step for the batch.
fn contribute<
    C: Fn(&[&str]) -> ActionOutcome + ?Sized,
    R: Fn(&str) -> Result<(), String> + ?Sized,
    B: Fn(&[PrivilegedStep]) -> BatchResult + ?Sized,
    G: Fn() -> Option<String> + ?Sized,
    T: Fn() -> Option<String> + ?Sized,
>(s: &Spec, e: &Effects<C, R, B, G, T>) -> (r: (Piece, Ghost<Answer>))
    requires
        effects_callable(e),
    ensures
        answered(e, spec_view(*s), r.1@),
        piece_view(r.0) == contribution(spec_view(*s), r.1@),
{
    let ghost sv = spec_view(*s);
    let mut guard: Option<String> = None;
    if s.guard.is_some() {
        guard = (e.guard_override)();
        let ghost g = opt_string(guard);
        assert(guard_answered(e.guard_override, g));
        if let Some(reason) = guard {
            let ghost a = Answer { guard: g, outs: Seq::empty(), removal: None, route: None };
            return (Piece::Done(ActionOutcome::Skipped { reason }), Ghost(a));
        }
    }
    let ghost g = opt_string(guard);
    proof {
        if sv.guard is Some {
            assert(guard_answered(e.guard_override, g));
        }
    }
    match &s.plan {
        Plan::Plain(cmds) => {
            let (o, outs) = run_plain(cmds, e.run_command);
            let ghost a = Answer { guard: g, outs: outs@, removal: None, route: None };
            (Piece::Done(o), Ghost(a))
        },
        Plan::Removal(cid) => {
            let res = (e.remove_catalog)(cid);
            let ghost rem = removal_result(res);
            assert(removal_answered(e.remove_catalog, cid@, rem));
            let ghost a = Answer { guard: g, outs: Seq::empty(), removal: rem, route: None };
            let o = match res {
                Ok(()) => ActionOutcome::Succeeded,
                Err(reason) => ActionOutcome::Failed { reason },
            };
            (Piece::Done(o), Ghost(a))
        },
        Plan::Privileged(cmds) => {
            let ghost a = Answer { guard: g, outs: Seq::empty(), removal: None, route: None };
            (Piece::Step(owned_commands(cmds)), Ghost(a))
        },
        Plan::PrivilegedDynamic(Dynamic::ThinSnapshots) => {
            let ghost a = Answer { guard: g, outs: Seq::empty(), removal: None, route: None };
            match thin_snapshots_command() {
                Ok(c) => (Piece::Step(c), Ghost(a)),
                Err(reason) => (Piece::Done(ActionOutcome::Failed { reason }), Ghost(a)),
            }
        },
        Plan::PrivilegedDynamic(Dynamic::DhcpRenew) => {
            let route = (e.read_route)();
            let ghost rt = opt_string(route);
            assert(route_answered(e.read_route, rt));
            let ghost a = Answer { guard: g, outs: Seq::empty(), removal: None, route: rt };
            let built = match &route {
                Some(out) => dhcp_renew_command(Some(out.as_str())),
                None => dhcp_renew_command(None),
            };
            match built {
                Ok(c) => (Piece::Step(c), Ghost(a)),
                Err(reason) => (Piece::Done(ActionOutcome::Failed { reason }), Ghost(a)),
            }
        },
    }
}

// ---------------------------------------------------------------------------
// Results
// ---------------------------------------------------------------------------

pub open spec fn tag_view(p: (usize, ActionResult)) -> (int, OutcomeView) {
    (p.0 as int, outcome_view(p.1.outcome))
}

/// A result carries the id and label of the action at its tag.
pub open spec fn labelled(p: (usize, ActionResult)) -> bool {
    &&& (p.0 as int) < actions_spec().len()
    &&& p.1.id@ == actions_spec()[p.0 as int].id
    &&& p.1.label@ == actions_spec()[p.0 as int].label
}

pub open spec fn sel_view(sel: Seq<usize>) -> Seq<int> {
    sel.map_values(|x: usize| x as int)
}

pub open spec fn in_table(sel: Seq<usize>) -> bool {
    forall|k: int| 0 <= k < sel.len() ==> (#[trigger] sel[k] as int) < actions_spec().len()
}

fn result_for(table: &Vec<Spec>, t: usize, outcome: ActionOutcome) -> (r: (usize, ActionResult))
    requires
        table_view(table@) == actions_spec(),
        t < table.len(),
    ensures
        r.0 == t,
        r.1.outcome == outcome,
        labelled(r),
{
    assert(table_view(table@)[t as int] == actions_spec()[t as int]);
    (t, ActionResult { id: table[t].id, label: table[t].label, outcome })
}

fn selected_with(table: &Vec<Spec>, sel: &Vec<usize>, id: &str) -> (r: Option<usize>)
    requires
        table_view(table@) == actions_spec(),
        in_table(sel@),
    ensures
        match r {
            Some(t) => selected_with_id(sel_view(sel@), id@) == Some(t as int) && (t as int)
                < actions_spec().len(),
            None => selected_with_id(sel_view(sel@), id@) is None,
        },
{
    let ghost sv = sel_view(sel@);
    assert(sv.subrange(0, sv.len() as int) =~= sv);
    let mut k: usize = 0;
    while k < sel.len()
        invariant
            table_view(table@) == actions_spec(),
            in_table(sel@),
            sv == sel_view(sel@),
            k <= sel.len(),
            selected_with_id(sv, id@) == selected_with_id(sv.subrange(k as int, sv.len() as int), id@),
        decreases sel.len() - k,
    {
        let ghost rest = sv.subrange(k as int, sv.len() as int);
        assert(rest.drop_first() =~= sv.subrange(k + 1, sv.len() as int));
        let t = sel[k];
        assert((t as int) < actions_spec().len());
        assert(table_view(table@)[t as int] == actions_spec()[t as int]);
        if str_eq(table[t].id, id) {
            return Some(t);
        }
        k += 1;
    }
    None
}

fn outcome_of_step(o: &Outcome) -> (r: ActionOutcome)
    ensures
        outcome_view(r) == step_outcome(*o),
{
    match o {
        Outcome::Succeeded => ActionOutcome::Succeeded,
        Outcome::Failed(m) => ActionOutcome::Failed { reason: m.clone() },
        Outcome::NotRun => ActionOutcome::NotRun,
    }
}

/// The results the batch's answer turns into, each tagged with its action.
fn batch_pieces(table: &Vec<Spec>, sel: &Vec<usize>, tags: &Vec<usize>, br: BatchResult) -> (r: Vec<
    (usize, ActionResult),
>)
    requires
        table_view(table@) == actions_spec(),
        in_table(sel@),
        in_table(tags@),
    ensures
        r@.map_values(|p: (usize, ActionResult)| tag_view(p)) == batch_records(
            sel_view(sel@),
            sel_view(tags@),
            br,
        ),
        forall|i: int| 0 <= i < r@.len() ==> labelled(#[trigger] r@[i]),
{
    let mut out: Vec<(usize, ActionResult)> = Vec::new();
    match br {
        BatchResult::Ran(rs) => {
            let mut i: usize = 0;
            assert(rs@.take(0) =~= Seq::<StepResult>::empty());
            while i < rs.len()
                invariant
                    table_view(table@) == actions_spec(),
                    in_table(sel@),
                    i <= rs.len(),
                    out@.map_values(|p: (usize, ActionResult)| tag_view(p)) == ran_records(
                        sel_view(sel@),
                        rs@.take(i as int),
                    ),
                    forall|j: int| 0 <= j < out@.len() ==> labelled(#[trigger] out@[j]),
                decreases rs.len() - i,
            {
                assert(rs@.take(i + 1).drop_last() =~= rs@.take(i as int));
                assert(rs@.take(i + 1).last() == rs@[i as int]);
                let ghost before = out@;
                match selected_with(table, sel, rs[i].id.as_str()) {
                    Some(t) => {
                        let r = result_for(table, t, outcome_of_step(&rs[i].outcome));
                        out.push(r);
                        assert(out@.map_values(|p: (usize, ActionResult)| tag_view(p)) =~= before.map_values(
                            |p: (usize, ActionResult)| tag_view(p),
                        ).push(tag_view(r)));
                    },
                    None => {},
                }
                i += 1;
            }
            assert(rs@.take(rs@.len() as int) =~= rs@);
        },
        BatchResult::Cancelled => {
            let mut i: usize = 0;
            while i < tags.len()
                invariant
                    table_view(table@) == actions_spec(),
                    in_table(tags@),
                    i <= tags.len(),
                    out@.len() == i,
                    forall|j: int| 0 <= j < i ==> tag_view(#[trigger] out@[j]) == (tags@[j] as int, OutcomeView::Skipped(declined_message())),
                    forall|j: int| 0 <= j < out@.len() ==> labelled(#[trigger] out@[j]),
                decreases tags.len() - i,
            {
                let ghost before = out@;
                let r = result_for(
                    table,
                    tags[i],
                    ActionOutcome::Skipped {
                        reason: "You did not give administrator access, so this was left alone.".to_owned(),
                    },
                );
                assert(tag_view(r) == (tags@[i as int] as int, OutcomeView::Skipped(declined_message())));
                out.push(r);
                assert(out@ == before.push(r));
                i += 1;
            }
            assert(out@.map_values(|p: (usize, ActionResult)| tag_view(p)) =~= sel_view(tags@).map_values(
                |t: int| (t, OutcomeView::Skipped(declined_message())),
            ));
        },
        BatchResult::Failed(m) => {
            let mut i: usize = 0;
            while i < tags.len()
                invariant
                    table_view(table@) == actions_spec(),
                    in_table(tags@),
                    i <= tags.len(),
                    out@.len() == i,
                    forall|j: int| 0 <= j < i ==> tag_view(#[trigger] out@[j]) == (tags@[j] as int, OutcomeView::Failed(m@)),
                    forall|j: int| 0 <= j < out@.len() ==> labelled(#[trigger] out@[j]),
                decreases tags.len() - i,
            {
                let ghost before = out@;
                let r = result_for(table, tags[i], ActionOutcome::Failed { reason: m.clone() });
                assert(tag_view(r) == (tags@[i as int] as int, OutcomeView::Failed(m@)));
                out.push(r);
                assert(out@ == before.push(r));
                i += 1;
            }
            assert(out@.map_values(|p: (usize, ActionResult)| tag_view(p)) =~= sel_view(tags@).map_values(
                |t: int| (t, OutcomeView::Failed(m@)),
            ));
        },
    }
    out
}

// ---------------------------------------------------------------------------
// The run
// ---------------------------------------------------------------------------

proof fn lemma_upto_prefix(sel: Seq<int>, a1: Seq<Answer>, a2: Seq<Answer>, k: nat)
    requires
        k <= a1.len(),
        k <= a2.len(),
        forall|j: int| 0 <= j < k ==> a1[j] == a2[j],
    ensures
        records_upto(sel, a1, k) == records_upto(sel, a2, k),
        steps_upto(sel, a1, k) == steps_upto(sel, a2, k),
    decreases k,
{
    if k > 0 {
        lemma_upto_prefix(sel, a1, a2, (k - 1) as nat);
    }
}

pub open spec fn steps_as_built(
    steps: Seq<PrivilegedStep>,
    tags: Seq<usize>,
    expected: Seq<(int, Seq<Seq<Seq<char>>>)>,
) -> bool {
    &&& steps.len() == tags.len()
    &&& expected.len() == steps.len()
    &&& forall|i: int|
        0 <= i < steps.len() ==> (#[trigger] expected[i]).0 == tags[i] as int && expected[i].1
            == steps[i].commands.deep_view() && steps[i].id@ == actions_spec()[tags[i] as int].id
}

/// Runs the selected actions, calling `on_result` as each one finishes
/// before the batch, and then for each privileged action once the batch is
/// settled, whether it ran, was declined or could not run: every result the
/// report holds was heard. An unknown id refuses the whole call before
/// anything runs.
pub fn execute_reporting<
    C: Fn(&[&str]) -> ActionOutcome + ?Sized,
    R: Fn(&str) -> Result<(), String> + ?Sized,
    B: Fn(&[PrivilegedStep]) -> BatchResult + ?Sized,
    G: Fn() -> Option<String> + ?Sized,
    T: Fn() -> Option<String> + ?Sized,
    O: Fn(&ActionResult) + ?Sized,
>(ids: Vec<String>, effects: &Effects<C, R, B, G, T>, on_result: &O) -> (r: Result<
    OptimizeReport,
    String,
>)
    requires
        effects_callable(effects),
        forall|x: &ActionResult| on_result.requires((x,)),
    ensures
        r is Ok <==> all_known(ids@),
        r matches Err(m) ==> resolved(ids@, Err::<Vec<usize>, String>(m)),
        r matches Ok(report) ==> exists|ans: Seq<Answer>, b: Option<BatchResult>|
            #[trigger] ran_as(effects, selection(ids@), ans, b, report),
        r matches Ok(report) ==> forall|i: int|
            0 <= i < report.results@.len() ==> on_result.ensures((&#[trigger] report.results@[i],), ()),
{
    let sel = match resolve(ids.as_slice()) {
        Ok(v) => v,
        Err(m) => return Err(m),
    };
    let table = actions();
    let ghost sv = sel_view(sel@);
    proof {
        assert(sv =~= selection(ids@));
        assert forall|k: int| 0 <= k < sel@.len() implies (#[trigger] sel@[k] as int) < actions_spec().len() by {
            crate::optimize::run::lemma_first_with_id(actions_spec(), ids@[k]@);
        }
    }
    let mut coll: Vec<(usize, ActionResult)> = Vec::new();
    let mut steps: Vec<PrivilegedStep> = Vec::new();
    let mut tags: Vec<usize> = Vec::new();
    let ghost mut ans: Seq<Answer> = Seq::empty();
    let mut k: usize = 0;
    while k < sel.len()
        invariant
            table_view(table@) == actions_spec(),
            in_table(sel@),
            sv == sel_view(sel@),
            effects_callable(effects),
            forall|x: &ActionResult| on_result.requires((x,)),
            k <= sel.len(),
            ans.len() == k,
            forall|j: int| 0 <= j < k ==> answered(effects, actions_spec()[sv[j]], #[trigger] ans[j]),
            coll@.map_values(|p: (usize, ActionResult)| tag_view(p)) == records_upto(sv, ans, k as nat),
            forall|j: int| 0 <= j < coll@.len() ==> labelled(#[trigger] coll@[j]),
            forall|j: int| 0 <= j < coll@.len() ==> on_result.ensures((&(#[trigger] coll@[j]).1,), ()),
            in_table(tags@),
            steps_as_built(steps@, tags@, steps_upto(sv, ans, k as nat)),
        decreases sel.len() - k,
    {
        let t = sel[k];
        assert((t as int) < actions_spec().len());
        assert(table_view(table@)[t as int] == actions_spec()[t as int]);
        let (piece, a) = contribute(&table[t], effects);
        let ghost old_ans = ans;
        proof {
            ans = ans.push(a@);
            lemma_upto_prefix(sv, old_ans, ans, k as nat);
        }
        let ghost old_coll = coll@;
        let ghost old_steps = steps@;
        let ghost old_tags = tags@;
        match piece {
            Piece::Done(o) => {
                let r = result_for(&table, t, o);
                on_result(&r.1);
                coll.push(r);
                assert(coll@.map_values(|p: (usize, ActionResult)| tag_view(p)) =~= old_coll.map_values(
                    |p: (usize, ActionResult)| tag_view(p),
                ).push(tag_view(r)));
                assert forall|j: int| 0 <= j < coll@.len() implies on_result.ensures((&(#[trigger] coll@[j]).1,), ()) by {
                    if j < old_coll.len() {
                        assert(coll@[j] == old_coll[j]);
                    }
                }
            },
            Piece::Step(c) => {
                steps.push(PrivilegedStep { id: table[t].id.to_owned(), commands: c });
                tags.push(t);
            },
        }
        assert forall|j: int| 0 <= j <= k implies answered(
            effects,
            actions_spec()[sv[j]],
            #[trigger] ans[j],
        ) by {
            if j < k {
                assert(ans[j] == old_ans[j]);
            }
        }
        k += 1;
    }
    let mut cancelled = false;
    let ghost mut b: Option<BatchResult> = None;
    let ghost all_steps = steps_upto(sv, ans, sel@.len() as nat);
    if steps.len() > 0 {
        let batch = steps.as_slice();
        let br = (effects.run_batch)(batch);
        proof {
            b = Some(br);
            assert(batch@ == steps@);
            assert(batch_answered(effects.run_batch, all_steps, br));
        }
        cancelled = match &br {
            BatchResult::Cancelled => true,
            _ => false,
        };
        proof {
            assert(sel_view(tags@) =~= step_tags(all_steps));
        }
        let mut pieces = batch_pieces(&table, &sel, &tags, br);
        // Every result is heard as it is known: a batch that ran, one that
        // was declined, and one that could not run alike.
        let mut i: usize = 0;
        while i < pieces.len()
            invariant
                forall|x: &ActionResult| on_result.requires((x,)),
                i <= pieces.len(),
                forall|j: int| 0 <= j < i ==> on_result.ensures((&(#[trigger] pieces@[j]).1,), ()),
            decreases pieces.len() - i,
        {
            on_result(&pieces[i].1);
            i += 1;
        }
        let ghost before = coll@;
        let ghost added = pieces@;
        coll.append(&mut pieces);
        proof {
            assert(coll@ == before + added);
            assert(coll@.map_values(|p: (usize, ActionResult)| tag_view(p)) =~= before.map_values(
                |p: (usize, ActionResult)| tag_view(p),
            ) + added.map_values(|p: (usize, ActionResult)| tag_view(p)));
            assert forall|j: int| 0 <= j < coll@.len() implies labelled(#[trigger] coll@[j]) by {
                if j >= before.len() {
                    assert(coll@[j] == added[j - before.len()]);
                } else {
                    assert(coll@[j] == before[j]);
                }
            }
            assert forall|j: int| 0 <= j < coll@.len() implies on_result.ensures((&(#[trigger] coll@[j]).1,), ()) by {
                if j >= before.len() {
                    assert(coll@[j] == added[j - before.len()]);
                } else {
                    assert(coll@[j] == before[j]);
                }
            }
        }
    } else {
        proof {
            assert(coll@.map_values(|p: (usize, ActionResult)| tag_view(p)) =~= records_upto(
                sv,
                ans,
                sel@.len() as nat,
            ) + Seq::<(int, OutcomeView)>::empty());
        }
    }
    let ghost coll_view = coll@.map_values(|p: (usize, ActionResult)| tag_view(p));
    assert(coll_view == collected(sv, ans, b));
    // Report in the table's order, not the order work happened to finish.
    let le = |x: &(usize, ActionResult), y: &(usize, ActionResult)| -> (r: bool)
        ensures
            r == (x.0 <= y.0),
        { x.0 <= y.0 };
    let ghost leq = |x: (usize, ActionResult), y: (usize, ActionResult)| x.0 <= y.0;
    let ghost unsorted = coll@;
    let sorted = sort_by(coll, &le, Ghost(leq));
    proof {
        lemma_permutation_maps(sorted@, unsorted, |p: (usize, ActionResult)| tag_view(p));
        assert forall|j: int| 0 <= j < sorted@.len() implies labelled(#[trigger] sorted@[j]) by {
            broadcast use vstd::seq_lib::group_to_multiset_ensures;
            vstd::seq_lib::to_multiset_contains(sorted@, sorted@[j]);
            assert(sorted@.contains(sorted@[j]));
            vstd::seq_lib::to_multiset_contains(unsorted, sorted@[j]);
            assert(unsorted.contains(sorted@[j]));
        }
        assert forall|j: int| 0 <= j < sorted@.len() implies on_result.ensures((&(#[trigger] sorted@[j]).1,), ()) by {
            broadcast use vstd::seq_lib::group_to_multiset_ensures;
            vstd::seq_lib::to_multiset_contains(sorted@, sorted@[j]);
            assert(sorted@.contains(sorted@[j]));
            vstd::seq_lib::to_multiset_contains(unsorted, sorted@[j]);
            assert(unsorted.contains(sorted@[j]));
            let k = choose|k: int| 0 <= k < unsorted.len() && unsorted[k] == sorted@[j];
            assert(on_result.ensures((&unsorted[k].1,), ()));
        }
    }
    let ghost sorted_view = sorted@;
    assert(sorted_by(sorted_view, leq));
    let mut rest = sorted;
    let mut results: Vec<ActionResult> = Vec::new();
    let ghost mut ps: Seq<int> = Seq::empty();
    let n = rest.len();
    while rest.len() > 0
        invariant
            results@.len() + rest@.len() == n,
            n == sorted_view.len(),
            rest@ == sorted_view.subrange(results@.len() as int, n as int),
            ps.len() == results@.len(),
            forall|i: int|
                0 <= i < results@.len() ==> (#[trigger] results@[i]) == sorted_view[i].1 && ps[i]
                    == sorted_view[i].0 as int,
        decreases rest.len(),
    {
        let p = rest.remove(0);
        proof {
            ps = ps.push(p.0 as int);
        }
        results.push(p.1);
        assert(rest@ =~= sorted_view.subrange(results@.len() as int, n as int));
    }
    let report = OptimizeReport { results, cancelled };
    proof {
        assert(Seq::new(results@.len(), |i: int| (ps[i], outcome_view(results@[i].outcome))) =~= sorted_view.map_values(
            |p: (usize, ActionResult)| tag_view(p),
        ));
        assert forall|i: int, j: int| 0 <= i < j < ps.len() implies ps[i] <= ps[j] by {
            assert(leq(sorted_view[i], sorted_view[j]));
            assert(sorted_view[i].0 <= sorted_view[j].0);
            assert(report.results@[i] == sorted_view[i].1);
            assert(report.results@[j] == sorted_view[j].1);
        }
        assert forall|i: int| 0 <= i < ps.len() implies 0 <= #[trigger] ps[i] < actions_spec().len()
            && results@[i].id@ == actions_spec()[ps[i]].id && results@[i].label@ == actions_spec()[ps[i]].label by {
            assert(labelled(sorted_view[i]));
        }
        assert(reported_with(report.results@, collected(sv, ans, b), ps));
        assert forall|i: int| 0 <= i < report.results@.len() implies on_result.ensures((&#[trigger] report.results@[i],), ()) by {
            assert(report.results@[i] == sorted_view[i].1);
        }
        assert(ran_as(effects, selection(ids@), ans, b, report));
    }
    let r: Result<OptimizeReport, String> = Ok(report);
    assert(r matches Ok(rep) && rep == report);
    r
}

/// As `execute_reporting`, for a caller with nothing to report progress to.
pub fn execute<
    C: Fn(&[&str]) -> ActionOutcome + ?Sized,
    R: Fn(&str) -> Result<(), String> + ?Sized,
    B: Fn(&[PrivilegedStep]) -> BatchResult + ?Sized,
    G: Fn() -> Option<String> + ?Sized,
    T: Fn() -> Option<String> + ?Sized,
>(ids: Vec<String>, effects: &Effects<C, R, B, G, T>) -> (r: Result<OptimizeReport, String>)
    requires
        effects_callable(effects),
    ensures
        r is Ok <==> all_known(ids@),
        r matches Err(m) ==> resolved(ids@, Err::<Vec<usize>, String>(m)),
        r matches Ok(report) ==> exists|ans: Seq<Answer>, b: Option<BatchResult>|
            #[trigger] ran_as(effects, selection(ids@), ans, b, report),
{
    let quiet = |_r: &ActionResult| {};
    execute_reporting(ids, effects, &quiet)
}

} // verus!
