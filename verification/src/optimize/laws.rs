//! What holds of every Optimize run.

use super::execute::{
    batch_records, declined_message, collected, reported_with, contribution, ran_as, ran_records,
    records_upto, reported, selected_with_id, step_tags, steps_upto, Answer, Contribution, Effects,
};
use super::run::{
    lemma_first_with_id, outcome_view, table_index, ActionOutcome, ActionResult, OptimizeReport,
    OutcomeView,
};
use super::table::{actions_spec, lemma_action_ids_are_unique, requires_admin_view, SpecView};
use crate::escalate::{BatchResult, PrivilegedStep};
use crate::order::lemma_permutation_maps;
use crate::escalate::safe_token;
use crate::text::{decimal, is_digit};
use super::table::{PlanView, SNAPSHOT_TARGET_BYTES};
use super::dynamic::{dhcp_renew_of, letters_then_digits, thin_snapshots_commands};
use vstd::prelude::*;

verus! {

/// An action's own id leads back to it.
pub proof fn lemma_index_of_own_id(p: int)
    requires
        0 <= p < actions_spec().len(),
    ensures
        table_index(actions_spec()[p].id) == Some(p),
{
    lemma_action_ids_are_unique();
    lemma_first_with_id(actions_spec(), actions_spec()[p].id);
    match table_index(actions_spec()[p].id) {
        Some(i) => {
            if i < p {
                assert(actions_spec()[i].id != actions_spec()[p].id);
            } else if i > p {
                assert(actions_spec()[p].id != actions_spec()[p].id);
            }
        },
        None => {
            assert(actions_spec()[p].id != actions_spec()[p].id);
        },
    }
}

proof fn lemma_reported_witness(results: Seq<ActionResult>, coll: Seq<(int, OutcomeView)>) -> (ps: Seq<int>)
    requires
        reported(results, coll),
    ensures
        reported_with(results, coll, ps),
{
    choose|ps: Seq<int>| reported_with(results, coll, ps)
}

/// Results come back in the table's order, whatever order the work
/// finished in: each names an action of the table, and their table
/// positions never decrease.
pub proof fn lemma_results_come_in_table_order(results: Seq<ActionResult>, coll: Seq<(int, OutcomeView)>)
    requires
        reported(results, coll),
    ensures
        forall|i: int| 0 <= i < results.len() ==> (#[trigger] table_index(results[i].id@)) is Some,
        forall|i: int, j: int|
            0 <= i < j < results.len() ==> table_index(results[i].id@)->0 <= table_index(
                results[j].id@,
            )->0,
{
    let ps = lemma_reported_witness(results, coll);
    assert forall|i: int| 0 <= i < results.len() implies (#[trigger] table_index(results[i].id@)) is Some by {
        lemma_index_of_own_id(ps[i]);
    }
    assert forall|i: int, j: int| 0 <= i < j < results.len() implies table_index(results[i].id@)->0
        <= table_index(results[j].id@)->0 by {
        lemma_index_of_own_id(ps[i]);
        lemma_index_of_own_id(ps[j]);
    }
}

/// A selection in which no action needs administrator access builds no
/// privileged step, so the batch is never run and no password is asked
/// for.
pub proof fn lemma_plain_selection_never_prompts<
    C: Fn(&[&str]) -> ActionOutcome + ?Sized,
    R: Fn(&str) -> Result<(), String> + ?Sized,
    B: Fn(&[PrivilegedStep]) -> BatchResult + ?Sized,
    G: Fn() -> Option<String> + ?Sized,
    T: Fn() -> Option<String> + ?Sized,
>(e: &Effects<C, R, B, G, T>, sel: Seq<int>, ans: Seq<Answer>, b: Option<BatchResult>, report: OptimizeReport)
    requires
        ran_as(e, sel, ans, b, report),
        forall|k: int| 0 <= k < sel.len() ==> !requires_admin_view(#[trigger] actions_spec()[sel[k]].plan),
    ensures
        b is None,
        !report.cancelled,
{
    lemma_no_steps_without_admin(sel, ans, sel.len());
}

proof fn lemma_no_steps_without_admin(sel: Seq<int>, ans: Seq<Answer>, k: nat)
    requires
        k <= sel.len(),
        forall|j: int| 0 <= j < sel.len() ==> !requires_admin_view(#[trigger] actions_spec()[sel[j]].plan),
    ensures
        steps_upto(sel, ans, k).len() == 0,
    decreases k,
{
    if k > 0 {
        lemma_no_steps_without_admin(sel, ans, (k - 1) as nat);
        assert(!requires_admin_view(actions_spec()[sel[k - 1]].plan));
    }
}

/// A guard that refuses keeps its action out of the batch: the action is
/// reported skipped, with the guard's reason.
pub proof fn lemma_refused_guard_keeps_the_action_out_of_the_batch(s: SpecView, a: Answer)
    requires
        s.guard is Some,
        a.guard is Some,
    ensures
        contribution(s, a) == Contribution::Record(OutcomeView::Skipped(a.guard->0)),
{
}

// ---------------------------------------------------------------------------
// One result per selected action
// ---------------------------------------------------------------------------

pub open spec fn record_tags(r: Seq<(int, OutcomeView)>) -> Seq<int> {
    r.map_values(|p: (int, OutcomeView)| p.0)
}

proof fn lemma_tags_partition_selection(sel: Seq<int>, ans: Seq<Answer>, k: nat)
    requires
        k <= sel.len(),
    ensures
        record_tags(records_upto(sel, ans, k)).to_multiset().add(
            step_tags(steps_upto(sel, ans, k)).to_multiset(),
        ) == sel.take(k as int).to_multiset(),
    decreases k,
{
    broadcast use vstd::seq_lib::group_to_multiset_ensures;
    if k == 0 {
        assert(record_tags(records_upto(sel, ans, 0)) =~= Seq::<int>::empty());
        assert(step_tags(steps_upto(sel, ans, 0)) =~= Seq::<int>::empty());
        assert(sel.take(0) =~= Seq::<int>::empty());
        assert(Seq::<int>::empty().to_multiset() =~= vstd::multiset::Multiset::empty());
    } else {
        lemma_tags_partition_selection(sel, ans, (k - 1) as nat);
        let t = sel[k - 1];
        assert(sel.take(k as int) =~= sel.take(k - 1).push(t));
        let rp = records_upto(sel, ans, (k - 1) as nat);
        let sp = steps_upto(sel, ans, (k - 1) as nat);
        match contribution(actions_spec()[t], ans[k - 1]) {
            Contribution::Record(o) => {
                assert(record_tags(rp.push((t, o))) =~= record_tags(rp).push(t));
            },
            Contribution::Step(c) => {
                assert(step_tags(sp.push((t, c))) =~= step_tags(sp).push(t));
            },
        }
        assert(record_tags(records_upto(sel, ans, k)).to_multiset().add(
            step_tags(steps_upto(sel, ans, k)).to_multiset(),
        ) =~= sel.take(k as int).to_multiset());
    }
}

proof fn lemma_selected_with_own_id(sel: Seq<int>, t: int)
    requires
        sel.contains(t),
        forall|k: int| 0 <= k < sel.len() ==> 0 <= #[trigger] sel[k] < actions_spec().len(),
    ensures
        selected_with_id(sel, actions_spec()[t].id) == Some(t),
    decreases sel.len(),
{
    lemma_action_ids_are_unique();
    if sel[0] == t {
    } else {
        if actions_spec()[sel[0]].id == actions_spec()[t].id {
            let k = choose|k: int| 0 <= k < sel.len() && sel[k] == t;
            assert(0 <= t < actions_spec().len());
            if sel[0] < t {
                assert(actions_spec()[sel[0]].id != actions_spec()[t].id);
            } else {
                assert(actions_spec()[t].id != actions_spec()[sel[0]].id);
            }
        }
        let k = choose|k: int| 0 <= k < sel.len() && sel[k] == t;
        assert(sel.drop_first()[k - 1] == t);
        lemma_selected_with_own_id(sel.drop_first(), t);
    }
}

/// The batch answered each step it was given, in order, under the step's
/// own id, as the escalated batch does whenever it runs.
pub open spec fn answers_each_step(steps: Seq<(int, Seq<Seq<Seq<char>>>)>, b: BatchResult) -> bool {
    b matches BatchResult::Ran(rs) ==> rs@.len() == steps.len() && forall|i: int|
        0 <= i < steps.len() ==> (#[trigger] rs@[i]).id@ == actions_spec()[steps[i].0].id
}

proof fn lemma_ran_tags(sel: Seq<int>, steps: Seq<(int, Seq<Seq<Seq<char>>>)>, b: BatchResult, i: int)
    requires
        b is Ran,
        answers_each_step(steps, b),
        0 <= i <= steps.len(),
        forall|k: int| 0 <= k < sel.len() ==> 0 <= #[trigger] sel[k] < actions_spec().len(),
        forall|j: int| 0 <= j < steps.len() ==> sel.contains(#[trigger] steps[j].0),
    ensures
        record_tags(ran_records(sel, b->Ran_0@.take(i))) == step_tags(steps).take(i),
    decreases i,
{
    let rs = b->Ran_0@;
    if i == 0 {
        assert(record_tags(ran_records(sel, rs.take(0))) =~= step_tags(steps).take(0));
    } else {
        lemma_ran_tags(sel, steps, b, i - 1);
        assert(rs.take(i).drop_last() =~= rs.take(i - 1));
        assert(rs.take(i).last() == rs[i - 1]);
        assert(sel.contains(steps[i - 1].0));
        lemma_selected_with_own_id(sel, steps[i - 1].0);
        let prev = ran_records(sel, rs.take(i - 1));
        let o = super::execute::step_outcome(rs[i - 1].outcome);
        assert(record_tags(prev.push((steps[i - 1].0, o))) =~= record_tags(prev).push(steps[i - 1].0));
        assert(step_tags(steps).take(i) =~= step_tags(steps).take(i - 1).push(steps[i - 1].0));
    }
}

/// Every selected action gets exactly one result, whenever the batch, if
/// it ran, answered each of its steps: the ids the results carry are the
/// ids selected, as many times as each was selected.
pub proof fn lemma_every_selected_action_gets_one_result<
    C: Fn(&[&str]) -> ActionOutcome + ?Sized,
    R: Fn(&str) -> Result<(), String> + ?Sized,
    B: Fn(&[PrivilegedStep]) -> BatchResult + ?Sized,
    G: Fn() -> Option<String> + ?Sized,
    T: Fn() -> Option<String> + ?Sized,
>(e: &Effects<C, R, B, G, T>, sel: Seq<int>, ans: Seq<Answer>, b: Option<BatchResult>, report: OptimizeReport)
    requires
        ran_as(e, sel, ans, b, report),
        forall|k: int| 0 <= k < sel.len() ==> 0 <= #[trigger] sel[k] < actions_spec().len(),
        b matches Some(br) ==> answers_each_step(steps_upto(sel, ans, sel.len()), br),
    ensures
        report.results@.len() == sel.len(),
        report.results@.map_values(|r: ActionResult| table_index(r.id@)->0).to_multiset()
            == sel.to_multiset(),
{
    broadcast use vstd::seq_lib::group_to_multiset_ensures;
    let results = report.results@;
    let steps = steps_upto(sel, ans, sel.len());
    let recs = records_upto(sel, ans, sel.len());
    let coll = collected(sel, ans, b);
    lemma_tags_partition_selection(sel, ans, sel.len());
    assert(sel.take(sel.len() as int) =~= sel);
    // The batch contributes one result per step, under the step's tag.
    let batch_part = match b {
        Some(br) => batch_records(sel, step_tags(steps), br),
        None => Seq::empty(),
    };
    assert(record_tags(batch_part).to_multiset() == step_tags(steps).to_multiset()) by {
        match b {
            Some(br) => {
                match br {
                    BatchResult::Ran(rs) => {
                        assert forall|j: int| 0 <= j < steps.len() implies sel.contains(#[trigger] steps[j].0) by {
                            let x = steps[j].0;
                            assert(step_tags(steps)[j] == x);
                            assert(step_tags(steps).contains(x));
                            assert(step_tags(steps).to_multiset().count(x) > 0);
                            assert(sel.to_multiset().count(x) > 0);
                        }
                        lemma_ran_tags(sel, steps, br, steps.len() as int);
                        assert(rs@.take(steps.len() as int) =~= rs@);
                        assert(step_tags(steps).take(steps.len() as int) =~= step_tags(steps));
                    },
                    BatchResult::Cancelled => {
                        assert(record_tags(batch_part) =~= step_tags(steps));
                    },
                    BatchResult::Failed(m) => {
                        assert(record_tags(batch_part) =~= step_tags(steps));
                    },
                }
            },
            None => {
                assert(steps.len() == 0);
                assert(step_tags(steps) =~= Seq::<int>::empty());
                assert(record_tags(batch_part) =~= Seq::<int>::empty());
            },
        }
    }
    assert(record_tags(coll) =~= record_tags(recs) + record_tags(batch_part));
    vstd::seq_lib::lemma_multiset_commutative(record_tags(recs), record_tags(batch_part));
    assert(record_tags(coll).to_multiset() == sel.to_multiset());
    // The report holds the collected results, rearranged.
    let ps = lemma_reported_witness(results, coll);
    let shown = Seq::new(results.len(), |i: int| (ps[i], outcome_view(results[i].outcome)));
    lemma_permutation_maps(shown, coll, |p: (int, OutcomeView)| p.0);
    assert(shown.map_values(|p: (int, OutcomeView)| p.0) =~= ps);
    assert forall|i: int| 0 <= i < results.len() implies table_index(results[i].id@) == Some(ps[i]) by {
        lemma_index_of_own_id(ps[i]);
    }
    assert(results.map_values(|r: ActionResult| table_index(r.id@)->0) =~= ps);
    assert(ps.to_multiset() == sel.to_multiset());
    vstd::seq_lib::to_multiset_len(ps);
    vstd::seq_lib::to_multiset_len(sel);
}

// ---------------------------------------------------------------------------
// The table and the escalation guard agree
// ---------------------------------------------------------------------------

pub open spec fn commands_pass_the_guard(cmds: Seq<Seq<Seq<char>>>) -> bool {
    forall|j: int|
        0 <= j < cmds.len() ==> (#[trigger] cmds[j]).len() > 0 && forall|k: int|
            0 <= k < cmds[j].len() ==> safe_token(#[trigger] cmds[j][k])
}

pub open spec fn static_commands_pass(p: PlanView) -> bool {
    match p {
        PlanView::Privileged(cmds) => commands_pass_the_guard(cmds),
        _ => true,
    }
}

/// Every privileged command in the table is non-empty and made only of
/// tokens the escalation guard admits, so no listed action is refused at run
/// time in front of a user.
pub proof fn lemma_static_privileged_tokens_pass_the_guard()
    ensures
        forall|i: int| 0 <= i < actions_spec().len() ==> static_commands_pass(#[trigger] actions_spec()[i].plan),
{
    reveal_strlit("/System/Library/Frameworks/CoreServices.framework/Versions/A/Frameworks/LaunchServices.framework/Versions/A/Support/lsregister");
    reveal_strlit("-kill");
    reveal_strlit("-r");
    reveal_strlit("-domain");
    reveal_strlit("local");
    reveal_strlit("system");
    reveal_strlit("user");
    reveal_strlit("mdutil");
    reveal_strlit("-E");
    reveal_strlit("/");
    reveal_strlit("dscacheutil");
    reveal_strlit("-flushcache");
    reveal_strlit("killall");
    reveal_strlit("-HUP");
    reveal_strlit("mDNSResponder");
    reveal_strlit("pkill");
    reveal_strlit("bluetoothd");
    let t = actions_spec();
    assert(commands_pass_the_guard(t[3].plan->Privileged_0));
    assert(commands_pass_the_guard(t[4].plan->Privileged_0));
    assert(commands_pass_the_guard(t[8].plan->Privileged_0));
    assert(commands_pass_the_guard(t[10].plan->Privileged_0));
}

proof fn lemma_decimal_is_digits(n: nat)
    ensures
        forall|i: int| 0 <= i < decimal(n).len() ==> is_digit(#[trigger] decimal(n)[i]),
        decimal(n).len() >= 1,
    decreases n,
{
    if n >= 10 {
        lemma_decimal_is_digits(n / 10);
    }
}

/// The runtime values in the two built commands pass the escalation guard:
/// the snapshot target is nothing but digits, and an interface name of the
/// accepted shape is letters then digits. (A name longer than the guard's
/// 512-character limit is refused by the batch.)
pub proof fn lemma_dynamic_tokens_pass_the_guard(route: Option<Seq<char>>)
    ensures
        commands_pass_the_guard(thin_snapshots_commands()),
        dhcp_renew_of(route) matches Ok(cmds) ==> (cmds[0][2].len() <= 512 ==> commands_pass_the_guard(cmds)),
{
    reveal_strlit("tmutil");
    reveal_strlit("thinlocalsnapshots");
    reveal_strlit("/");
    reveal_strlit("4");
    reveal_strlit("ipconfig");
    reveal_strlit("set");
    reveal_strlit("DHCP");
    let target = decimal(SNAPSHOT_TARGET_BYTES as nat);
    lemma_decimal_is_digits(SNAPSHOT_TARGET_BYTES as nat);
    assert(target.len() <= 512) by {
        reveal_with_fuel(decimal, 12);
    }
    assert(safe_token(target));
    assert(commands_pass_the_guard(thin_snapshots_commands()));
    if let Ok(cmds) = dhcp_renew_of(route) {
        let n = cmds[0][2];
        if n.len() <= 512 {
            let p = choose|p: int| letters_then_digits(n, p);
            assert(safe_token(n));
            assert(commands_pass_the_guard(cmds));
        }
    }
}

/// A declined password prompt is a decision, not a failure: the run is
/// reported as cancelled, and every action whose step was in the batch is
/// reported skipped with the same reason.
pub proof fn lemma_declined_prompt_skips_every_privileged_action<
    C: Fn(&[&str]) -> ActionOutcome + ?Sized,
    R: Fn(&str) -> Result<(), String> + ?Sized,
    B: Fn(&[PrivilegedStep]) -> BatchResult + ?Sized,
    G: Fn() -> Option<String> + ?Sized,
    T: Fn() -> Option<String> + ?Sized,
>(e: &Effects<C, R, B, G, T>, sel: Seq<int>, ans: Seq<Answer>, report: OptimizeReport)
    requires
        ran_as(e, sel, ans, Some(BatchResult::Cancelled), report),
    ensures
        report.cancelled,
        forall|i: int|
            0 <= i < step_tags(steps_upto(sel, ans, sel.len())).len() ==> collected(
                sel,
                ans,
                Some(BatchResult::Cancelled),
            ).contains((#[trigger] step_tags(steps_upto(sel, ans, sel.len()))[i], OutcomeView::Skipped(declined_message()))),
{
    let tags = step_tags(steps_upto(sel, ans, sel.len()));
    let recs = records_upto(sel, ans, sel.len());
    let all = collected(sel, ans, Some(BatchResult::Cancelled));
    assert forall|i: int| 0 <= i < tags.len() implies all.contains((#[trigger] tags[i], OutcomeView::Skipped(declined_message()))) by {
        assert(all[recs.len() + i] == (tags[i], OutcomeView::Skipped(declined_message())));
    }
}

/// A batch that could not run at all fails every action whose step was in
/// it, each with the batch's reason.
pub proof fn lemma_a_batch_that_could_not_run_fails_each_step<
    C: Fn(&[&str]) -> ActionOutcome + ?Sized,
    R: Fn(&str) -> Result<(), String> + ?Sized,
    B: Fn(&[PrivilegedStep]) -> BatchResult + ?Sized,
    G: Fn() -> Option<String> + ?Sized,
    T: Fn() -> Option<String> + ?Sized,
>(e: &Effects<C, R, B, G, T>, sel: Seq<int>, ans: Seq<Answer>, why: String, report: OptimizeReport)
    requires
        ran_as(e, sel, ans, Some(BatchResult::Failed(why)), report),
    ensures
        !report.cancelled,
        forall|i: int|
            0 <= i < step_tags(steps_upto(sel, ans, sel.len())).len() ==> collected(
                sel,
                ans,
                Some(BatchResult::Failed(why)),
            ).contains((#[trigger] step_tags(steps_upto(sel, ans, sel.len()))[i], OutcomeView::Failed(why@))),
{
    let tags = step_tags(steps_upto(sel, ans, sel.len()));
    let recs = records_upto(sel, ans, sel.len());
    let all = collected(sel, ans, Some(BatchResult::Failed(why)));
    assert forall|i: int| 0 <= i < tags.len() implies all.contains((#[trigger] tags[i], OutcomeView::Failed(why@))) by {
        assert(all[recs.len() + i] == (tags[i], OutcomeView::Failed(why@)));
    }
}

} // verus!
