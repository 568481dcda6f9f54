use spiral::escalate::{token_is_safe, BatchResult, Outcome as StepOutcome, PrivilegedStep, StepResult};
use spiral::json::Json;
use spiral::optimize::dynamic::{default_interface, dhcp_renew_command, thin_snapshots_command};
use spiral::optimize::execute::{execute, execute_reporting, Effects};
use spiral::optimize::guard::{bluetooth_reset_refusal_from, built_in_keyboard_in, connected_input_device};
use spiral::optimize::run::{command_outcome, plan, resolve, ActionOutcome};
use spiral::optimize::table::{actions, requires_admin, Dynamic, Group, Plan, SNAPSHOT_TARGET_BYTES};
use std::cell::RefCell;

type Fx<'a> = Effects<
    'a,
    dyn Fn(&[&str]) -> ActionOutcome + 'a,
    dyn Fn(&str) -> Result<(), String> + 'a,
    dyn Fn(&[PrivilegedStep]) -> BatchResult + 'a,
    dyn Fn() -> Option<String> + 'a,
    dyn Fn() -> Option<String> + 'a,
>;

/// Effects that touch nothing: every command succeeds, the default route
/// goes out over `en0`.
fn stub<'a>(
    batch: &'a (dyn Fn(&[PrivilegedStep]) -> BatchResult + 'a),
    bluetooth: &'a (dyn Fn() -> Option<String> + 'a),
) -> Fx<'a> {
    Effects {
        run_command: &|_| ActionOutcome::Succeeded,
        remove_catalog: &|_| Ok(()),
        run_batch: batch,
        guard_override: bluetooth,
        read_route: &|| Some("  interface: en0\n".to_string()),
    }
}

fn all_succeed(steps: &[PrivilegedStep]) -> BatchResult {
    BatchResult::Ran(
        steps
            .iter()
            .map(|s| StepResult { id: s.id.clone(), outcome: StepOutcome::Succeeded })
            .collect(),
    )
}

fn never_called(_: &[PrivilegedStep]) -> BatchResult {
    panic!("the batch must not run when no privileged action was selected");
}

fn to_json(v: &serde_json::Value) -> Json {
    match v {
        serde_json::Value::Null => Json::Null,
        serde_json::Value::Bool(b) => Json::Bool(*b),
        serde_json::Value::Number(n) => Json::Number(n.as_u64()),
        serde_json::Value::String(s) => Json::Str(s.clone()),
        serde_json::Value::Array(a) => Json::Array(a.iter().map(to_json).collect()),
        serde_json::Value::Object(m) => {
            Json::Object(m.iter().map(|(k, v)| (k.clone(), to_json(v))).collect())
        }
    }
}

fn device_in(text: &str) -> Option<String> {
    let value: serde_json::Value = serde_json::from_str(text).ok()?;
    connected_input_device(&to_json(&value))
}

#[test]
fn the_milestone_ships_eleven_actions_in_three_groups() {
    let table = actions();
    assert_eq!(table.len(), 11);
    for group in [Group::CachesAndIndexes, Group::SystemAndStorage, Group::NetworkAndDevices] {
        assert!(table.iter().any(|s| s.group == group), "{group:?} has no actions");
    }
}

#[test]
fn the_three_cut_actions_are_absent() {
    for gone in ["periodic-scripts", "launchpad-reset", "mail-envelope-index"] {
        assert!(!actions().iter().any(|s| s.id == gone), "{gone} was cut");
    }
}

#[test]
fn action_ids_are_unique() {
    let table = actions();
    let mut ids: Vec<&str> = table.iter().map(|s| s.id).collect();
    ids.sort_unstable();
    let count = ids.len();
    ids.dedup();
    assert_eq!(ids.len(), count);
}

#[test]
fn every_opt_in_action_states_its_cost() {
    for spec in actions().iter().filter(|s| !s.default_selected) {
        assert!(spec.note.is_some(), "{} ships unchecked and must say why", spec.id);
    }
}

#[test]
fn every_static_privileged_token_passes_the_escalation_guard() {
    for spec in actions() {
        if let Plan::Privileged(commands) = &spec.plan {
            for command in commands {
                assert!(!command.is_empty(), "{} has an empty command", spec.id);
                for token in command {
                    assert!(token_is_safe(token), "{} uses {token}", spec.id);
                }
            }
        }
    }
}

#[test]
fn every_dynamic_privileged_token_passes_the_escalation_guard() {
    for spec in actions() {
        if let Plan::PrivilegedDynamic(which) = &spec.plan {
            let built = match which {
                Dynamic::ThinSnapshots => thin_snapshots_command(),
                Dynamic::DhcpRenew => dhcp_renew_command(Some("  interface: en0\n")),
            };
            if let Ok(commands) = built {
                for command in commands {
                    for token in &command {
                        assert!(token_is_safe(token), "{} built {token}", spec.id);
                    }
                }
            }
        }
    }
}

#[test]
fn the_icon_cache_action_deletes_through_remove_and_never_runs_a_command() {
    let table = actions();
    let icon = table.iter().find(|s| s.id == "icon-cache").expect("the action exists");
    assert!(matches!(icon.plan, Plan::Removal("icon-services-cache")));
}

#[test]
fn no_plain_or_privileged_action_invokes_a_deleting_command() {
    for spec in actions() {
        let commands: Vec<Vec<&str>> = match &spec.plan {
            Plan::Plain(c) | Plan::Privileged(c) => c.clone(),
            _ => continue,
        };
        for command in commands {
            let binary = command[0].rsplit('/').next().unwrap_or(command[0]);
            assert!(
                !matches!(binary, "rm" | "unlink" | "srm" | "shred" | "find" | "trash"),
                "{} shells out to {binary}, which deletes",
                spec.id
            );
        }
    }
}

#[test]
fn admin_is_required_by_exactly_the_privileged_actions() {
    let admin: Vec<&str> = plan(None).iter().filter(|a| a.requires_admin).map(|a| a.id).collect();
    assert_eq!(
        admin,
        ["launch-services", "spotlight-reindex", "thin-snapshots", "dns-flush", "dhcp-renew", "bluetooth-reset"]
    );
}

#[test]
fn a_plan_of_only_plain_actions_builds_no_privileged_steps() {
    let table = actions();
    let plain: Vec<_> = table.iter().filter(|s| matches!(s.plan, Plan::Plain(_))).collect();
    assert!(!plain.is_empty());
    assert!(plain.iter().all(|s| !requires_admin(&s.plan)));
}

#[test]
fn restarting_bluetooth_is_the_action_that_carries_a_guard() {
    let table = actions();
    let guarded: Vec<&str> = table.iter().filter(|s| s.guard.is_some()).map(|s| s.id).collect();
    assert_eq!(guarded, ["bluetooth-reset"]);
}

#[test]
fn renaming_an_action_cannot_detach_its_guard() {
    let table = actions();
    let bluetooth = table.iter().find(|s| s.guard.is_some()).unwrap();
    let blocked = plan(Some("blocked".into())).into_iter().find(|a| a.id == bluetooth.id).unwrap();
    assert_eq!(blocked.blocked.as_deref(), Some("blocked"));
    let free = plan(None).into_iter().find(|a| a.id == bluetooth.id).unwrap();
    assert_eq!(free.blocked, None);
    for other in plan(Some("blocked".into())).into_iter().filter(|a| a.id != bluetooth.id) {
        assert_eq!(other.blocked, None, "{} has no guard", other.id);
    }
}

#[test]
fn an_unknown_id_refuses_the_whole_call() {
    let err = resolve(&["font-caches".into(), "definitely-not-real".into()]).unwrap_err();
    assert!(err.contains("definitely-not-real"));
    assert!(err.contains("nothing was run"));
}

#[test]
fn an_empty_selection_resolves_to_nothing() {
    assert!(resolve(&[]).unwrap().is_empty());
}

const HEADPHONES: &str = r#"{"SPBluetoothDataType":[{"device_connected":[
    {"AirPods Max":{"device_minorType":"Headphones"}}]}]}"#;
const KEYBOARD: &str = r#"{"SPBluetoothDataType":[{"device_connected":[
    {"AirPods Max":{"device_minorType":"Headphones"}},
    {"Magic Keyboard":{"device_minorType":"Keyboard"}}]}]}"#;
const TRACKPAD: &str = r#"{"SPBluetoothDataType":[{"device_connected":[
    {"Magic Trackpad":{"device_minorType":"Trackpad"}}]}]}"#;

#[test]
fn a_connected_bluetooth_keyboard_blocks_the_reset() {
    assert_eq!(device_in(KEYBOARD).as_deref(), Some("keyboard"));
}

#[test]
fn a_connected_bluetooth_trackpad_blocks_the_reset() {
    assert_eq!(device_in(TRACKPAD).as_deref(), Some("trackpad"));
}

#[test]
fn headphones_alone_do_not_block_the_reset() {
    assert_eq!(device_in(HEADPHONES), None);
}

#[test]
fn unreadable_bluetooth_output_finds_no_device_and_the_caller_blocks() {
    assert_eq!(device_in("not json"), None);
    assert_eq!(device_in(""), None);
    assert!(bluetooth_reset_refusal_from(false, None, None).is_some());
}

#[test]
fn the_guard_refuses_on_a_connected_keyboard_and_allows_a_laptop_with_headphones() {
    let value: serde_json::Value = serde_json::from_str(KEYBOARD).unwrap();
    let keyboard = to_json(&value);
    assert!(bluetooth_reset_refusal_from(true, Some(&keyboard), Some("")).unwrap().contains("keyboard"));
    let value: serde_json::Value = serde_json::from_str(HEADPHONES).unwrap();
    let headphones = to_json(&value);
    let laptop = "      \"Product\" = \"Apple Internal Keyboard / Trackpad\"\n      \"Built-In\" = Yes";
    assert_eq!(bluetooth_reset_refusal_from(true, Some(&headphones), Some(laptop)), None);
    assert!(bluetooth_reset_refusal_from(true, Some(&headphones), Some("")).is_some());
}

#[test]
fn a_machine_with_no_built_in_keyboard_is_detected() {
    let desktop = "  \"Product\" = \"Magic Mouse\"\n  \"Product\" = \"Studio Display\"";
    assert!(!built_in_keyboard_in(desktop));
}

#[test]
fn a_laptop_keyboard_is_detected() {
    let laptop = "      \"Product\" = \"Apple Internal Keyboard / Trackpad\"\n      \"Built-In\" = Yes";
    assert!(built_in_keyboard_in(laptop));
}

#[test]
fn an_unreadable_ioreg_dump_reports_no_built_in_keyboard() {
    assert!(!built_in_keyboard_in(""));
    assert!(!built_in_keyboard_in("garbage"));
}

#[test]
fn the_snapshot_target_is_digits_only() {
    let commands = thin_snapshots_command().unwrap();
    assert_eq!(commands[0][3], SNAPSHOT_TARGET_BYTES.to_string());
    assert!(commands[0][3].chars().all(|c| c.is_ascii_digit()));
    assert_eq!(commands[0][4], "4", "urgency 4 is what makes the target reachable");
}

#[test]
fn the_default_interface_is_read_from_route_output() {
    let route = "   route to: default\ndestination: default\n  interface: en0\n";
    assert_eq!(default_interface(route).as_deref(), Some("en0"));
    assert_eq!(default_interface("  interface: utun4\n").as_deref(), Some("utun4"));
    assert_eq!(default_interface("  interface: bridge100\n").as_deref(), Some("bridge100"));
}

#[test]
fn an_interface_name_of_the_wrong_shape_is_refused() {
    for bad in [
        "  interface: ../../etc\n",
        "  interface: en0.5\n",
        "  interface: EN0\n",
        "  interface: 0en\n",
        "  interface: en\n",
        "  interface: \n",
    ] {
        assert_eq!(default_interface(bad), None, "{bad:?} should be refused");
    }
}

#[test]
fn route_output_with_no_interface_line_yields_nothing() {
    assert_eq!(default_interface("   route to: default\n"), None);
    assert_eq!(default_interface(""), None);
}

#[test]
fn the_dhcp_renew_names_the_default_interface() {
    let commands = dhcp_renew_command(Some("  interface: en0\n")).unwrap();
    assert_eq!(commands, vec![vec!["ipconfig".to_string(), "set".into(), "en0".into(), "DHCP".into()]]);
    assert!(dhcp_renew_command(None).is_err());
    assert!(dhcp_renew_command(Some("  interface: ../x\n")).is_err());
}

#[test]
fn every_action_reports_progress_exactly_once_as_it_finishes() {
    let seen: RefCell<Vec<&'static str>> = RefCell::new(Vec::new());
    let ids: Vec<String> = actions().iter().map(|s| s.id.to_string()).collect();
    let report = execute_reporting(ids, &stub(&all_succeed, &|| None), &|r: &spiral::optimize::run::ActionResult| {
        seen.borrow_mut().push(r.id)
    })
    .unwrap();
    let mut progressed = seen.into_inner();
    let count = progressed.len();
    progressed.sort_unstable();
    progressed.dedup();
    assert_eq!(progressed.len(), count, "an action reported twice");
    assert_eq!(count, report.results.len(), "every result was also reported live");
}

#[test]
fn a_skipped_action_reports_progress_too() {
    let seen: RefCell<Vec<&'static str>> = RefCell::new(Vec::new());
    execute_reporting(
        vec!["bluetooth-reset".into()],
        &stub(&never_called, &|| Some("blocked".into())),
        &|r: &spiral::optimize::run::ActionResult| seen.borrow_mut().push(r.id),
    )
    .unwrap();
    assert_eq!(seen.into_inner(), ["bluetooth-reset"]);
}

#[test]
fn a_declined_batch_still_reports_every_skipped_action() {
    let seen: RefCell<Vec<&'static str>> = RefCell::new(Vec::new());
    let report = execute_reporting(
        vec!["dns-flush".into(), "font-caches".into()],
        &stub(&|_| BatchResult::Cancelled, &|| None),
        &|r: &spiral::optimize::run::ActionResult| seen.borrow_mut().push(r.id),
    )
    .unwrap();
    assert!(report.cancelled);
    let mut heard = seen.into_inner();
    heard.sort_unstable();
    assert_eq!(heard, ["dns-flush", "font-caches"]);
}

#[test]
fn a_batch_that_could_not_run_still_reports_its_failures() {
    let seen: RefCell<Vec<(&'static str, ActionOutcome)>> = RefCell::new(Vec::new());
    execute_reporting(
        vec!["dns-flush".into()],
        &stub(&|_| BatchResult::Failed("Administrator access was refused.".into()), &|| None),
        &|r: &spiral::optimize::run::ActionResult| seen.borrow_mut().push((r.id, r.outcome.clone())),
    )
    .unwrap();
    assert_eq!(
        seen.into_inner(),
        [("dns-flush", ActionOutcome::Failed { reason: "Administrator access was refused.".into() })]
    );
}

#[test]
fn results_come_back_in_catalog_order_not_completion_order() {
    let report = execute(vec!["dns-flush".into(), "font-caches".into()], &stub(&all_succeed, &|| None)).unwrap();
    let ids: Vec<&str> = report.results.iter().map(|r| r.id).collect();
    assert_eq!(ids, ["font-caches", "dns-flush"]);
}

#[test]
fn a_selection_with_no_privileged_action_never_prompts() {
    let report = execute(
        vec!["font-caches".into(), "icon-cache".into(), "verify-volume".into()],
        &stub(&never_called, &|| None),
    )
    .unwrap();
    assert_eq!(report.results.len(), 3);
    assert!(report.results.iter().all(|r| r.outcome == ActionOutcome::Succeeded));
}

#[test]
fn a_declined_password_prompt_skips_every_privileged_action_and_is_not_a_failure() {
    let report = execute(
        vec!["font-caches".into(), "dns-flush".into(), "spotlight-reindex".into()],
        &stub(&|_| BatchResult::Cancelled, &|| None),
    )
    .unwrap();
    assert!(report.cancelled);
    let outcome = |id: &str| report.results.iter().find(|r| r.id == id).unwrap().outcome.clone();
    assert_eq!(outcome("font-caches"), ActionOutcome::Succeeded, "plain work already happened");
    assert!(matches!(outcome("dns-flush"), ActionOutcome::Skipped { .. }));
    assert!(matches!(outcome("spotlight-reindex"), ActionOutcome::Skipped { .. }));
}

#[test]
fn a_blocked_bluetooth_reset_is_skipped_and_the_rest_of_the_run_proceeds() {
    let report = execute(
        vec!["bluetooth-reset".into(), "dns-flush".into()],
        &stub(&all_succeed, &|| Some("Your keyboard connects over Bluetooth.".into())),
    )
    .unwrap();
    let bluetooth = report.results.iter().find(|r| r.id == "bluetooth-reset").unwrap();
    assert_eq!(
        bluetooth.outcome,
        ActionOutcome::Skipped { reason: "Your keyboard connects over Bluetooth.".into() }
    );
    let dns = report.results.iter().find(|r| r.id == "dns-flush").unwrap();
    assert_eq!(dns.outcome, ActionOutcome::Succeeded, "one refusal never aborts the batch");
}

#[test]
fn a_blocked_bluetooth_reset_never_reaches_the_privileged_batch() {
    execute(vec!["bluetooth-reset".into()], &stub(&never_called, &|| Some("blocked".into()))).unwrap();
}

#[test]
fn a_failing_step_is_reported_against_its_own_action_only() {
    let batch = |steps: &[PrivilegedStep]| {
        BatchResult::Ran(
            steps
                .iter()
                .map(|s| StepResult {
                    id: s.id.clone(),
                    outcome: if s.id == "dns-flush" {
                        StepOutcome::Failed("macOS reported error 1.".into())
                    } else {
                        StepOutcome::Succeeded
                    },
                })
                .collect(),
        )
    };
    let report = execute(vec!["dns-flush".into(), "spotlight-reindex".into()], &stub(&batch, &|| None)).unwrap();
    let dns = report.results.iter().find(|r| r.id == "dns-flush").unwrap();
    assert!(matches!(dns.outcome, ActionOutcome::Failed { .. }));
    let spotlight = report.results.iter().find(|r| r.id == "spotlight-reindex").unwrap();
    assert_eq!(spotlight.outcome, ActionOutcome::Succeeded);
}

#[test]
fn a_step_that_reported_nothing_is_not_run_rather_than_successful() {
    let batch = |steps: &[PrivilegedStep]| {
        BatchResult::Ran(
            steps.iter().map(|s| StepResult { id: s.id.clone(), outcome: StepOutcome::NotRun }).collect(),
        )
    };
    let report = execute(vec!["dns-flush".into()], &stub(&batch, &|| None)).unwrap();
    assert_eq!(report.results[0].outcome, ActionOutcome::NotRun);
}

#[test]
fn a_batch_that_could_not_run_fails_every_privileged_action_with_the_reason() {
    let report = execute(
        vec!["dns-flush".into(), "font-caches".into()],
        &stub(&|_| BatchResult::Failed("Administrator access was refused.".into()), &|| None),
    )
    .unwrap();
    let dns = report.results.iter().find(|r| r.id == "dns-flush").unwrap();
    assert_eq!(dns.outcome, ActionOutcome::Failed { reason: "Administrator access was refused.".into() });
    let fonts = report.results.iter().find(|r| r.id == "font-caches").unwrap();
    assert_eq!(fonts.outcome, ActionOutcome::Succeeded);
}

#[test]
fn the_removal_is_asked_for_the_catalog_id_the_action_names() {
    let asked: RefCell<Vec<String>> = RefCell::new(Vec::new());
    let remove = |id: &str| -> Result<(), String> {
        asked.borrow_mut().push(id.to_string());
        Ok(())
    };
    let effects: Fx = Effects {
        run_command: &|_| ActionOutcome::Succeeded,
        remove_catalog: &remove,
        run_batch: &never_called,
        guard_override: &|| None,
        read_route: &|| None,
    };
    execute(vec!["icon-cache".into()], &effects).unwrap();
    assert_eq!(asked.into_inner(), ["icon-services-cache"]);
    assert!(spiral::catalog::find("icon-services-cache").is_some(), "and it is a real entry");
}

#[test]
fn a_failing_removal_is_reported_against_its_own_action() {
    let effects: Fx = Effects {
        run_command: &|_| ActionOutcome::Succeeded,
        remove_catalog: &|_| Err("the exclusion list is unreadable".into()),
        run_batch: &never_called,
        guard_override: &|| None,
        read_route: &|| None,
    };
    let report = execute(vec!["icon-cache".into()], &effects).unwrap();
    assert_eq!(
        report.results[0].outcome,
        ActionOutcome::Failed { reason: "the exclusion list is unreadable".into() }
    );
}

#[test]
fn a_failing_plain_action_does_not_stop_the_others() {
    let effects: Fx = Effects {
        run_command: &|command: &[&str]| {
            if command[0] == "atsutil" {
                ActionOutcome::Failed { reason: "atsutil reported a problem.".into() }
            } else {
                ActionOutcome::Succeeded
            }
        },
        remove_catalog: &|_| Ok(()),
        run_batch: &never_called,
        guard_override: &|| None,
        read_route: &|| None,
    };
    let report = execute(vec!["font-caches".into(), "quicklook-thumbnails".into()], &effects).unwrap();
    assert!(matches!(report.results[0].outcome, ActionOutcome::Failed { .. }));
    assert_eq!(report.results[1].outcome, ActionOutcome::Succeeded);
}

#[test]
fn a_run_with_no_actions_reports_nothing_and_never_prompts() {
    let report = execute(Vec::new(), &stub(&never_called, &|| None)).unwrap();
    assert!(report.results.is_empty());
    assert!(!report.cancelled);
}

#[test]
fn every_selected_action_gets_exactly_one_result() {
    let ids: Vec<String> = actions().iter().map(|s| s.id.to_string()).collect();
    let report = execute(ids, &stub(&all_succeed, &|| None)).unwrap();
    assert_eq!(report.results.len(), actions().len());
    let mut seen: Vec<&str> = report.results.iter().map(|r| r.id).collect();
    seen.sort_unstable();
    seen.dedup();
    assert_eq!(seen.len(), actions().len(), "no action reported twice or not at all");
}

#[test]
fn a_command_that_fails_is_reported_in_its_own_words() {
    assert_eq!(command_outcome("atsutil", Ok((true, String::new()))), ActionOutcome::Succeeded);
    assert_eq!(
        command_outcome("atsutil", Ok((false, "  no database\n".to_string()))),
        ActionOutcome::Failed { reason: "atsutil reported: no database".to_string() }
    );
    assert_eq!(
        command_outcome("qlmanage", Ok((false, " \n".to_string()))),
        ActionOutcome::Failed { reason: "qlmanage reported a problem.".to_string() }
    );
    assert_eq!(
        command_outcome("/nonexistent/tool", Err("No such file or directory (os error 2)".to_string())),
        ActionOutcome::Failed { reason: "Could not run /nonexistent/tool: No such file or directory (os error 2).".to_string() }
    );
}
