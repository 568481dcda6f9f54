use spiral::escalate::{
    attribute, build_script, run, token_is_safe, user_cancelled, BatchResult, Outcome,
    PrivilegedStep, ScriptRun, MARKER,
};

fn step(id: &str, commands: &[&[&str]]) -> PrivilegedStep {
    PrivilegedStep {
        id: id.to_string(),
        commands: commands
            .iter()
            .map(|c| c.iter().map(|t| t.to_string()).collect())
            .collect(),
    }
}

#[test]
fn a_token_that_could_escape_the_quoting_is_refused() {
    assert!(!token_is_safe("'"));
    assert!(!token_is_safe("';rm -rf /;'"));
    assert!(!token_is_safe("foo'bar"));
}

#[test]
fn a_token_that_could_escape_the_applescript_literal_is_refused() {
    assert!(!token_is_safe("\""));
    assert!(!token_is_safe("\\"));
    assert!(!token_is_safe("foo\"; do shell script \"evil"));
}

#[test]
fn shell_metacharacters_are_refused() {
    for token in [
        "$(id)", "`id`", "a;b", "a&b", "a|b", "a>b", "a<b", "a b", "a\nb", "a\0b",
    ] {
        assert!(!token_is_safe(token), "{token} should be refused");
    }
}

#[test]
fn non_ascii_is_refused() {
    assert!(!token_is_safe("\u{2019}"));
    assert!(!token_is_safe("mdutil\u{00A0}-E"));
}

#[test]
fn an_empty_or_oversized_token_is_refused() {
    assert!(!token_is_safe(""));
    assert!(!token_is_safe(&"a".repeat(513)));
}

#[test]
fn a_token_of_the_largest_admitted_length_is_admitted() {
    assert!(token_is_safe(&"a".repeat(512)));
}

#[test]
fn the_tokens_the_real_actions_use_are_all_admitted() {
    for token in [
        "/System/Library/Frameworks/CoreServices.framework/Versions/A/Frameworks/LaunchServices.framework/Versions/A/Support/lsregister",
        "-kill", "-r", "-domain", "local", "system", "user",
        "mdutil", "-E", "/", "tmutil", "thinlocalsnapshots", "21474836480", "4",
        "dscacheutil", "-flushcache", "killall", "-HUP", "mDNSResponder",
        "ipconfig", "set", "en0", "DHCP", "pkill", "bluetoothd",
    ] {
        assert!(token_is_safe(token), "{token} is used by a real action");
    }
}

#[test]
fn a_refused_token_stops_the_whole_batch() {
    let steps = [
        step("ok", &[&["mdutil", "-E", "/"]]),
        step("bad", &[&["rm", "-rf /"]]),
    ];
    assert!(build_script(&steps).is_err());
}

#[test]
fn the_finished_script_never_carries_a_quote_or_a_backslash() {
    let steps = [
        step(
            "dns",
            &[
                &["dscacheutil", "-flushcache"],
                &["killall", "-HUP", "mDNSResponder"],
            ],
        ),
        step("spotlight", &[&["mdutil", "-E", "/"]]),
    ];
    let script = build_script(&steps).unwrap();
    let body = script
        .strip_prefix("do shell script \"")
        .unwrap()
        .strip_suffix("\" with administrator privileges")
        .unwrap();
    assert!(!body.contains('"'), "an unescaped quote would end the AppleScript string");
    assert!(!body.contains('\\'));
}

#[test]
fn every_token_is_quoted_and_commands_within_a_step_are_chained() {
    let script = build_script(&[step(
        "dns",
        &[
            &["dscacheutil", "-flushcache"],
            &["killall", "-HUP", "mDNSResponder"],
        ],
    )])
    .unwrap();
    assert!(script.contains("'dscacheutil' '-flushcache' && 'killall' '-HUP' 'mDNSResponder'"));
}

#[test]
fn a_one_step_script_is_exactly_the_quoted_tokens_and_its_marker() {
    let script = build_script(&[step("a", &[&["mdutil", "-E", "/"]])]).unwrap();
    assert_eq!(
        script,
        format!("do shell script \"'mdutil' '-E' '/'; echo {MARKER}:0:$?; \" with administrator privileges")
    );
}

#[test]
fn steps_are_separated_so_one_failure_does_not_abort_the_rest() {
    let script = build_script(&[
        step("a", &[&["mdutil", "-E", "/"]]),
        step("b", &[&["pkill", "bluetoothd"]]),
    ])
    .unwrap();
    assert!(script.contains(&format!("echo {MARKER}:0:$?; 'pkill'")));
}

#[test]
fn each_step_emits_a_marker_carrying_its_index() {
    let script = build_script(&[
        step("a", &[&["mdutil", "-E", "/"]]),
        step("b", &[&["pkill", "bluetoothd"]]),
    ])
    .unwrap();
    assert!(script.contains(&format!("echo {MARKER}:0:$?")));
    assert!(script.contains(&format!("echo {MARKER}:1:$?")));
}

#[test]
fn an_empty_command_is_refused_rather_than_run_as_nothing() {
    assert!(build_script(&[step("empty", &[&[]])]).is_err());
}

#[test]
fn an_empty_batch_never_prompts() {
    let invoke = |_script: &str| -> Result<ScriptRun, String> {
        panic!("an empty batch must not reach the prompt")
    };
    assert!(matches!(run(&[], &invoke), BatchResult::Ran(results) if results.is_empty()));
}

#[test]
fn a_batch_that_cannot_be_built_never_prompts() {
    let invoke = |_script: &str| -> Result<ScriptRun, String> {
        panic!("an unsafe batch must not reach the prompt")
    };
    let steps = [step("bad", &[&["rm", "-rf /"]])];
    assert!(matches!(run(&steps, &invoke), BatchResult::Failed(_)));
}

#[test]
fn a_dismissed_prompt_is_a_cancellation() {
    let invoke = |_script: &str| -> Result<ScriptRun, String> {
        Ok(ScriptRun {
            success: false,
            stdout: String::new(),
            stderr: "execution error: User canceled. (-128)".to_string(),
        })
    };
    let steps = [step("a", &[&["mdutil", "-E", "/"]])];
    assert!(matches!(run(&steps, &invoke), BatchResult::Cancelled));
}

#[test]
fn a_batch_that_ran_is_attributed_step_by_step() {
    let invoke = |_script: &str| -> Result<ScriptRun, String> {
        Ok(ScriptRun {
            success: true,
            stdout: format!("{MARKER}:0:0\r{MARKER}:1:3\r"),
            stderr: String::new(),
        })
    };
    let steps = [step("a", &[&["mdutil"]]), step("b", &[&["pkill"]])];
    match run(&steps, &invoke) {
        BatchResult::Ran(results) => {
            assert_eq!(results.len(), 2);
            assert_eq!(results[0].outcome, Outcome::Succeeded);
            assert!(matches!(results[1].outcome, Outcome::Failed(_)));
        }
        other => panic!("expected Ran, got {other:?}"),
    }
}

#[test]
fn carriage_return_delimited_output_is_parsed() {
    let steps = [step("a", &[&["mdutil"]]), step("b", &[&["pkill"]])];
    let stdout = format!("{MARKER}:0:0\r{MARKER}:1:0\r");
    let results = attribute(&steps, &stdout);
    assert_eq!(results[0].outcome, Outcome::Succeeded);
    assert_eq!(results[1].outcome, Outcome::Succeeded);
}

#[test]
fn newline_delimited_output_is_parsed_too() {
    let steps = [step("a", &[&["mdutil"]])];
    let results = attribute(&steps, &format!("{MARKER}:0:0\n"));
    assert_eq!(results[0].outcome, Outcome::Succeeded);
}

#[test]
fn a_non_zero_status_is_reported_as_a_failure_for_that_step_only() {
    let steps = [step("a", &[&["mdutil"]]), step("b", &[&["pkill"]])];
    let results = attribute(&steps, &format!("{MARKER}:0:1\r{MARKER}:1:0\r"));
    assert!(matches!(results[0].outcome, Outcome::Failed(_)));
    assert_eq!(results[1].outcome, Outcome::Succeeded);
}

#[test]
fn a_step_with_no_marker_is_not_run_rather_than_assumed_successful() {
    let steps = [step("a", &[&["mdutil"]]), step("b", &[&["pkill"]])];
    let results = attribute(&steps, &format!("{MARKER}:0:0\r"));
    assert_eq!(results[0].outcome, Outcome::Succeeded);
    assert_eq!(results[1].outcome, Outcome::NotRun);
}

#[test]
fn unrelated_command_output_is_ignored() {
    let steps = [step("a", &[&["mdutil"]])];
    let stdout = format!("Indexing enabled.\rsome other chatter\r{MARKER}:0:0\r");
    assert_eq!(attribute(&steps, &stdout)[0].outcome, Outcome::Succeeded);
}

#[test]
fn a_malformed_marker_does_not_match_a_step() {
    let steps = [step("a", &[&["mdutil"]])];
    for stdout in [
        format!("{MARKER}:0"),
        format!("{MARKER}::0"),
        format!("{MARKER}:x:0"),
    ] {
        assert_eq!(attribute(&steps, &stdout)[0].outcome, Outcome::NotRun);
    }
}

#[test]
fn every_step_gets_exactly_one_result_in_order() {
    let steps = [
        step("a", &[&["mdutil"]]),
        step("b", &[&["pkill"]]),
        step("c", &[&["ipconfig"]]),
    ];
    let results = attribute(&steps, "");
    assert_eq!(results.len(), 3);
    assert_eq!(
        results.iter().map(|r| r.id.as_str()).collect::<Vec<_>>(),
        ["a", "b", "c"]
    );
}

#[test]
fn a_dismissed_prompt_is_recognised_by_its_error_number() {
    assert!(user_cancelled("execution error: User canceled. (-128)"));
    assert!(user_cancelled("execution error: L\u{2019}utilisateur a annul\u{e9}. (-128)"));
}

#[test]
fn an_ordinary_failure_is_not_mistaken_for_a_cancellation() {
    assert!(!user_cancelled("execution error: something else (-1743)"));
    assert!(!user_cancelled(""));
}
