use spiral::lipo::{
    archs_from, candidate_for, executable_name_from, order_candidates, refusal, risk_from_codesign,
    savings_from, strip_report, strip_target, warning_for, AppFacts, SignatureRisk,
};

const HARDENED: &str = "Identifier=at.studio.AsideBrowser\nCodeDirectory v=20500 size=482 flags=0x12a00(kill,restrict,library-validation,runtime) hashes=4+7\nAuthority=Developer ID Application: At Inc.";
const PLAIN_SIGNED: &str = "Identifier=com.example.app\nCodeDirectory v=20400 size=100 flags=0x0(none) hashes=4+3\nAuthority=Developer ID Application: Example";
const ADHOC: &str = "Identifier=com.example.app\nCodeDirectory v=20400 size=100 flags=0x2(adhoc) hashes=4+3\nSignature=adhoc";

/// This Mac's architecture, as the tests assume it.
const NATIVE: &str = "arm64";

fn facts(bundle_id: &str, name: &str, archs: Option<&str>, codesign: Option<&str>, running: bool) -> AppFacts {
    AppFacts {
        bundle_id: bundle_id.to_string(),
        name: name.to_string(),
        app_path: format!("/Applications/{name}.app"),
        binary_path: format!("/Applications/{name}.app/Contents/MacOS/{name}"),
        bytes: 2048,
        managed: false,
        running,
        archs: archs.map(|a| a.to_string()),
        codesign: codesign.map(|c| c.to_string()),
        detailed: None,
    }
}

#[test]
fn a_hardened_runtime_app_is_the_highest_risk() {
    assert_eq!(risk_from_codesign(HARDENED), SignatureRisk::Hardened);
}

#[test]
fn any_one_fatal_flag_is_enough() {
    for flags in ["flags=0x10000(runtime)", "flags=0x800(kill)", "flags=0x2000(library-validation)"] {
        let out = format!("Identifier=x\nCodeDirectory v=1 {flags} hashes=1+1");
        assert_eq!(risk_from_codesign(&out), SignatureRisk::Hardened, "{flags}");
    }
}

#[test]
fn a_plainly_signed_app_is_the_middle_risk() {
    assert_eq!(risk_from_codesign(PLAIN_SIGNED), SignatureRisk::Signed);
}

#[test]
fn an_adhoc_or_unsigned_app_has_no_signature_to_break() {
    assert_eq!(risk_from_codesign(ADHOC), SignatureRisk::Unsigned);
    assert_eq!(
        risk_from_codesign("test-requirement: code object is not signed at all"),
        SignatureRisk::Unsigned
    );
}

#[test]
fn unreadable_codesign_output_is_unknown_never_unsigned() {
    assert_eq!(risk_from_codesign(""), SignatureRisk::Unknown);
    assert_eq!(risk_from_codesign("garbage"), SignatureRisk::Unknown);
}

#[test]
fn the_warning_is_specific_to_the_risk() {
    assert!(warning_for(SignatureRisk::Hardened).contains("very likely refuse"));
    assert!(warning_for(SignatureRisk::Unsigned).contains("no signature to break"));
    assert_ne!(warning_for(SignatureRisk::Hardened), warning_for(SignatureRisk::Signed));
    assert_ne!(warning_for(SignatureRisk::Signed), warning_for(SignatureRisk::Unsigned));
    for risk in [SignatureRisk::Hardened, SignatureRisk::Signed, SignatureRisk::Unknown] {
        assert!(
            warning_for(risk).contains("open it") || warning_for(risk).contains("opening"),
            "every risky case must say the app may not open"
        );
    }
}

#[test]
fn architectures_are_read_from_lipo_archs() {
    assert_eq!(archs_from("x86_64 arm64\n"), ["x86_64", "arm64"]);
    assert_eq!(archs_from("arm64\n"), ["arm64"]);
    assert!(archs_from("").is_empty());
}

#[test]
fn savings_count_only_the_slices_being_discarded() {
    let detailed = "Fat header in: /a/b\nfat_magic 0xcafebabe\nnfat_arch 2\narchitecture x86_64\n    cputype CPU_TYPE_X86_64\n    size 4000000\n    align 2^14\narchitecture arm64\n    cputype CPU_TYPE_ARM64\n    size 3000000\n    align 2^14\n";
    assert_eq!(savings_from(detailed, "arm64"), 4_000_000);
    assert_eq!(savings_from(detailed, "x86_64"), 3_000_000);
}

#[test]
fn unparseable_detailed_info_claims_no_savings_rather_than_guessing() {
    assert_eq!(savings_from("", "arm64"), 0);
    assert_eq!(savings_from("architecture arm64\n size notanumber\n", "x86_64"), 0);
}

#[test]
fn the_executable_comes_from_cfbundleexecutable_not_the_bundle_name() {
    let plist = r#"<plist version="1.0"><dict>
<key>CFBundleIdentifier</key><string>at.studio.Aside</string>
<key>CFBundleName</key><string>Aside</string>
<key>CFBundleExecutable</key><string>AsideBrowser</string>
</dict></plist>"#;
    assert_eq!(executable_name_from(plist).as_deref(), Some("AsideBrowser"));
}

#[test]
fn an_executable_name_that_escapes_the_bundle_is_refused() {
    let plist = r#"<plist><dict><key>CFBundleExecutable</key><string>../../../../bin/sh</string></dict></plist>"#;
    assert_eq!(executable_name_from(plist), None);
}

#[test]
fn a_single_architecture_binary_is_not_a_candidate() {
    assert!(candidate_for(facts("com.example.thin", "Thin", Some(NATIVE), Some(HARDENED), false), NATIVE).is_none());
}

#[test]
fn a_fat_binary_without_this_macs_architecture_is_not_a_candidate() {
    assert!(candidate_for(facts("com.example.foreign", "Foreign", Some("ppc i386"), Some(HARDENED), false), NATIVE).is_none());
}

#[test]
fn an_apple_app_is_listed_but_blocked() {
    let pages = candidate_for(
        facts("com.apple.iWork.Pages", "Pages", Some("x86_64 arm64"), Some(HARDENED), false),
        NATIVE,
    )
    .unwrap();
    assert!(pages.blocked.is_some(), "Apple's own software is never modified");
}

#[test]
fn a_running_app_is_blocked_until_it_is_quit() {
    let busy = candidate_for(facts("com.example.busy", "Busy", Some("x86_64 arm64"), Some(HARDENED), true), NATIVE).unwrap();
    assert!(busy.blocked.as_deref().is_some_and(|r| r.contains("Quit it first")));
}

#[test]
fn every_candidate_carries_a_warning() {
    let fat = candidate_for(facts("com.example.fat", "Fat", Some("x86_64 arm64"), Some(HARDENED), false), NATIVE).unwrap();
    assert!(!fat.warning.is_empty(), "{} has no warning", fat.name);
    assert_eq!(fat.archs, ["x86_64", "arm64"]);
    assert_eq!(fat.bytes, 2048);
    assert_eq!(fat.blocked, None);
}

#[test]
fn an_app_whose_signature_cannot_be_read_is_warned_about_as_if_signed() {
    let found = candidate_for(facts("com.example.mystery", "Mystery", Some("x86_64 arm64"), None, false), NATIVE).unwrap();
    assert_eq!(found.signature, SignatureRisk::Unknown);
    assert!(found.warning.contains("may stop it opening"));
}

#[test]
fn the_refusals_come_in_order() {
    assert!(refusal("com.apple.Safari", true, true).unwrap().contains("Apple"));
    assert!(refusal("com.example.x", true, true).unwrap().contains("managed by something else"));
    assert!(refusal("com.example.x", false, true).unwrap().contains("Quit it first"));
    assert_eq!(refusal("com.example.x", false, false), None);
}

#[test]
fn candidates_are_ordered_by_savings_then_name() {
    let mut a = candidate_for(facts("a", "Alpha", Some("x86_64 arm64"), None, false), NATIVE).unwrap();
    let mut b = candidate_for(facts("b", "Beta", Some("x86_64 arm64"), None, false), NATIVE).unwrap();
    let c = candidate_for(facts("c", "Gamma", Some("x86_64 arm64"), None, false), NATIVE).unwrap();
    a.savings = 10;
    b.savings = 30;
    let ordered = order_candidates(vec![c, a, b]);
    let names: Vec<&str> = ordered.iter().map(|c| c.name.as_str()).collect();
    assert_eq!(names, ["Beta", "Alpha", "Gamma"]);
}

#[test]
fn a_blocked_app_is_refused_rather_than_stripped() {
    let pages = candidate_for(facts("com.apple.iWork.Pages", "Pages", Some("x86_64 arm64"), Some(HARDENED), false), NATIVE).unwrap();
    let err = strip_target(vec![pages], "com.apple.iWork.Pages").unwrap_err();
    assert!(err.contains("Apple"));
}

#[test]
fn an_unknown_bundle_id_is_refused_and_says_the_list_changed() {
    let err = strip_target(vec![], "com.example.gone").unwrap_err();
    assert!(err.contains("Reopen Storage"));
}

#[test]
fn a_failed_strip_is_reported_against_the_app_and_frees_nothing() {
    let fat = candidate_for(facts("com.example.fat", "Fat", Some("x86_64 arm64"), Some(ADHOC), false), NATIVE).unwrap();
    let target = strip_target(vec![fat], "com.example.fat").unwrap();
    let report = strip_report(target, Err("lipo refused this app. Nothing was changed.".into()), 2048, Some(2048));
    assert_eq!(report.freed, 0);
    assert!(report.failed.is_some());
}

#[test]
fn a_successful_strip_frees_the_difference() {
    let fat = candidate_for(facts("com.example.fat", "Fat", Some("x86_64 arm64"), Some(ADHOC), false), NATIVE).unwrap();
    let report = strip_report(fat.clone(), Ok(()), 5000, Some(3000));
    assert_eq!(report.freed, 2000);
    assert_eq!(report.failed, None);
    assert_eq!(report.bundle_id, "com.example.fat");
    let unreadable_after = strip_report(fat, Ok(()), 5000, None);
    assert_eq!(unreadable_after.freed, 0);
}

#[test]
fn a_refused_thin_says_what_lipo_said_and_that_nothing_changed() {
    assert_eq!(
        spiral::lipo::lipo_refusal("  fatal error: bad arch \n"),
        "lipo refused this app: fatal error: bad arch. Nothing was changed."
    );
}
