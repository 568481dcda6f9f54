use spiral::receipts::{handoff_for, info_from, is_stale, package_ids, receipt_from, Receipt};
use std::collections::BTreeSet;

/// The files present on the machine the receipt is judged against.
fn machine(files: &[&str]) -> BTreeSet<String> {
    files.iter().map(|f| f.to_string()).collect()
}

#[test]
fn apples_own_receipts_are_never_listed() {
    let ids = package_ids("com.apple.pkg.XProtectPlistConfigData_10_15\ncom.example.tool\ncom.apple.pkg.Core\n");
    assert_eq!(ids, ["com.example.tool"]);
}

#[test]
fn blank_lines_are_not_packages() {
    assert!(package_ids("\n\n   \n").is_empty());
    assert!(package_ids("").is_empty());
}

#[test]
fn version_and_location_are_read_from_pkg_info() {
    let out = "package-id: com.example.tool\nversion: 1.4.2\nvolume: /\nlocation: /usr/local\ninstall-time: 1784162462\n";
    assert_eq!(info_from(out), (Some("1.4.2".into()), Some("/usr/local".into())));
}

#[test]
fn a_receipt_pkgutil_describes_oddly_is_still_listed() {
    assert_eq!(info_from(""), (None, None));
    assert_eq!(info_from("package-id: com.example.tool\n"), (None, None));
}

#[test]
fn a_receipt_whose_files_are_gone_is_stale() {
    let disk = machine(&["/opt/pkg"]);
    let present = |p: &str| disk.contains(p);
    assert!(is_stale("bin/gone\nshare/also-gone\n", "/opt/pkg", &present));
}

#[test]
fn a_receipt_with_one_surviving_file_is_not_stale() {
    let disk = machine(&["/opt/pkg", "/opt/pkg/bin", "/opt/pkg/bin/here"]);
    let present = |p: &str| disk.contains(p);
    assert!(!is_stale("bin/here\nbin/gone\n", "/opt/pkg", &present));
}

#[test]
fn a_receipt_listing_no_files_is_not_called_stale() {
    let disk = machine(&["/opt/pkg"]);
    let present = |p: &str| disk.contains(p);
    assert!(!is_stale("", "/opt/pkg", &present));
    assert!(!is_stale("   \n\n", "/opt/pkg", &present));
}

#[test]
fn the_handoff_names_the_command_and_never_runs_it() {
    assert_eq!(handoff_for("com.example.tool"), "sudo pkgutil --forget com.example.tool");
}

#[test]
fn this_module_offers_no_removal_at_all() {
    let receipt = Receipt {
        package_id: "com.example.tool".into(),
        version: None,
        location: None,
        stale: true,
        handoff: handoff_for("com.example.tool"),
    };
    assert!(receipt.handoff.starts_with("sudo pkgutil"));
}

#[test]
fn a_receipt_is_assembled_from_pkg_info() {
    let r = receipt_from("com.example.tool".into(), "version: 2.0\nlocation: /opt\n", false);
    assert_eq!(r.package_id, "com.example.tool");
    assert_eq!(r.version.as_deref(), Some("2.0"));
    assert_eq!(r.location.as_deref(), Some("/opt"));
    assert!(!r.stale);
    assert_eq!(r.handoff, "sudo pkgutil --forget com.example.tool");
}

#[test]
fn the_files_are_looked_for_under_the_install_location() {
    let disk = machine(&["/usr/local/bin/tool"]);
    let present = |p: &str| disk.contains(p);
    assert!(!is_stale("bin/tool\n", "/usr/local", &present));
    assert!(is_stale("bin/tool\n", "/opt", &present));
}
