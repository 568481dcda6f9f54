use spiral::backups::{backup_from, describe_device, order_backups, reply_for, root};
use spiral::catalog::Disposition;
use spiral::remove::types::Outcome;

const INFO: &str = r#"<?xml version="1.0" encoding="UTF-8"?>
<plist version="1.0"><dict>
<key>Device Name</key><string>Cohen's iPhone</string>
<key>Product Name</key><string>iPhone 17 Pro Max</string>
<key>Product Version</key><string>27.0</string>
<key>Last Backup Date</key><string>2026-08-01T09:14:00Z</string>
</dict></plist>"#;

#[test]
fn a_partial_info_plist_yields_whichever_halves_are_there() {
    assert_eq!(
        describe_device("<key>Product Name</key><string>iPad Pro</string>").as_deref(),
        Some("iPad Pro")
    );
    assert_eq!(
        describe_device("<key>Product Version</key><string>26.4</string>").as_deref(),
        Some("iOS 26.4")
    );
    assert_eq!(describe_device(""), None);
}

#[test]
fn a_backup_is_listed_with_its_device_name_model_and_date() {
    let b = backup_from("00008120-001A".into(), "/h/B/00008120-001A".into(), INFO, 1024);
    assert_eq!(b.device_name, "Cohen's iPhone");
    assert_eq!(b.device_model.as_deref(), Some("iPhone 17 Pro Max, iOS 27.0"));
    assert_eq!(b.last_backup.as_deref(), Some("2026-08-01T09:14:00Z"));
    assert_eq!(b.id, "00008120-001A");
    assert_eq!(b.bytes, 1024);
}

#[test]
fn a_backup_with_no_info_plist_is_still_listed_under_its_udid() {
    let b = backup_from("00008120-DEAD".into(), "/h/B/00008120-DEAD".into(), "", 512);
    assert_eq!(b.device_name, "00008120-DEAD");
    assert_eq!(b.device_model, None);
    assert_eq!(b.last_backup, None);
}

#[test]
fn backups_are_listed_largest_first_and_in_a_stable_order() {
    let found = vec![
        backup_from("bbb".into(), "/b".into(), "", 100),
        backup_from("aaa".into(), "/a".into(), "", 100),
        backup_from("ccc".into(), "/c".into(), "", 5000),
    ];
    let ids: Vec<String> = order_backups(found.clone()).into_iter().map(|b| b.id).collect();
    assert_eq!(ids, ["ccc", "aaa", "bbb"]);
    let again: Vec<String> = order_backups(found).into_iter().map(|b| b.id).collect();
    assert_eq!(ids, again);
}

#[test]
fn the_backup_folder_is_under_the_home() {
    assert_eq!(root("/Users/x"), "/Users/x/Library/Application Support/MobileSync/Backup");
}

#[test]
fn the_reply_follows_the_removal_report() {
    assert_eq!(reply_for(Some(&Outcome::Removed(Disposition::Trash))), Ok(()));
    assert!(reply_for(Some(&Outcome::Excluded("/k".into()))).unwrap_err().contains("/k"));
    assert_eq!(reply_for(Some(&Outcome::Denied("no".into()))), Err("no".to_string()));
    assert_eq!(reply_for(None), Err("Nothing happened. Try again.".to_string()));
}
