use spiral::catalog::{catalog, expand, find, Disposition};
use std::path::PathBuf;

#[test]
fn every_entry_is_permanent() {
    for entry in catalog() {
        assert_eq!(entry.disposition, Disposition::Permanent, "{}", entry.id);
    }
}

#[test]
fn entry_ids_are_unique() {
    let mut ids: Vec<&str> = catalog().iter().map(|e| e.id).collect();
    ids.sort_unstable();
    let before = ids.len();
    ids.dedup();
    assert_eq!(before, ids.len(), "duplicate catalog id");
}

#[test]
fn no_entry_reaches_into_user_content() {
    for entry in catalog() {
        for root in entry.roots {
            for banned in ["Documents", "Desktop", "Downloads", "Movies", "Music", "Pictures"] {
                assert!(!root.contains(banned), "{} reaches {}", entry.id, banned);
            }
        }
    }
}

#[test]
fn find_returns_a_known_entry() {
    assert!(find("user-caches").is_some());
    assert!(find("not-a-real-id").is_none());
}

#[test]
fn find_returns_the_entry_with_that_id() {
    let e = find("trash").unwrap();
    assert_eq!(e.id, "trash");
    assert_eq!(e.disposition, Disposition::Permanent);
}

#[test]
fn expand_resolves_the_home_prefix() {
    let home = PathBuf::from("/somewhere/else");
    assert_eq!(
        PathBuf::from(expand("~/Library/Caches", "/somewhere/else")),
        home.join("Library/Caches")
    );
}

#[test]
fn expand_takes_a_non_tilde_root_literally() {
    assert_eq!(
        PathBuf::from(expand("/Applications", "/somewhere/else")),
        PathBuf::from("/Applications")
    );
}

#[test]
fn browser_caches_and_trash_are_present() {
    for id in ["chrome-cache", "brave-cache", "edge-cache", "firefox-cache", "trash"] {
        assert!(find(id).is_some(), "{id} missing from the catalog");
    }
}

#[test]
fn browser_entries_never_reach_a_profile_directory() {
    for id in ["chrome-cache", "brave-cache", "edge-cache", "firefox-cache"] {
        for root in find(id).unwrap().roots {
            assert!(root.starts_with("~/Library/Caches/"), "{id}: {root}");
            assert!(!root.contains("Application Support"), "{id}: {root}");
        }
    }
}
