use spiral::analyze::{analysis_root, child_entry, order_entries, tree_size, Entry, WalkStep};

fn entry(name: &str, bytes: u64) -> Entry {
    child_entry(name.to_string(), format!("/h/{name}"), false, bytes, &[])
}

#[test]
fn a_directorys_size_is_everything_beneath_it() {
    let walk = [WalkStep::Other, WalkStep::File(Some(10)), WalkStep::Other, WalkStep::File(Some(32))];
    let e = child_entry("d".into(), "/h/d".into(), true, 4096, &walk);
    assert_eq!(e.bytes, 42);
    assert!(!e.partial);
    assert!(e.is_dir);
}

#[test]
fn a_file_is_reported_at_its_own_size() {
    let e = child_entry("f".into(), "/h/f".into(), false, 7, &[WalkStep::File(Some(1000))]);
    assert_eq!(e.bytes, 7);
    assert!(!e.partial);
}

#[test]
fn an_unreadable_directory_says_so_rather_than_under_reporting_silently() {
    assert_eq!(tree_size(&[WalkStep::File(Some(5)), WalkStep::Unreadable]), (5, true));
    assert_eq!(tree_size(&[WalkStep::File(None), WalkStep::File(Some(5))]), (5, true));
    assert_eq!(tree_size(&[]), (0, false));
}

#[test]
fn a_tree_size_saturates_rather_than_wrapping() {
    assert_eq!(tree_size(&[WalkStep::File(Some(u64::MAX)), WalkStep::File(Some(1))]), (u64::MAX, false));
}

#[test]
fn entries_come_back_largest_first() {
    let sorted = order_entries(vec![entry("small", 1), entry("big", 100), entry("mid", 50)]);
    let names: Vec<&str> = sorted.iter().map(|e| e.name.as_str()).collect();
    assert_eq!(names, ["big", "mid", "small"]);
}

#[test]
fn equal_sizes_keep_a_stable_order_between_calls() {
    let sorted = order_entries(vec![entry("b", 5), entry("c", 5), entry("a", 5)]);
    let names: Vec<&str> = sorted.iter().map(|e| e.name.as_str()).collect();
    assert_eq!(names, ["a", "b", "c"]);
}

#[test]
fn the_analyzer_starts_at_home_or_the_root() {
    assert_eq!(analysis_root(Some("/Users/x".into())), "/Users/x");
    assert_eq!(analysis_root(None), "/");
}
