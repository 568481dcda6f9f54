use spiral::catalog::catalog;
use spiral::scan::{
    expand_all_roots, is_nested_in, longest_prefix_owner, outermost_roots, scan_attributed_in,
    scan_attributed_streaming, CategoryResult,
};
use std::cell::RefCell;

const HOME: &str = "/Users/someone";

/// The files a walk of `root` finds, from a fixed list of files on disk.
fn disk(files: &'static [(&'static str, u64)]) -> impl Fn(&str) -> Vec<(String, u64)> {
    move |root: &str| {
        files
            .iter()
            .filter(|(p, _)| p.starts_with(&format!("{root}/")))
            .map(|(p, n)| (p.to_string(), *n))
            .collect()
    }
}

fn result<'a>(results: &'a [CategoryResult], id: &str) -> &'a CategoryResult {
    results.iter().find(|r| r.id == id).unwrap()
}

const FILES: &[(&str, u64)] = &[
    ("/Users/someone/Library/Caches/Foo/a.bin", 10),
    ("/Users/someone/Library/Caches/Google/Chrome/Default/cache.bin", 100),
    ("/Users/someone/Library/Caches/GoogleUpdater/b.bin", 7),
    ("/Users/someone/Library/Logs/app.log", 3),
    ("/Users/someone/Library/Logs/DiagnosticReports/crash.ips", 5),
];

#[test]
fn a_nested_root_file_is_claimed_by_the_child_not_the_parent() {
    let results = scan_attributed_in(HOME, &disk(FILES));
    assert_eq!(result(&results, "chrome-cache").bytes, 100);
    assert_eq!(result(&results, "crash-reports").bytes, 5);
    assert_eq!(result(&results, "user-logs").bytes, 3);
}

#[test]
fn a_sibling_that_merely_shares_a_name_prefix_stays_with_the_parent() {
    let results = scan_attributed_in(HOME, &disk(FILES));
    let caches = result(&results, "user-caches");
    assert_eq!(caches.bytes, 17);
    assert_eq!(caches.items, 2);
    assert!(caches.paths.iter().any(|p| p.ends_with("GoogleUpdater/b.bin")));
}

#[test]
fn parent_and_child_totals_sum_to_the_true_total_with_no_double_counting() {
    let results = scan_attributed_in(HOME, &disk(FILES));
    let total: u64 = results.iter().map(|r| r.bytes).sum();
    let on_disk: u64 = FILES.iter().map(|(_, n)| n).sum();
    assert_eq!(total, on_disk);
}

#[test]
fn an_absent_root_returns_an_empty_result() {
    let results = scan_attributed_in(HOME, &disk(&[]));
    assert_eq!(results.len(), catalog().len());
    assert!(results.iter().all(|r| r.bytes == 0 && r.items == 0 && r.paths.is_empty()));
}

#[test]
fn scan_attributed_in_covers_every_catalog_entry() {
    let results = scan_attributed_in(HOME, &disk(FILES));
    let ids: Vec<&str> = results.iter().map(|r| r.id.as_str()).collect();
    let catalog_ids: Vec<&str> = catalog().iter().map(|e| e.id).collect();
    assert_eq!(ids, catalog_ids);
}

#[test]
fn streaming_emits_every_category_exactly_once_and_agrees_with_the_batch() {
    let seen: RefCell<Vec<(String, u64)>> = RefCell::new(Vec::new());
    let streamed = scan_attributed_streaming(HOME, &disk(FILES), &|r: &CategoryResult| {
        seen.borrow_mut().push((r.id.clone(), r.bytes))
    });
    let batch = scan_attributed_in(HOME, &disk(FILES));
    let mut heard = seen.into_inner();
    heard.sort();
    let mut expected: Vec<(String, u64)> = batch.iter().map(|r| (r.id.clone(), r.bytes)).collect();
    expected.sort();
    assert_eq!(heard, expected);
    assert_eq!(streamed.len(), batch.len());
    for (a, b) in streamed.iter().zip(batch.iter()) {
        assert_eq!((&a.id, a.bytes, a.items), (&b.id, b.bytes, b.items));
    }
}

#[test]
fn longest_prefix_owner_picks_the_more_specific_root() {
    let all = expand_all_roots(HOME);
    let owner = longest_prefix_owner("/Users/someone/Library/Caches/Google/Chrome/x", &all).unwrap();
    assert_eq!(catalog()[owner].id, "chrome-cache");
    let owner = longest_prefix_owner("/Users/someone/Library/Caches/Other/x", &all).unwrap();
    assert_eq!(catalog()[owner].id, "user-caches");
    assert_eq!(longest_prefix_owner("/Users/someone/Documents/x", &all), None);
}

#[test]
fn only_outermost_roots_are_walked() {
    let all = expand_all_roots(HOME);
    let outer = outermost_roots(&all);
    assert!(outer.contains(&"/Users/someone/Library/Caches".to_string()));
    assert!(!outer.contains(&"/Users/someone/Library/Caches/Google/Chrome".to_string()));
    assert!(is_nested_in("/Users/someone/Library/Caches/Firefox", "/Users/someone/Library/Caches"));
    assert!(!is_nested_in("/Users/someone/Library/CachesX", "/Users/someone/Library/Caches"));
    assert!(!is_nested_in("/Users/someone/Library/Caches", "/Users/someone/Library/Caches"));
}
