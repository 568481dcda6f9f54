use spiral::apps::Handoff;
use spiral::catalog::{catalog, find};
use spiral::commands::clean::{
    capped, catalog_candidates_for, category_summaries, clean_candidates, clean_report, clean_selection,
    snapshot_note, PATHS_PREVIEW_LIMIT,
};
use spiral::commands::dedup_by_id;
use spiral::commands::leftovers::{leftover_candidates_for, order_leftovers, LeftoverItem};
use spiral::commands::uninstall::{candidates_for, handoff_label, InspectItem};
use spiral::catalog::Disposition;
use spiral::remove::types::{Evidence, Justification, Outcome, Report};
use spiral::scan::CategoryResult;

#[test]
fn every_catalog_entry_is_summarised() {
    let summaries = category_summaries();
    assert_eq!(summaries.len(), catalog().len());
    assert!(summaries.iter().any(|s| s.id == "user-caches"));
    assert!(summaries.iter().any(|s| s.id == "trash"));
}

#[test]
fn summaries_carry_the_catalog_label_verbatim() {
    let entry = find("user-caches").unwrap();
    let summary = category_summaries().into_iter().find(|s| s.id == "user-caches").unwrap();
    assert_eq!(summary.label, entry.label);
}

#[test]
fn paths_truncated_at_preview_limit_but_counts_preserved() {
    let result = CategoryResult {
        id: "test".to_string(),
        label: "Test Category".to_string(),
        bytes: 1_000_000,
        items: 1000,
        paths: (0..750).map(|i| format!("/tmp/test/file_{}", i)).collect(),
    };
    let input_items = result.items;
    let input_bytes = result.bytes;
    let result = capped(result);
    assert_eq!(result.paths.len(), PATHS_PREVIEW_LIMIT);
    assert_eq!(result.paths.len(), 500);
    assert_eq!(result.items, input_items);
    assert_eq!(result.bytes, input_bytes);
    assert_eq!(result.paths[499], "/tmp/test/file_499");
}

#[test]
fn an_unknown_id_rejects_the_whole_call() {
    let err = clean_selection(vec!["user-caches".into(), "not-a-real-id".into()]).unwrap_err();
    assert!(err.contains("not-a-real-id"), "the message must name the id: {err}");
}

#[test]
fn an_empty_selection_is_rejected() {
    assert!(clean_selection(vec![]).is_err());
}

#[test]
fn a_known_selection_is_accepted_in_order_without_duplicates() {
    let sel = clean_selection(vec!["trash".into(), "user-caches".into(), "trash".into()]).unwrap();
    let ids: Vec<&str> = sel.iter().map(|(id, _)| id.as_str()).collect();
    assert_eq!(ids, ["trash", "user-caches"]);
}

#[test]
fn duplicate_ids_are_deduplicated_before_scanning() {
    let user_caches = find("user-caches").unwrap();
    let trash = find("trash").unwrap();
    let entries = vec![
        ("user-caches".to_string(), user_caches.clone()),
        ("trash".to_string(), trash),
        ("user-caches".to_string(), user_caches),
    ];
    let deduped = dedup_by_id(entries);
    let ids: Vec<&str> = deduped.iter().map(|(id, _)| id.as_str()).collect();
    assert_eq!(ids.len(), 2, "a duplicated id must not survive dedup: {ids:?}");
    assert!(ids.contains(&"user-caches"));
    assert!(ids.contains(&"trash"));
}

#[test]
fn every_candidate_is_justified_by_the_id_that_produced_it() {
    let result = CategoryResult {
        id: "user-caches".into(),
        label: "Application caches".into(),
        bytes: 3,
        items: 2,
        paths: vec!["/tmp/spiral-a".to_string(), "/tmp/spiral-b".to_string()],
    };
    let candidates = catalog_candidates_for("user-caches", &result);
    assert_eq!(candidates.len(), 2);
    for c in &candidates {
        match &c.justification {
            Justification::Catalog(id) => assert_eq!(id, "user-caches"),
            other => panic!("unexpected justification: {other:?}"),
        }
    }
}

#[test]
fn a_snapshot_note_appears_only_when_the_shortfall_is_material() {
    assert!(snapshot_note(8_000_000_000, 2_000_000_000, true).is_some());
    assert!(snapshot_note(8_000_000_000, 7_000_000_000, true).is_none());
    assert!(snapshot_note(8_000_000_000, 2_000_000_000, false).is_none());
}

#[test]
fn handoff_label_shows_the_exact_brew_command() {
    let label = handoff_label(&Handoff::HomebrewCask("google-chrome".into()));
    assert_eq!(label, "brew uninstall --cask google-chrome");
}

#[test]
fn handoff_label_points_a_system_extension_at_system_settings() {
    let label = handoff_label(&Handoff::SystemExtension);
    assert!(label.contains("System Settings"), "{label}");
}

#[test]
fn every_candidate_carries_the_evidence_the_association_found() {
    let items = vec![
        InspectItem { path: "/x/com.example.foo".into(), bytes: 1, evidence: Evidence::Verified },
        InspectItem { path: "/x/Foo".into(), bytes: 1, evidence: Evidence::Likely },
    ];
    let candidates = candidates_for("com.example.foo", &items);
    assert_eq!(candidates.len(), 2);
    match &candidates[0].justification {
        Justification::AppBundle { evidence, .. } => assert_eq!(*evidence, Evidence::Verified),
        other => panic!("unexpected: {other:?}"),
    }
    match &candidates[1].justification {
        Justification::AppBundle { evidence, .. } => assert_eq!(*evidence, Evidence::Likely),
        other => panic!("unexpected: {other:?}"),
    }
}

#[test]
fn leftover_items_are_ordered_deterministically() {
    let items = vec![
        LeftoverItem { bundle_id: "com.b".into(), paths: vec![], bytes: 1 },
        LeftoverItem { bundle_id: "com.a".into(), paths: vec![], bytes: 1 },
    ];
    let sorted = order_leftovers(items);
    assert_eq!(sorted[0].bundle_id, "com.a");
    assert_eq!(sorted[1].bundle_id, "com.b");
}

#[test]
fn leftover_items_sort_by_size_descending_first() {
    let items = vec![
        LeftoverItem { bundle_id: "com.a".into(), paths: vec![], bytes: 10 },
        LeftoverItem { bundle_id: "com.b".into(), paths: vec![], bytes: 100 },
    ];
    let sorted = order_leftovers(items);
    assert_eq!(sorted[0].bundle_id, "com.b", "the bigger item must sort first");
    assert_eq!(sorted[1].bundle_id, "com.a");
}

#[test]
fn every_leftover_candidate_carries_the_orphan_justification() {
    let items = vec![LeftoverItem {
        bundle_id: "com.example.gone".into(),
        paths: vec!["/x/com.example.gone".into()],
        bytes: 1,
    }];
    let candidates = leftover_candidates_for(&items);
    assert_eq!(candidates.len(), 1);
    match &candidates[0].justification {
        Justification::Orphan { bundle_id } => assert_eq!(bundle_id, "com.example.gone"),
        other => panic!("unexpected justification: {other:?}"),
    }
}

fn scanned(id: &str, bytes: u64, paths: &[&str]) -> CategoryResult {
    CategoryResult {
        id: id.to_string(),
        label: id.to_string(),
        bytes,
        items: paths.len(),
        paths: paths.iter().map(|p| p.to_string()).collect(),
    }
}

#[test]
fn a_clean_run_accounts_for_every_selected_path_and_byte() {
    let sel = clean_selection(vec!["trash".into(), "user-caches".into(), "trash".into()]).unwrap();
    let results = vec![
        scanned("user-caches", 3000, &["/u/Library/Caches/a", "/u/Library/Caches/b", "/u/Library/Caches/c"]),
        scanned("user-logs", 999, &["/u/Library/Logs/x"]),
        scanned("trash", 40, &["/u/.Trash/t"]),
    ];
    let (candidates, estimated) = clean_candidates(&sel, &results);
    assert_eq!(estimated, 3040, "only the selected categories count, each once");
    assert_eq!(candidates.len(), 4);
    let outcomes = [
        Outcome::Removed(Disposition::Trash),
        Outcome::Excluded("~/Library/Caches/b".into()),
        Outcome::PartiallyRemoved("some files were busy".into()),
        Outcome::Failed("permission denied".into()),
    ];
    let reports: Vec<Report> = candidates
        .iter()
        .zip(outcomes)
        .map(|(c, outcome)| Report { path: c.path.clone(), outcome })
        .collect();
    let report = clean_report(reports, estimated, estimated, false);
    assert_eq!(report.estimated_bytes, 3040);
    assert_eq!(report.removed + report.partially_removed.len() + report.excluded + report.failed.len(), 4);
    assert_eq!((report.removed, report.excluded), (1, 1));
}

#[test]
fn the_estimate_holds_at_the_largest_value_rather_than_wrapping() {
    let sel = clean_selection(vec!["trash".into(), "user-caches".into()]).unwrap();
    let results = vec![scanned("user-caches", u64::MAX, &["/a"]), scanned("trash", 5, &["/b"])];
    let (_, estimated) = clean_candidates(&sel, &results);
    assert_eq!(estimated, u64::MAX);
}
