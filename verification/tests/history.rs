use spiral::history::{append, appended, unreadable, unwritable, RunRecord, MAX_RUNS};

fn record(n: usize) -> RunRecord {
    RunRecord {
        started_at: format!("2026-08-04T12:00:{n:02}Z"),
        screen: "clean".into(),
        removed: n,
        partially_removed: 0,
        estimated_bytes: 0,
        measured_bytes: 0,
        interrupted: false,
    }
}

#[test]
fn appends_at_the_end() {
    let runs = appended(vec![record(1)], record(2));
    assert_eq!(runs.len(), 2);
    assert_eq!(runs[1].removed, 2);
}

#[test]
fn oldest_records_roll_off_at_the_cap() {
    let full: Vec<RunRecord> = (0..MAX_RUNS).map(record).collect();
    let runs = appended(full, record(MAX_RUNS));
    assert_eq!(runs.len(), MAX_RUNS);
    assert_eq!(runs[0].removed, 1, "the oldest went");
    assert_eq!(runs[MAX_RUNS - 1].removed, MAX_RUNS, "the newest is last");
}

#[test]
fn append_does_not_overwrite_a_log_it_could_not_read() {
    let plan = append(Err("bad log".into()), record(1));
    assert_eq!(plan.unwrap_err(), "bad log");
    assert_eq!(append(Ok(vec![]), record(1)).unwrap().len(), 1);
}

#[test]
fn the_messages_name_the_file_and_a_next_step() {
    let m = unreadable("/cfg/history.json", "eof");
    assert!(m.starts_with("Spiral Clean could not read your run history at /cfg/history.json (eof)."));
    assert!(m.contains("move it aside"));
    let m = unwritable("/cfg/history.json", "disk full");
    assert!(m.contains("/cfg/history.json (disk full)"));
    assert!(m.contains("only the log entry is missing"));
}
