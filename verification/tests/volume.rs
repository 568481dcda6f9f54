use spiral::volume::{blocks_to_bytes, lists_local_snapshot, measured_delta, shortfall_is_material};

#[test]
fn a_shortfall_needs_both_conditions() {
    assert!(shortfall_is_material(8_000_000_000, 2_000_000_000));
    assert!(!shortfall_is_material(10_000_000, 1_000_000));
    assert!(!shortfall_is_material(8_000_000_000, 7_000_000_000));
    assert!(!shortfall_is_material(0, 0));
}

#[test]
fn a_measured_result_above_the_estimate_is_never_material() {
    assert!(!shortfall_is_material(1_000_000_000, 4_000_000_000));
}

#[test]
fn the_floor_is_exclusive() {
    // Exactly 100 MB short is still noise; one byte more is not.
    assert!(!shortfall_is_material(104_857_600, 0));
    assert!(shortfall_is_material(104_857_601, 0));
}

#[test]
fn the_space_freed_is_the_growth_in_free_space() {
    assert_eq!(measured_delta(Some(10), Some(25)), 15);
    assert_eq!(measured_delta(Some(25), Some(10)), 0);
    assert_eq!(measured_delta(None, Some(10)), 0);
    assert_eq!(measured_delta(Some(10), None), 0);
}

#[test]
fn blocks_times_block_size_saturates() {
    assert_eq!(blocks_to_bytes(10, 4096), 40960);
    assert_eq!(blocks_to_bytes(u64::MAX, 2), u64::MAX);
}

#[test]
fn a_time_machine_snapshot_line_is_recognised() {
    assert!(lists_local_snapshot(
        "Snapshots for disk /:\ncom.apple.TimeMachine.2024-01-01-120000.local\n"
    ));
    assert!(!lists_local_snapshot("Snapshots for disk /:\n"));
    assert!(!lists_local_snapshot(""));
}
