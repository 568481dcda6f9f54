use spiral::health::{
    battery_from, boot_seconds_in, macos_version_from, smart_from, snapshot_count_from,
    sysctl_facts_from, uptime_at, uptime_from_boottime, Battery,
};
use spiral::json::Json;
use std::time::{SystemTime, UNIX_EPOCH};

/// serde_json's document, in the library's own shape.
fn to_json(v: &serde_json::Value) -> Json {
    match v {
        serde_json::Value::Null => Json::Null,
        serde_json::Value::Bool(b) => Json::Bool(*b),
        serde_json::Value::Number(n) => Json::Number(n.as_u64()),
        serde_json::Value::String(s) => Json::Str(s.clone()),
        serde_json::Value::Array(a) => Json::Array(a.iter().map(to_json).collect()),
        serde_json::Value::Object(m) => {
            Json::Object(m.iter().map(|(k, v)| (k.clone(), to_json(v))).collect())
        }
    }
}

fn battery_from_text(text: &str) -> Option<Battery> {
    let value: serde_json::Value = serde_json::from_str(text).ok()?;
    battery_from(&to_json(&value))
}

const POWER_JSON: &str = r#"{"SPPowerDataType":[
    {"_name":"spbattery_information",
     "sppower_battery_health_info":{
        "sppower_battery_cycle_count":104,
        "sppower_battery_health":"Good",
        "sppower_battery_health_maximum_capacity":"99%"}},
    {"_name":"sppower_information","AC Power":{"Hibernate Mode":0}}]}"#;

#[test]
fn battery_is_read_from_the_battery_record_not_the_first_one() {
    let battery = battery_from_text(POWER_JSON).expect("the fixture has a battery");
    assert_eq!(battery.cycle_count, 104);
    assert_eq!(battery.condition, "Good");
    assert_eq!(battery.maximum_capacity.as_deref(), Some("99%"));
}

#[test]
fn a_machine_with_no_battery_record_reports_no_battery() {
    let desktop = r#"{"SPPowerDataType":[{"_name":"sppower_information"}]}"#;
    assert_eq!(battery_from_text(desktop), None);
}

#[test]
fn a_battery_record_missing_its_cycle_count_reports_no_battery() {
    let partial = r#"{"SPPowerDataType":[{"_name":"spbattery_information",
        "sppower_battery_health_info":{"sppower_battery_health":"Good"}}]}"#;
    assert_eq!(battery_from_text(partial), None);
}

#[test]
fn unparseable_power_output_reports_no_battery_rather_than_panicking() {
    assert_eq!(battery_from_text("not json at all"), None);
    assert_eq!(battery_from_text(""), None);
}

#[test]
fn a_battery_without_a_condition_reports_no_battery() {
    let partial = r#"{"SPPowerDataType":[{"_name":"spbattery_information",
        "sppower_battery_health_info":{"sppower_battery_cycle_count":3}}]}"#;
    assert_eq!(battery_from_text(partial), None);
}

#[test]
fn smart_status_comes_out_of_the_diskutil_plist() {
    let plist = "<key>SMARTStatus</key><string>Verified</string>";
    assert_eq!(smart_from(plist).as_deref(), Some("Verified"));
}

#[test]
fn a_diskutil_plist_without_a_smart_key_reports_nothing() {
    assert_eq!(smart_from("<key>DeviceNode</key><string>/dev/disk3s1</string>"), None);
}

#[test]
fn the_macos_version_comes_out_of_the_system_version_plist() {
    let plist = "<key>ProductName</key><string>macOS</string><key>ProductVersion</key><string>27.0</string>";
    assert_eq!(macos_version_from(plist).as_deref(), Some("27.0"));
}

#[test]
fn a_missing_system_version_plist_reports_no_version() {
    assert_eq!(macos_version_from(""), None);
}

#[test]
fn snapshots_are_counted_by_identifier_not_by_line() {
    let output = "Snapshots for disk3s1s1:\ncom.apple.TimeMachine.2026-08-05-101500.local\ncom.apple.TimeMachine.2026-08-04-101500.local\n";
    assert_eq!(snapshot_count_from(output), 2);
}

#[test]
fn a_volume_with_no_snapshots_counts_zero() {
    assert_eq!(snapshot_count_from("Snapshots for disk3s1s1:\n"), 0);
}

#[test]
fn uptime_is_now_minus_boot_time() {
    let now = SystemTime::now().duration_since(UNIX_EPOCH).unwrap().as_secs();
    let line = format!("{{ sec = {}, usec = 474398 }} Wed Jul 22 21:15:04 2026", now - 3600);
    let uptime = uptime_from_boottime(&line).expect("a boot time in the past");
    assert!((3595..=3605).contains(&uptime), "about an hour, got {uptime}");
}

#[test]
fn a_boot_time_in_the_future_reports_no_uptime() {
    let now = SystemTime::now().duration_since(UNIX_EPOCH).unwrap().as_secs();
    let line = format!("{{ sec = {}, usec = 0 }}", now + 10_000);
    assert_eq!(uptime_from_boottime(&line), None);
}

#[test]
fn unrecognised_boottime_output_reports_no_uptime() {
    assert_eq!(uptime_from_boottime("kern.boottime: unavailable"), None);
    assert_eq!(uptime_from_boottime("{ sec = , usec = 0 }"), None);
}

#[test]
fn uptime_at_a_given_moment_is_exact() {
    let line = "{ sec = 1000, usec = 0 } Thu Jan  1 00:16:40 1970";
    assert_eq!(boot_seconds_in(line), Some(1000));
    assert_eq!(uptime_at(line, Some(4600)), Some(3600));
    assert_eq!(uptime_at(line, Some(1000)), Some(0));
    assert_eq!(uptime_at(line, Some(999)), None);
    assert_eq!(uptime_at(line, None), None);
}

#[test]
fn the_model_and_uptime_come_out_of_one_sysctl_answer() {
    let out = "MacBookPro18,3\n{ sec = 1000, usec = 0 } Thu Jan  1 00:16:40 1970\n";
    let (model, uptime) = sysctl_facts_from(out, Some(1600));
    assert_eq!(model.as_deref(), Some("MacBookPro18,3"));
    assert_eq!(uptime, Some(600));
}
