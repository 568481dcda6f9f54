//! The Health section: read-only facts about the machine, each one
//! independently fallible. A source that cannot be read or parsed gives
//! `None` for its field and nothing else: the parsers here never invent a
//! plausible default. Running the tools is the caller's work.

use crate::json::{as_str, as_u64, get, Json};
use crate::plist::{extract_plist_string, plist_string};
use crate::text::{
    chars_of, contains, digit, first_occurrence, has, is_digit, lines, lines_of, parse_unsigned,
    parse_unsigned_chars, skip_white, slice, string_of, trim, trim_start, trimmed, find, occurs_at,
};
use crate::volume::snapshot_marker;
use vstd::prelude::*;

verus! {

#[derive(Debug, PartialEq, Eq)]
pub struct Storage {
    pub total_bytes: u64,
    pub available_bytes: u64,
}

#[derive(Debug, PartialEq, Eq)]
pub struct Battery {
    pub cycle_count: u32,
    pub condition: String,
    /// As macOS words it, e.g. `"99%"`: a figure to display, kept verbatim.
    pub maximum_capacity: Option<String>,
}

#[derive(Debug, PartialEq, Eq)]
pub struct HealthReport {
    pub storage: Option<Storage>,
    /// Whatever `diskutil` says, unmapped.
    pub smart: Option<String>,
    /// Absent on a machine with no battery.
    pub battery: Option<Battery>,
    /// Local Time Machine snapshots on the boot volume: a count, never a size.
    pub local_snapshots: Option<u32>,
    pub uptime_seconds: Option<u64>,
    pub model: Option<String>,
    pub macos_version: Option<String>,
}

impl Default for HealthReport {
    fn default() -> (r: Self)
        ensures
            r.storage is None,
            r.smart is None,
            r.battery is None,
            r.local_snapshots is None,
            r.uptime_seconds is None,
            r.model is None,
            r.macos_version is None,
    {
        HealthReport {
            storage: None,
            smart: None,
            battery: None,
            local_snapshots: None,
            uptime_seconds: None,
            model: None,
            macos_version: None,
        }
    }
}

pub open spec fn opt_string(o: Option<String>) -> Option<Seq<char>> {
    match o {
        Some(s) => Some(s@),
        None => None,
    }
}

// ---------------------------------------------------------------------------
// Plist fields
// ---------------------------------------------------------------------------

/// SMART status out of `diskutil info -plist /`.
pub fn smart_from(plist: &str) -> (r: Option<String>)
    ensures
        opt_string(r) == plist_string(plist@, "SMARTStatus"@),
{
    extract_plist_string(plist, "SMARTStatus")
}

/// The macOS version out of `SystemVersion.plist`.
pub fn macos_version_from(plist: &str) -> (r: Option<String>)
    ensures
        opt_string(r) == plist_string(plist@, "ProductVersion"@),
{
    extract_plist_string(plist, "ProductVersion")
}

// ---------------------------------------------------------------------------
// Battery
// ---------------------------------------------------------------------------

pub struct BatteryView {
    pub cycle_count: u32,
    pub condition: Seq<char>,
    pub maximum_capacity: Option<Seq<char>>,
}

pub open spec fn battery_view(b: Battery) -> BatteryView {
    BatteryView {
        cycle_count: b.cycle_count,
        condition: b.condition@,
        maximum_capacity: opt_string(b.maximum_capacity),
    }
}

pub open spec fn is_battery_record(e: Json) -> bool {
    match get(e, "_name"@) {
        Some(n) => as_str(n) == Some("spbattery_information"@),
        None => false,
    }
}

/// The first record named `spbattery_information`.
pub open spec fn battery_record(entries: Seq<Json>) -> Option<Json>
    decreases entries.len(),
{
    if entries.len() == 0 {
        None
    } else if is_battery_record(entries[0]) {
        Some(entries[0])
    } else {
        battery_record(entries.drop_first())
    }
}

pub open spec fn opt_str_of(o: Option<Json>) -> Option<Seq<char>> {
    match o {
        Some(v) => as_str(v),
        None => None,
    }
}

/// Battery facts out of `system_profiler -json SPPowerDataType`. The
/// battery is the record named `spbattery_information`; a machine with no
/// such record has no battery, and a record without a cycle count that fits
/// in `u32` or without a condition is no battery either.
pub open spec fn battery_of(root: Json) -> Option<BatteryView> {
    match get(root, "SPPowerDataType"@) {
        Some(Json::Array(entries)) => match battery_record(entries@) {
            Some(entry) => battery_in_record(entry),
            None => None,
        },
        _ => None,
    }
}

/// The battery's facts out of its record.
pub open spec fn battery_in_record(entry: Json) -> Option<BatteryView> {
    match get(entry, "sppower_battery_health_info"@) {
        Some(health) => match get(health, "sppower_battery_cycle_count"@) {
            Some(c) => match as_u64(c) {
                Some(n) => if n <= u32::MAX {
                    match opt_str_of(get(health, "sppower_battery_health"@)) {
                        Some(cond) => Some(
                            BatteryView {
                                cycle_count: n as u32,
                                condition: cond,
                                maximum_capacity: opt_str_of(
                                    get(health, "sppower_battery_health_maximum_capacity"@),
                                ),
                            },
                        ),
                        None => None,
                    }
                } else {
                    None
                },
                None => None,
            },
            None => None,
        },
        None => None,
    }
}

/// The battery is the first record named `spbattery_information`: records
/// before it that are not the battery do not matter, nor does anything after.
pub proof fn lemma_battery_is_the_first_battery_record(pre: Seq<Json>, e: Json, post: Seq<Json>)
    requires
        forall|i: int| 0 <= i < pre.len() ==> !is_battery_record(#[trigger] pre[i]),
        is_battery_record(e),
    ensures
        battery_record(pre + seq![e] + post) == Some(e),
    decreases pre.len(),
{
    let all = pre + seq![e] + post;
    if pre.len() == 0 {
        assert(all[0] == e);
    } else {
        assert(all[0] == pre[0]);
        assert(all.drop_first() =~= pre.drop_first() + seq![e] + post);
        assert forall|i: int| 0 <= i < pre.drop_first().len() implies !is_battery_record(#[trigger] pre.drop_first()[i]) by {
            assert(pre.drop_first()[i] == pre[i + 1]);
        }
        lemma_battery_is_the_first_battery_record(pre.drop_first(), e, post);
    }
}

/// A battery record's health info gives the cycle count, the condition and
/// the maximum capacity, each from its own field; a cycle count that is not
/// a whole number within `u32`, or a missing condition, gives no battery.
pub proof fn lemma_battery_fields(entry: Json, health: Json)
    requires
        get(entry, "sppower_battery_health_info"@) == Some(health),
    ensures
        get(health, "sppower_battery_cycle_count"@) matches Some(c) ==> (as_u64(c) matches Some(n) ==> (n <= u32::MAX
            ==> (opt_str_of(get(health, "sppower_battery_health"@)) matches Some(cond) ==> battery_in_record(entry)
            == Some(
            (BatteryView {
                cycle_count: n as u32,
                condition: cond,
                maximum_capacity: opt_str_of(get(health, "sppower_battery_health_maximum_capacity"@)),
            }),
        )))),
        battery_in_record(entry) is Some ==> (get(health, "sppower_battery_cycle_count"@) matches Some(c) && as_u64(c)
            matches Some(n) && n <= u32::MAX && battery_in_record(entry)->0.cycle_count == n),
        battery_in_record(entry) is Some ==> opt_str_of(get(health, "sppower_battery_health"@)) == Some(
            battery_in_record(entry)->0.condition,
        ),
{
}

fn is_battery(e: &Json) -> (r: bool)
    ensures
        r == is_battery_record(*e),
{
    match e.get("_name") {
        Some(n) => match n.as_str() {
            Some(s) => crate::text::str_eq(s, "spbattery_information"),
            None => false,
        },
        None => false,
    }
}

fn str_member(j: &Json, key: &str) -> (r: Option<String>)
    ensures
        opt_string(r) == opt_str_of(get(*j, key@)),
{
    match j.get(key) {
        Some(v) => match v.as_str() {
            Some(s) => Some(s.to_owned()),
            None => None,
        },
        None => None,
    }
}

pub open spec fn opt_battery(o: Option<Battery>) -> Option<BatteryView> {
    match o {
        Some(b) => Some(battery_view(b)),
        None => None,
    }
}

fn find_battery(entries: &Vec<Json>) -> (r: Option<usize>)
    ensures
        match r {
            Some(i) => i < entries.len() && battery_record(entries@) == Some(entries@[i as int]),
            None => battery_record(entries@) is None,
        },
{
    assert(entries@.subrange(0, entries@.len() as int) =~= entries@);
    let mut i: usize = 0;
    while i < entries.len()
        invariant
            i <= entries.len(),
            battery_record(entries@) == battery_record(entries@.subrange(i as int, entries@.len() as int)),
        decreases entries.len() - i,
    {
        let ghost rest = entries@.subrange(i as int, entries@.len() as int);
        assert(rest.drop_first() =~= entries@.subrange(i + 1, entries@.len() as int));
        if is_battery(&entries[i]) {
            return Some(i);
        }
        i += 1;
    }
    None
}

fn battery_from_record(entry: &Json) -> (r: Option<Battery>)
    ensures
        opt_battery(r) == battery_in_record(*entry),
{
    let health = match entry.get("sppower_battery_health_info") {
        Some(h) => h,
        None => return None,
    };
    let count = match health.get("sppower_battery_cycle_count") {
        Some(c) => match c.as_u64() {
            Some(n) => n,
            None => return None,
        },
        None => return None,
    };
    if count > 4294967295 {
        return None;
    }
    let condition = match str_member(health, "sppower_battery_health") {
        Some(c) => c,
        None => return None,
    };
    let maximum_capacity = str_member(health, "sppower_battery_health_maximum_capacity");
    Some(Battery { cycle_count: count as u32, condition, maximum_capacity })
}

/// Battery facts out of a parsed `system_profiler -json SPPowerDataType`.
pub fn battery_from(root: &Json) -> (r: Option<Battery>)
    ensures
        opt_battery(r) == battery_of(*root),
{
    let entries = match root.get("SPPowerDataType") {
        Some(v) => match v.as_array() {
            Some(a) => a,
            None => return None,
        },
        None => return None,
    };
    match find_battery(entries) {
        Some(i) => battery_from_record(&entries[i]),
        None => None,
    }
}

// ---------------------------------------------------------------------------
// Snapshots
// ---------------------------------------------------------------------------

/// Lines that carry the snapshot identifier. The header line is not a
/// snapshot.
pub open spec fn marked_lines(ls: Seq<Seq<char>>) -> nat
    decreases ls.len(),
{
    if ls.len() == 0 {
        0
    } else {
        marked_lines(ls.drop_last()) + if contains(ls.last(), snapshot_marker()) { 1nat } else { 0nat }
    }
}

/// Snapshots named in `tmutil listlocalsnapshots /` output, counted by
/// identifier rather than by line, and capped at `u32::MAX`.
pub fn snapshot_count_from(output: &str) -> (r: u32)
    ensures
        r == if marked_lines(lines(output@)) > u32::MAX { u32::MAX as nat } else { marked_lines(
            lines(output@),
        ) },
{
    let text = chars_of(output);
    let all = lines_of(text.as_slice());
    let marker = chars_of("com.apple.TimeMachine");
    let ghost ls = lines(output@);
    let mut count: u64 = 0;
    let mut i: usize = 0;
    assert(ls.take(0) =~= Seq::<Seq<char>>::empty());
    while i < all.len()
        invariant
            all@.map_values(|p: Vec<char>| p@) == ls,
            ls == lines(output@),
            marker@ == snapshot_marker(),
            i <= all.len(),
            count == marked_lines(ls.take(i as int)),
            count <= i,
        decreases all.len() - i,
    {
        assert(all@[i as int]@ == ls[i as int]);
        assert(ls.take(i + 1).drop_last() =~= ls.take(i as int));
        if has(all[i].as_slice(), marker.as_slice()) {
            count += 1;
        }
        i += 1;
    }
    assert(ls.take(ls.len() as int) =~= ls);
    if count > 4294967295 {
        4294967295
    } else {
        count as u32
    }
}

// ---------------------------------------------------------------------------
// Uptime and model, from `sysctl -n hw.model kern.boottime`
// ---------------------------------------------------------------------------

/// `line.split("sec =").nth(1)`: what follows the first `sec =`, up to the
/// next one.
pub open spec fn sec_field(line: Seq<char>) -> Option<Seq<char>> {
    match first_occurrence(line, "sec ="@) {
        None => None,
        Some(i) => {
            let rest = line.subrange(i + 5, line.len() as int);
            match first_occurrence(rest, "sec ="@) {
                None => Some(rest),
                Some(j) => Some(rest.subrange(0, j)),
            }
        },
    }
}

/// The run of ASCII digits at the start of `s`.
pub open spec fn leading_digits(s: Seq<char>) -> Seq<char>
    decreases s.len(),
{
    if s.len() == 0 || !is_digit(s[0]) {
        Seq::empty()
    } else {
        seq![s[0]] + leading_digits(s.drop_first())
    }
}

/// The boot time in seconds out of `kern.boottime`'s
/// `{ sec = 1784769304, usec = … }`.
pub open spec fn boot_seconds(line: Seq<char>) -> Option<nat> {
    match sec_field(line) {
        None => None,
        Some(f) => parse_unsigned(leading_digits(trim_start(f)), u64::MAX as nat),
    }
}

/// Seconds since boot, given the time now. A boot time after now, or none
/// found, gives no uptime rather than zero.
pub open spec fn uptime_of(line: Seq<char>, now: Option<u64>) -> Option<u64> {
    match (boot_seconds(line), now) {
        (Some(b), Some(n)) => if b <= n { Some((n - b) as u64) } else { None },
        _ => None,
    }
}

fn digits_from(s: &[char], from: usize) -> (r: Vec<char>)
    requires
        from <= s.len(),
    ensures
        r@ == leading_digits(s@.subrange(from as int, s@.len() as int)),
{
    let mut k = from;
    while k < s.len() && digit(s[k])
        invariant
            from <= k <= s.len(),
            forall|j: int| from <= j < k ==> is_digit(#[trigger] s@[j]),
        decreases s.len() - k,
    {
        k += 1;
    }
    let r = slice(s, from, k);
    proof {
        lemma_leading_digits(s@, from as int, k as int);
    }
    r
}

proof fn lemma_leading_digits(s: Seq<char>, from: int, k: int)
    requires
        0 <= from <= k <= s.len(),
        forall|j: int| from <= j < k ==> is_digit(#[trigger] s[j]),
        k == s.len() || !is_digit(s[k]),
    ensures
        leading_digits(s.subrange(from, s.len() as int)) == s.subrange(from, k),
    decreases k - from,
{
    let t = s.subrange(from, s.len() as int);
    if from == k {
        assert(t.len() == 0 || !is_digit(t[0]));
        assert(s.subrange(from, k) =~= Seq::<char>::empty());
    } else {
        assert(t.drop_first() =~= s.subrange(from + 1, s.len() as int));
        lemma_leading_digits(s, from + 1, k);
        assert(s.subrange(from, k) =~= seq![s[from]] + s.subrange(from + 1, k));
    }
}

pub open spec fn opt_nat(o: Option<u64>) -> Option<nat> {
    match o {
        Some(n) => Some(n as nat),
        None => None,
    }
}

/// The boot time out of a `kern.boottime` line.
pub fn boot_seconds_in(line: &str) -> (r: Option<u64>)
    ensures
        opt_nat(r) == boot_seconds(line@),
{
    let t = chars_of(line);
    let pat = chars_of("sec =");
    proof {
        reveal_strlit("sec =");
    }
    let i = match find(t.as_slice(), pat.as_slice()) {
        Some(i) => i,
        None => return None,
    };
    assert(occurs_at(t@, pat@, i as int));
    let n = t.len();
    let rest = slice(t.as_slice(), i + 5, n);
    let field = match find(rest.as_slice(), pat.as_slice()) {
        Some(j) => slice(rest.as_slice(), 0, j),
        None => rest,
    };
    let k = skip_white(field.as_slice(), 0);
    assert(field@.subrange(0, field@.len() as int) =~= field@);
    let digits = digits_from(field.as_slice(), k);
    parse_unsigned_chars(digits.as_slice(), 18446744073709551615)
}

/// Seconds since boot, from a `kern.boottime` line and the time now in
/// seconds since the Unix epoch (`None` when the clock could not be read).
pub fn uptime_at(line: &str, now: Option<u64>) -> (r: Option<u64>)
    ensures
        r == uptime_of(line@, now),
{
    let boot = match boot_seconds_in(line) {
        Some(b) => b,
        None => return None,
    };
    match now {
        Some(n) => n.checked_sub(boot),
        None => None,
    }
}

/// Seconds since the Unix epoch, from the system clock. What it returns
/// depends on the clock, so nothing is stated of it.
#[verifier::external_body]
fn unix_now() -> Option<u64> {
    std::time::SystemTime::now().duration_since(std::time::UNIX_EPOCH).ok().map(|d| d.as_secs())
}

/// Seconds since boot, from `kern.boottime`'s output and the clock. A clock
/// that moved backwards, or a line with no boot time in it, gives `None`.
pub fn uptime_from_boottime(line: &str) -> (r: Option<u64>)
    ensures
        boot_seconds(line@) is None ==> r is None,
        r matches Some(u) ==> exists|now: u64| uptime_of(line@, Some(now)) == Some(u),
{
    let now = unix_now();
    let r = uptime_at(line, now);
    proof {
        if let Some(u) = r {
            assert(uptime_of(line@, Some(now->0)) == Some(u));
        }
    }
    r
}

/// Each further line of `tmutil listlocalsnapshots /` output counts one
/// snapshot when it names `com.apple.TimeMachine` and none otherwise; what
/// came before is empty or ends in a line break.
pub proof fn lemma_each_snapshot_line_counts_once(text: Seq<char>, line: Seq<char>)
    requires
        text.len() == 0 || text.last() == '\n',
        forall|i: int| 0 <= i < line.len() ==> line[i] != '\n',
        line.len() == 0 || line.last() != '\r',
    ensures
        marked_lines(lines(text + (line + seq!['\n']))) == marked_lines(lines(text)) + if contains(
            line,
            "com.apple.TimeMachine"@,
        ) {
            1nat
        } else {
            0nat
        },
{
    let piece = line + seq!['\n'];
    crate::text::lemma_one_line(line);
    if text.len() == 0 {
        assert(text + piece =~= piece);
        assert(crate::text::split_on(text, |c: char| c == '\n') == seq![Seq::<char>::empty()]);
        assert(lines(text) =~= Seq::<Seq<char>>::empty());
    } else {
        crate::text::lemma_lines_append(text, piece);
    }
    assert(lines(text + piece) =~= lines(text).push(line));
    assert(lines(text).push(line).drop_last() =~= lines(text));
}

/// The first line of `sysctl -n hw.model kern.boottime` output, trimmed, is
/// the model, whatever follows it.
pub proof fn lemma_model_is_the_first_line(first: Seq<char>, rest: Seq<char>)
    requires
        forall|i: int| 0 <= i < first.len() ==> first[i] != '\n',
        first.len() == 0 || first.last() != '\r',
        trim(first).len() > 0,
    ensures
        model_of(first + seq!['\n'] + rest) == Some(trim(first)),
{
    let a = first + seq!['\n'];
    crate::text::lemma_one_line(first);
    crate::text::lemma_lines_append(a, rest);
    assert(lines(a + rest)[0] == first);
}

/// The uptime read is the clock reading less the boot time, and there is
/// one whenever the boot time is read and not later than now.
pub proof fn lemma_uptime_is_now_less_boot(line: Seq<char>, now: u64)
    ensures
        uptime_of(line, Some(now)) matches Some(u) ==> boot_seconds(line) == Some((now - u) as nat),
        (boot_seconds(line) matches Some(b) && b <= now) ==> uptime_of(line, Some(now)) is Some,
{
}

proof fn lemma_leading_digits_of(d: Seq<char>, x: Seq<char>)
    requires
        forall|i: int| 0 <= i < d.len() ==> is_digit(#[trigger] d[i]),
        x.len() > 0,
        !is_digit(x[0]),
    ensures
        leading_digits(d + x) == d,
    decreases d.len(),
{
    if d.len() == 0 {
        assert(d + x =~= x);
    } else {
        assert((d + x).drop_first() =~= d.drop_first() + x);
        lemma_leading_digits_of(d.drop_first(), x);
        assert(seq![d[0]] + d.drop_first() =~= d);
    }
}

#[verifier::spinoff_prover]
#[verifier::rlimit(60)]
proof fn lemma_first_sec(d: Seq<char>, tail: Seq<char>)
    requires
        d.len() > 0,
    ensures
        first_occurrence("{ sec = "@ + d + ", usec = "@ + tail, "sec ="@) == Some(2int),
        ("{ sec = "@ + d + ", usec = "@ + tail).subrange(7, ("{ sec = "@ + d + ", usec = "@ + tail).len() as int)
            == seq![' '] + d + seq![',', ' ', 'u', 's', 'e', 'c', ' ', '=', ' '] + tail,
{
    reveal_strlit("{ sec = ");
    reveal_strlit(", usec = ");
    reveal_strlit("sec =");
    let pat = "sec ="@;
    let line = "{ sec = "@ + d + ", usec = "@ + tail;
    assert(line.subrange(2, 7) =~= pat);
    assert(!occurs_at(line, pat, 0)) by {
        assert(line.subrange(0, 5)[0] != pat[0]);
    }
    assert(!occurs_at(line, pat, 1)) by {
        assert(line.subrange(1, 6)[0] != pat[0]);
    }
    crate::plist::lemma_first_at(line, pat, 2);
    assert(line.subrange(7, line.len() as int) =~= seq![' '] + d + seq![',', ' ', 'u', 's', 'e', 'c', ' ', '=', ' ']
        + tail);
}

#[verifier::spinoff_prover]
#[verifier::rlimit(60)]
proof fn lemma_next_sec(d: Seq<char>, tail: Seq<char>)
    requires
        forall|i: int| 0 <= i < d.len() ==> is_digit(#[trigger] d[i]),
    ensures
        first_occurrence(seq![' '] + d + seq![',', ' ', 'u', 's', 'e', 'c', ' ', '=', ' '] + tail, "sec ="@)
            == Some(d.len() + 4int),
{
    reveal_strlit("sec =");
    let pat = "sec ="@;
    let rest = seq![' '] + d + seq![',', ' ', 'u', 's', 'e', 'c', ' ', '=', ' '] + tail;
    let k: int = d.len() + 4int;
    assert(rest.subrange(k, k + 5) =~= pat);
    assert forall|j: int| 0 <= j < k implies !occurs_at(rest, pat, j) by {
        if occurs_at(rest, pat, j) {
            assert(rest.subrange(j, j + 5)[0] == pat[0]);
            assert(rest[j] == 's');
            if 1 <= j < d.len() + 1 {
                assert(rest[j] == d[j - 1]);
            }
        }
    }
    crate::plist::lemma_first_at(rest, pat, k);
}

#[verifier::spinoff_prover]
#[verifier::rlimit(60)]
proof fn lemma_sec_field_of(d: Seq<char>, tail: Seq<char>)
    requires
        d.len() > 0,
        forall|i: int| 0 <= i < d.len() ==> is_digit(#[trigger] d[i]),
    ensures
        sec_field("{ sec = "@ + d + ", usec = "@ + tail) == Some(seq![' '] + d + seq![',', ' ', 'u']),
{
    let line = "{ sec = "@ + d + ", usec = "@ + tail;
    let rest = seq![' '] + d + seq![',', ' ', 'u', 's', 'e', 'c', ' ', '=', ' '] + tail;
    let k: int = d.len() + 4int;
    lemma_first_sec(d, tail);
    lemma_next_sec(d, tail);
    assert(first_occurrence(line, "sec ="@) == Some(2int));
    assert(line.subrange(2int + 5, line.len() as int) == rest);
    assert(first_occurrence(rest, "sec ="@) == Some(k));
    assert(rest.subrange(0, k) =~= seq![' '] + d + seq![',', ' ', 'u']);
}

proof fn lemma_digits_after_space(d: Seq<char>)
    requires
        d.len() > 0,
        forall|i: int| 0 <= i < d.len() ==> is_digit(#[trigger] d[i]),
    ensures
        leading_digits(trim_start(seq![' '] + d + seq![',', ' ', 'u'])) == d,
{
    let tl = seq![',', ' ', 'u'];
    let field = seq![' '] + d + tl;
    assert(field.drop_first() =~= d + tl);
    assert(field[0] == ' ');
    assert((d + tl)[0] == d[0]);
    assert(is_digit(d[0]));
    assert(trim_start(d + tl) == d + tl);
    lemma_leading_digits_of(d, tl);
}

/// `kern.boottime` as sysctl prints it, `{ sec = D, usec = U } …`, boots at
/// `D` seconds: the space after `sec =` is skipped, and the `usec` that
/// follows is not read as a second boot time.
pub proof fn lemma_boot_time_is_the_sec_field(d: Seq<char>, tail: Seq<char>)
    requires
        d.len() > 0,
        forall|i: int| 0 <= i < d.len() ==> is_digit(#[trigger] d[i]),
        crate::text::digits_value(d) <= u64::MAX,
    ensures
        boot_seconds("{ sec = "@ + d + ", usec = "@ + tail) == Some(crate::text::digits_value(d)),
{
    lemma_sec_field_of(d, tail);
    lemma_digits_after_space(d);
    assert(is_digit(d[0]));
}

pub open spec fn model_of(out: Seq<char>) -> Option<Seq<char>> {
    let ls = lines(out);
    if ls.len() >= 1 && trim(ls[0]).len() > 0 { Some(trim(ls[0])) } else { None }
}

pub open spec fn sysctl_uptime_of(out: Seq<char>, now: Option<u64>) -> Option<u64> {
    let ls = lines(out);
    if ls.len() >= 2 { uptime_of(ls[1], now) } else { None }
}

/// `hw.model` and the uptime out of `sysctl -n hw.model kern.boottime`: the
/// first line trimmed, when not empty, and the second line read as a boot
/// time against `now`.
pub fn sysctl_facts_from(out: &str, now: Option<u64>) -> (r: (Option<String>, Option<u64>))
    ensures
        opt_string(r.0) == model_of(out@),
        r.1 == sysctl_uptime_of(out@, now),
{
    let text = chars_of(out);
    let all = lines_of(text.as_slice());
    let ghost ls = lines(out@);
    assert(all@.map_values(|p: Vec<char>| p@) == ls);
    let model = if all.len() >= 1 {
        assert(all@[0]@ == ls[0]);
        let t = trimmed(all[0].as_slice());
        if t.len() > 0 {
            Some(string_of(t.as_slice()))
        } else {
            None
        }
    } else {
        None
    };
    let uptime = if all.len() >= 2 {
        assert(all@[1]@ == ls[1]);
        let line = string_of(all[1].as_slice());
        uptime_at(line.as_str(), now)
    } else {
        None
    };
    (model, uptime)
}

} // verus!
