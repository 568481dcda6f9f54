//! The Bluetooth guard. Restarting `bluetoothd` disconnects every Bluetooth
//! device; on a Mac driven by a Bluetooth keyboard or pointer that takes
//! away the means to undo it. So the reset is blocked outright while such a
//! device is connected, on a Mac without a built-in keyboard, and whenever
//! either cannot be told: unknown resolves to no.

use crate::json::{as_str, get, Json};
use crate::text::{
    chars_of, contains, eq_ignore_ascii_case, eq_ignore_case, has, has_prefix, lines, lines_of,
    lower_chars, lowercase, push_str, starts_with, string_of, trim, trimmed,
};
use vstd::prelude::*;

verus! {

// ---------------------------------------------------------------------------
// A built-in keyboard, from an `ioreg` dump
// ---------------------------------------------------------------------------

pub open spec fn keyboard_line(line: Seq<char>) -> bool {
    starts_with(trim(line), "\"Product\""@) && contains(trim(line), "Internal Keyboard"@)
}

pub open spec fn describes_built_in_keyboard(dump: Seq<char>) -> bool {
    exists|i: int| 0 <= i < lines(dump).len() && keyboard_line(#[trigger] lines(dump)[i])
}

/// Whether an `ioreg` dump describes a built-in keyboard: some line, trimmed,
/// starts with `"Product"` and names the Internal Keyboard. A dump this
/// cannot understand says no, which blocks the reset.
pub fn built_in_keyboard_in(dump: &str) -> (r: bool)
    ensures
        r == describes_built_in_keyboard(dump@),
{
    let text = chars_of(dump);
    let all = lines_of(text.as_slice());
    let product = chars_of("\"Product\"");
    let internal = chars_of("Internal Keyboard");
    let ghost ls = lines(dump@);
    let mut i: usize = 0;
    while i < all.len()
        invariant
            all@.map_values(|p: Vec<char>| p@) == ls,
            ls == lines(dump@),
            product@ == "\"Product\""@,
            internal@ == "Internal Keyboard"@,
            i <= all.len(),
            forall|j: int| 0 <= j < i ==> !keyboard_line(#[trigger] ls[j]),
        decreases all.len() - i,
    {
        assert(all@[i as int]@ == ls[i as int]);
        let line = trimmed(all[i].as_slice());
        if has_prefix(line.as_slice(), product.as_slice()) && has(line.as_slice(), internal.as_slice()) {
            assert(keyboard_line(ls[i as int]));
            return true;
        }
        i += 1;
    }
    false
}

// ---------------------------------------------------------------------------
// A connected input device, from `system_profiler -json SPBluetoothDataType`
// ---------------------------------------------------------------------------

/// The input kinds that block the reset; headphones and speakers do not.
pub open spec fn input_kind(minor: Seq<char>) -> Option<Seq<char>> {
    if eq_ignore_ascii_case(minor, "Keyboard"@) {
        Some("keyboard"@)
    } else if eq_ignore_ascii_case(minor, "Mouse"@) {
        Some("mouse"@)
    } else if eq_ignore_ascii_case(minor, "Trackpad"@) {
        Some("trackpad"@)
    } else if eq_ignore_ascii_case(minor, "Tablet"@) {
        Some("tablet"@)
    } else {
        None
    }
}

/// A device record's `device_minorType`, or nothing.
pub open spec fn minor_type(info: Json) -> Seq<char> {
    match get(info, "device_minorType"@) {
        Some(v) => match as_str(v) {
            Some(s) => s,
            None => Seq::empty(),
        },
        None => Seq::empty(),
    }
}

pub open spec fn kind_in_fields(fields: Seq<(String, Json)>) -> Option<Seq<char>>
    decreases fields.len(),
{
    if fields.len() == 0 {
        None
    } else {
        match input_kind(minor_type(fields[0].1)) {
            Some(k) => Some(k),
            None => kind_in_fields(fields.drop_first()),
        }
    }
}

pub open spec fn kind_in_devices(devices: Seq<Json>) -> Option<Seq<char>>
    decreases devices.len(),
{
    if devices.len() == 0 {
        None
    } else {
        let here = match devices[0] {
            Json::Object(fields) => kind_in_fields(fields@),
            _ => None,
        };
        match here {
            Some(k) => Some(k),
            None => kind_in_devices(devices.drop_first()),
        }
    }
}

pub open spec fn kind_in_members(members: Seq<(String, Json)>) -> Option<Seq<char>>
    decreases members.len(),
{
    if members.len() == 0 {
        None
    } else {
        let here = if contains(lowercase(members[0].0@), "connected"@) {
            match members[0].1 {
                Json::Array(devices) => kind_in_devices(devices@),
                _ => None,
            }
        } else {
            None
        };
        match here {
            Some(k) => Some(k),
            None => kind_in_members(members.drop_first()),
        }
    }
}

/// Over the blocks in order; a block that is not an object ends the search
/// with nothing found.
pub open spec fn kind_in_blocks(blocks: Seq<Json>) -> Option<Seq<char>>
    decreases blocks.len(),
{
    if blocks.len() == 0 {
        None
    } else {
        match blocks[0] {
            Json::Object(members) => match kind_in_members(members@) {
                Some(k) => Some(k),
                None => kind_in_blocks(blocks.drop_first()),
            },
            _ => None,
        }
    }
}

pub open spec fn connected_input(root: Json) -> Option<Seq<char>> {
    match get(root, "SPBluetoothDataType"@) {
        Some(Json::Array(blocks)) => kind_in_blocks(blocks@),
        _ => None,
    }
}

pub open spec fn str_view(o: Option<&'static str>) -> Option<Seq<char>> {
    match o {
        Some(s) => Some(s@),
        None => None,
    }
}

fn kind_of(minor: &[char]) -> (r: Option<&'static str>)
    ensures
        str_view(r) == input_kind(minor@),
{
    if eq_ignore_case(minor, chars_of("Keyboard").as_slice()) {
        Some("keyboard")
    } else if eq_ignore_case(minor, chars_of("Mouse").as_slice()) {
        Some("mouse")
    } else if eq_ignore_case(minor, chars_of("Trackpad").as_slice()) {
        Some("trackpad")
    } else if eq_ignore_case(minor, chars_of("Tablet").as_slice()) {
        Some("tablet")
    } else {
        None
    }
}

fn minor_of(info: &Json) -> (r: Vec<char>)
    ensures
        r@ == minor_type(*info),
{
    match info.get("device_minorType") {
        Some(v) => match v.as_str() {
            Some(s) => chars_of(s),
            None => Vec::new(),
        },
        None => Vec::new(),
    }
}

fn kind_among_fields(fields: &Vec<(String, Json)>) -> (r: Option<&'static str>)
    ensures
        str_view(r) == kind_in_fields(fields@),
{
    assert(fields@.subrange(0, fields@.len() as int) =~= fields@);
    let mut i: usize = 0;
    while i < fields.len()
        invariant
            i <= fields.len(),
            kind_in_fields(fields@) == kind_in_fields(fields@.subrange(i as int, fields@.len() as int)),
        decreases fields.len() - i,
    {
        let ghost rest = fields@.subrange(i as int, fields@.len() as int);
        assert(rest.drop_first() =~= fields@.subrange(i + 1, fields@.len() as int));
        let minor = minor_of(&fields[i].1);
        let k = kind_of(minor.as_slice());
        if k.is_some() {
            return k;
        }
        i += 1;
    }
    None
}

fn kind_among_devices(devices: &Vec<Json>) -> (r: Option<&'static str>)
    ensures
        str_view(r) == kind_in_devices(devices@),
{
    assert(devices@.subrange(0, devices@.len() as int) =~= devices@);
    let mut i: usize = 0;
    while i < devices.len()
        invariant
            i <= devices.len(),
            kind_in_devices(devices@) == kind_in_devices(devices@.subrange(i as int, devices@.len() as int)),
        decreases devices.len() - i,
    {
        let ghost rest = devices@.subrange(i as int, devices@.len() as int);
        assert(rest.drop_first() =~= devices@.subrange(i + 1, devices@.len() as int));
        if let Some(fields) = devices[i].as_object() {
            let k = kind_among_fields(fields);
            if k.is_some() {
                return k;
            }
        }
        i += 1;
    }
    None
}

fn kind_among_members(members: &Vec<(String, Json)>) -> (r: Option<&'static str>)
    ensures
        str_view(r) == kind_in_members(members@),
{
    let connected = chars_of("connected");
    assert(members@.subrange(0, members@.len() as int) =~= members@);
    let mut i: usize = 0;
    while i < members.len()
        invariant
            i <= members.len(),
            connected@ == "connected"@,
            kind_in_members(members@) == kind_in_members(members@.subrange(i as int, members@.len() as int)),
        decreases members.len() - i,
    {
        let ghost rest = members@.subrange(i as int, members@.len() as int);
        assert(rest.drop_first() =~= members@.subrange(i + 1, members@.len() as int));
        let key = lower_chars(chars_of(members[i].0.as_str()).as_slice());
        if has(key.as_slice(), connected.as_slice()) {
            if let Some(devices) = members[i].1.as_array() {
                let k = kind_among_devices(devices);
                if k.is_some() {
                    return k;
                }
            }
        }
        i += 1;
    }
    None
}

/// The kind of the first connected Bluetooth input device, in lower case:
/// keyboard, mouse, trackpad or tablet. Matched on `device_minorType`,
/// ignoring ASCII case; anything else connected is ignored.
pub fn connected_input_device(root: &Json) -> (r: Option<String>)
    ensures
        r matches Some(s) ==> connected_input(*root) == Some(s@),
        r is None ==> connected_input(*root) is None,
{
    let blocks = match root.get("SPBluetoothDataType") {
        Some(v) => match v.as_array() {
            Some(b) => b,
            None => return None,
        },
        None => return None,
    };
    assert(blocks@.subrange(0, blocks@.len() as int) =~= blocks@);
    let mut i: usize = 0;
    while i < blocks.len()
        invariant
            i <= blocks.len(),
            connected_input(*root) == kind_in_blocks(blocks@.subrange(i as int, blocks@.len() as int)),
        decreases blocks.len() - i,
    {
        let ghost rest = blocks@.subrange(i as int, blocks@.len() as int);
        assert(rest.drop_first() =~= blocks@.subrange(i + 1, blocks@.len() as int));
        match blocks[i].as_object() {
            Some(members) => {
                if let Some(k) = kind_among_members(members) {
                    return Some(k.to_owned());
                }
            },
            None => return None,
        }
        i += 1;
    }
    None
}

// ---------------------------------------------------------------------------
// The decision
// ---------------------------------------------------------------------------

pub open spec fn unreadable_devices_message() -> Seq<char> {
    "Spiral Clean could not read your Bluetooth devices, so it will not restart Bluetooth. Restart it from Control Centre instead."@
}

pub open spec fn input_device_message(kind: Seq<char>) -> Seq<char> {
    "Your "@ + kind
        + " connects over Bluetooth. Restarting Bluetooth would disconnect it, so Spiral Clean will not do it."@
}

pub open spec fn no_keyboard_message() -> Seq<char> {
    "This Mac has no built-in keyboard, so restarting Bluetooth could leave you unable to control it. Restart Bluetooth from Control Centre instead."@
}

/// Why the reset must not happen, from what the two tools printed.
/// `profiler_ran` is whether `system_profiler` ran at all; `profile` is its
/// output when it parsed. `ioreg_dump` is absent when `ioreg` failed.
pub open spec fn refusal(profiler_ran: bool, profile: Option<Json>, ioreg_dump: Option<Seq<char>>) -> Option<Seq<char>> {
    if !profiler_ran {
        Some(unreadable_devices_message())
    } else {
        let device = match profile {
            Some(j) => connected_input(j),
            None => None,
        };
        match device {
            Some(kind) => Some(input_device_message(kind)),
            None => {
                let keyboard = match ioreg_dump {
                    Some(d) => describes_built_in_keyboard(d),
                    None => false,
                };
                if keyboard { None } else { Some(no_keyboard_message()) }
            },
        }
    }
}

pub open spec fn opt_str(o: Option<&str>) -> Option<Seq<char>> {
    match o {
        Some(s) => Some(s@),
        None => None,
    }
}

pub open spec fn opt_json(o: Option<&Json>) -> Option<Json> {
    match o {
        Some(j) => Some(*j),
        None => None,
    }
}

pub open spec fn opt_string(o: Option<String>) -> Option<Seq<char>> {
    match o {
        Some(s) => Some(s@),
        None => None,
    }
}

/// The Bluetooth guard's answer: the reason the reset may not run now, if
/// it may not.
pub fn bluetooth_reset_refusal_from(
    profiler_ran: bool,
    profile: Option<&Json>,
    ioreg_dump: Option<&str>,
) -> (r: Option<String>)
    ensures
        opt_string(r) == refusal(profiler_ran, opt_json(profile), opt_str(ioreg_dump)),
{
    if !profiler_ran {
        return Some(
            "Spiral Clean could not read your Bluetooth devices, so it will not restart Bluetooth. Restart it from Control Centre instead.".to_owned(),
        );
    }
    let device = match profile {
        Some(j) => connected_input_device(j),
        None => None,
    };
    if let Some(kind) = device {
        let mut m = chars_of("Your ");
        push_str(&mut m, kind.as_str());
        push_str(
            &mut m,
            " connects over Bluetooth. Restarting Bluetooth would disconnect it, so Spiral Clean will not do it.",
        );
        return Some(string_of(m.as_slice()));
    }
    let keyboard = match ioreg_dump {
        Some(d) => built_in_keyboard_in(d),
        None => false,
    };
    if keyboard {
        None
    } else {
        Some(
            "This Mac has no built-in keyboard, so restarting Bluetooth could leave you unable to control it. Restart Bluetooth from Control Centre instead.".to_owned(),
        )
    }
}

} // verus!
