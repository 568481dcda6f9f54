//! Associates on-disk files under `~/Library` with an installed app, by
//! bundle id or by display name, so a later `AppBundle` justification has
//! real evidence behind it instead of a caller's bare claim.
//!
//! Read-only: this classifies what a listing of a fixed, bounded set of
//! locations holds, one level deep. Listing them is the caller's work.

use crate::paths::{starts_with_case_insensitive, starts_with_ci};
use crate::remove::types::Evidence;
use crate::text::{
    chars_of, eq_ignore_ascii_case, eq_ignore_case, has_prefix, lower_chars, lowercase, seq_eq,
    starts_with,
};
use vstd::prelude::*;

verus! {

/// The `~/Library` subdirectories checked for an app's files, each read one
/// level deep. This list is the search: nothing outside it is looked at.
pub open spec fn locations_spec() -> Seq<Seq<char>> {
    seq![
        "Application Support"@,
        "Preferences"@,
        "Caches"@,
        "Containers"@,
        "Group Containers"@,
        "Saved Application State"@,
        "LaunchAgents"@,
        "Logs"@,
        "HTTPStorages"@,
        "WebKit"@,
    ]
}

pub fn locations() -> (r: Vec<&'static str>)
    ensures
        r@.map_values(|s: &'static str| s@) == locations_spec(),
{
    let mut r: Vec<&'static str> = Vec::new();
    r.push("Application Support");
    r.push("Preferences");
    r.push("Caches");
    r.push("Containers");
    r.push("Group Containers");
    r.push("Saved Application State");
    r.push("LaunchAgents");
    r.push("Logs");
    r.push("HTTPStorages");
    r.push("WebKit");
    assert(r@.map_values(|s: &'static str| s@) =~= locations_spec());
    r
}

/// App display names that belong to Apple. A third-party app sharing one
/// must never be matched to Apple's data by name.
pub open spec fn apple_owned_names() -> Seq<Seq<char>> {
    seq![
        "Mail"@, "Safari"@, "Music"@, "TV"@, "Photos"@, "Notes"@, "Reminders"@, "Calendar"@,
        "Messages"@, "FaceTime"@, "Contacts"@, "Maps"@, "News"@, "Podcasts"@, "Home"@, "Books"@,
        "Shortcuts"@, "Freeform"@,
    ]
}

fn apple_owned_list() -> (r: Vec<&'static str>)
    ensures
        r@.map_values(|s: &'static str| s@) == apple_owned_names(),
{
    let mut r: Vec<&'static str> = Vec::new();
    r.push("Mail");
    r.push("Safari");
    r.push("Music");
    r.push("TV");
    r.push("Photos");
    r.push("Notes");
    r.push("Reminders");
    r.push("Calendar");
    r.push("Messages");
    r.push("FaceTime");
    r.push("Contacts");
    r.push("Maps");
    r.push("News");
    r.push("Podcasts");
    r.push("Home");
    r.push("Books");
    r.push("Shortcuts");
    r.push("Freeform");
    assert(r@.map_values(|s: &'static str| s@) =~= apple_owned_names());
    r
}

pub open spec fn apple_bundle_id(id: Seq<char>) -> bool {
    starts_with(lowercase(id), "com.apple."@)
}

/// Apple's own bundle ids (`com.apple.*`, in any case). Such an app is
/// refused before any search happens.
pub fn is_apple_bundle_id(bundle_id: &str) -> (r: bool)
    ensures
        r == apple_bundle_id(bundle_id@),
{
    let l = lower_chars(chars_of(bundle_id).as_slice());
    has_prefix(l.as_slice(), chars_of("com.apple.").as_slice())
}

/// The three shapes of a name that is evidence of the bundle id itself, in
/// any case: the id, the id followed by `.` and more, or exactly
/// `group.<id>`. Not a substring test: `com.example.foo` is a prefix of
/// `com.example.foobar`, a different app.
pub open spec fn carries_bundle_id(name: Seq<char>, bundle_id: Seq<char>) -> bool {
    let n = lowercase(name);
    let i = lowercase(bundle_id);
    bundle_id.len() > 0 && (n == i || starts_with(n, i + "."@) || n == "group."@ + i)
}

pub fn name_carries_bundle_id(name: &str, bundle_id: &str) -> (r: bool)
    ensures
        r == carries_bundle_id(name@, bundle_id@),
{
    if chars_of(bundle_id).len() == 0 {
        return false;
    }
    let n = lower_chars(chars_of(name).as_slice());
    let i = lower_chars(chars_of(bundle_id).as_slice());
    let mut dotted = i.clone();
    dotted.push('.');
    assert(dotted@ == i@ + "."@) by {
        reveal_strlit(".");
        assert(dotted@ =~= i@ + "."@);
    }
    let mut group = chars_of("group.");
    let mut k: usize = 0;
    while k < i.len()
        invariant
            k <= i.len(),
            group@ == "group."@ + i@.take(k as int),
        decreases i.len() - k,
    {
        group.push(i[k]);
        assert(i@.take(k + 1) =~= i@.take(k as int).push(i@[k as int]));
        k += 1;
    }
    assert(i@.take(i@.len() as int) =~= i@);
    seq_eq(n.as_slice(), i.as_slice()) || has_prefix(n.as_slice(), dotted.as_slice()) || seq_eq(
        n.as_slice(),
        group.as_slice(),
    )
}

/// The entry is the app's name as a whole component, ignoring case: `Foo`
/// matches `foo`, never `Foo Helper` or `FooBar`.
pub open spec fn names_app(entry: Seq<char>, app_name: Seq<char>) -> bool {
    app_name.len() > 0 && starts_with_ci(entry, app_name) && starts_with_ci(app_name, entry)
}

pub fn matches_app_name(entry_name: &str, app_name: &str) -> (r: bool)
    ensures
        r == names_app(entry_name@, app_name@),
{
    if chars_of(app_name).len() == 0 {
        return false;
    }
    starts_with_case_insensitive(entry_name, app_name) && starts_with_case_insensitive(
        app_name,
        entry_name,
    )
}

pub open spec fn apple_owned(name: Seq<char>) -> bool {
    exists|i: int|
        0 <= i < apple_owned_names().len() && eq_ignore_ascii_case(#[trigger] apple_owned_names()[i], name)
}

/// One of Apple's own app names, ignoring ASCII case.
pub fn is_apple_owned(name: &str) -> (r: bool)
    ensures
        r == apple_owned(name@),
{
    let owned = apple_owned_list();
    let n = chars_of(name);
    let ghost names = apple_owned_names();
    let mut i: usize = 0;
    while i < owned.len()
        invariant
            owned@.map_values(|s: &'static str| s@) == names,
            names == apple_owned_names(),
            n@ == name@,
            i <= owned.len(),
            forall|j: int| 0 <= j < i ==> !eq_ignore_ascii_case(#[trigger] names[j], name@),
        decreases owned.len() - i,
    {
        assert(owned@[i as int]@ == names[i as int]);
        if eq_ignore_case(chars_of(owned[i]).as_slice(), n.as_slice()) {
            return true;
        }
        i += 1;
    }
    false
}

/// What a name is evidence of: the bundle id itself, or the app's name
/// where that name is not one of Apple's.
pub open spec fn classification(name: Seq<char>, bundle_id: Seq<char>, app_name: Seq<char>) -> Option<Evidence> {
    if carries_bundle_id(name, bundle_id) {
        Some(Evidence::Verified)
    } else if names_app(name, app_name) && !apple_owned(name) {
        Some(Evidence::Likely)
    } else {
        None
    }
}

pub fn classify(name: &str, bundle_id: &str, app_name: &str) -> (r: Option<Evidence>)
    ensures
        r == classification(name@, bundle_id@, app_name@),
{
    if name_carries_bundle_id(name, bundle_id) {
        Some(Evidence::Verified)
    } else if matches_app_name(name, app_name) && !is_apple_owned(name) {
        Some(Evidence::Likely)
    } else {
        None
    }
}

/// An entry found one level inside one of the locations.
pub struct Listed {
    pub path: String,
    /// Its own name, the last component of `path`.
    pub name: String,
    pub bytes: u64,
}

#[derive(Debug, Clone, PartialEq)]
pub struct Associated {
    pub path: String,
    pub bytes: u64,
    pub evidence: Evidence,
}

pub open spec fn associated_view(a: Associated) -> (Seq<char>, u64, Evidence) {
    (a.path@, a.bytes, a.evidence)
}

/// The listed entries that are evidence of the app, in listing order; none
/// at all for an Apple bundle id.
pub open spec fn associated_in(bundle_id: Seq<char>, app_name: Seq<char>, listed: Seq<Listed>) -> Seq<(Seq<char>, u64, Evidence)>
    decreases listed.len(),
{
    if apple_bundle_id(bundle_id) || listed.len() == 0 {
        Seq::empty()
    } else {
        let prev = associated_in(bundle_id, app_name, listed.drop_last());
        let e = listed.last();
        match classification(e.name@, bundle_id, app_name) {
            Some(ev) => prev.push((e.path@, e.bytes, ev)),
            None => prev,
        }
    }
}

/// Every listed entry that is evidence of `bundle_id` or `app_name`, with
/// the evidence it carries.
pub fn associate(bundle_id: &str, app_name: &str, listed: Vec<Listed>) -> (r: Vec<Associated>)
    ensures
        r@.map_values(|a: Associated| associated_view(a)) == associated_in(bundle_id@, app_name@, listed@),
{
    let mut found: Vec<Associated> = Vec::new();
    if is_apple_bundle_id(bundle_id) {
        assert(found@.map_values(|a: Associated| associated_view(a)) =~= Seq::<(Seq<char>, u64, Evidence)>::empty());
        return found;
    }
    let n = listed.len();
    let ghost all = listed@;
    let mut rest = listed;
    let mut k: usize = 0;
    assert(all.take(0) =~= Seq::<Listed>::empty());
    while rest.len() > 0
        invariant
            !apple_bundle_id(bundle_id@),
            k + rest@.len() == all.len(),
            all.len() <= usize::MAX,
            rest@ == all.subrange(k as int, all.len() as int),
            found@.map_values(|a: Associated| associated_view(a)) == associated_in(
                bundle_id@,
                app_name@,
                all.take(k as int),
            ),
        decreases rest.len(),
    {
        let e = rest.remove(0);
        assert(e == all[k as int]);
        assert(all.take(k + 1).drop_last() =~= all.take(k as int));
        assert(all.take(k + 1).last() == e);
        let ghost before = found@;
        match classify(e.name.as_str(), bundle_id, app_name) {
            Some(evidence) => {
                let a = Associated { path: e.path, bytes: e.bytes, evidence };
                found.push(a);
                assert(found@.map_values(|a: Associated| associated_view(a)) =~= before.map_values(
                    |a: Associated| associated_view(a),
                ).push(associated_view(a)));
            },
            None => {},
        }
        k += 1;
        assert(rest@ =~= all.subrange(k as int, all.len() as int));
    }
    assert(all.take(all.len() as int) =~= all);
    found
}

} // verus!
