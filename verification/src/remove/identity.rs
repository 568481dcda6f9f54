//! Whether a path is what a justification claims it is — answered from
//! something the path cannot forge: its own name, its own `Info.plist`, or
//! its location.

use crate::fsview::{fs_view, lookup, normalized, FsView, ProbeView};
use crate::paths::{
    has_extension, has_extension_exec, parent, parent_exec, parts_view, same_path, same_path_exec,
    Parts,
};
use crate::text::{
    chars_of, eq_ignore_ascii_case, eq_ignore_case, has_prefix, lower_chars, lowercase, seq_eq,
    starts_with,
};
use vstd::prelude::*;

verus! {

/// A name carries a bundle id only at a component boundary: equal to it,
/// equal to it plus a `.`-separated suffix, or exactly `group.` plus it —
/// never a bare prefix, so `com.example.foo` never explains
/// `com.example.foobar`. An empty id matches nothing.
pub open spec fn name_matches(name: Seq<char>, bundle_id: Seq<char>) -> bool {
    let n = lowercase(name);
    let id = lowercase(bundle_id);
    bundle_id.len() > 0 && (n == id || starts_with(n, id.push('.')) || n == "group."@ + id)
}

/// Apple's own bundle identifiers all live beneath `com.apple.`.
pub open spec fn apple_bundle_id(bundle_id: Seq<char>) -> bool {
    starts_with(lowercase(bundle_id), "com.apple."@)
}

/// The path is a real `.app` directory — never a symlink — whose own
/// `Info.plist` declares `bundle_id`.
pub open spec fn declares_id(fs: Seq<ProbeView>, path: Seq<char>, bundle_id: Seq<char>) -> bool {
    &&& bundle_id.len() > 0
    &&& normalized(fs, path) matches Some(n) && has_extension(n, "app"@)
    &&& lookup(fs, path).real_dir
    &&& lookup(fs, path).bundle_id matches Some(d) && eq_ignore_ascii_case(d, bundle_id)
}

/// A `.plist` sitting directly inside `agents` — direct child, not
/// descendant: launchd reads only the top level.
pub open spec fn user_launch_agent(n: Parts, agents: Parts) -> bool {
    has_extension(n, "plist"@) && (parent(n) matches Some(p) && same_path(p, agents))
}

/// A direct child of the backup folder: one backup is one directory.
pub open spec fn device_backup(n: Parts, backups: Parts) -> bool {
    parent(n) matches Some(p) && same_path(p, backups)
}

/// True when `name` is the final component of a path that a `Verified`
/// claim for `bundle_id` may legitimately explain.
pub fn verified_name_matches(name: &str, bundle_id: &str) -> (r: bool)
    ensures
        r == name_matches(name@, bundle_id@),
{
    let b = chars_of(bundle_id);
    if b.len() == 0 {
        return false;
    }
    let nc = chars_of(name);
    let n = lower_chars(&nc);
    let id = lower_chars(&b);
    assert(id@ == lowercase(bundle_id@));
    if seq_eq(&n, &id) {
        return true;
    }
    let mut dotted = crate::text::slice(&id, 0, id.len());
    dotted.push('.');
    assert(dotted@ =~= id@.push('.'));
    if has_prefix(&n, &dotted) {
        return true;
    }
    let mut group = chars_of("group.");
    let mut rest = crate::text::slice(&id, 0, id.len());
    let ghost g0 = group@;
    group.append(&mut rest);
    assert(group@ =~= "group."@ + lowercase(bundle_id@));
    assert(n@ == lowercase(name@));
    seq_eq(&n, &group)
}

/// True when `bundle_id` is one of Apple's own. A bar at the removal
/// boundary: unconditional, whatever the evidence.
pub fn is_apple_bundle_id(bundle_id: &str) -> (r: bool)
    ensures
        r == apple_bundle_id(bundle_id@),
{
    let l = lower_chars(&chars_of(bundle_id));
    let p = chars_of("com.apple.");
    has_prefix(&l, &p)
}

/// True when `path` is itself an application bundle that declares
/// `bundle_id` as its own `CFBundleIdentifier` — verification, not
/// assertion: the declared id comes from the bundle, never the caller.
pub fn bundle_declares_id(path: &str, bundle_id: &str, fs: &FsView) -> (r: bool)
    ensures
        r == declares_id(fs_view(fs), path@, bundle_id@),
{
    let b = chars_of(bundle_id);
    if b.len() == 0 {
        return false;
    }
    let normalized = match fs.normalize(path) {
        Some(n) => n,
        None => return false,
    };
    if !has_extension_exec(&normalized, "app") {
        return false;
    }
    if !fs.real_dir(path) {
        return false;
    }
    match fs.bundle_id(path) {
        Some(d) => {
            let dc = chars_of(d.as_str());
            eq_ignore_case(&dc, &b)
        },
        None => false,
    }
}

/// Whether `normalized` is a `.plist` sitting directly inside `agents`.
pub fn is_user_launch_agent(normalized: &Vec<Vec<char>>, agents: &Vec<Vec<char>>) -> (r: bool)
    ensures
        r == user_launch_agent(parts_view(normalized@), parts_view(agents@)),
{
    if !has_extension_exec(normalized, "plist") {
        return false;
    }
    match parent_exec(normalized) {
        Some(p) => same_path_exec(&p, agents),
        None => false,
    }
}

/// Whether `normalized` is a direct child of the backup folder.
pub fn is_device_backup(normalized: &Vec<Vec<char>>, backups: &Vec<Vec<char>>) -> (r: bool)
    ensures
        r == device_backup(parts_view(normalized@), parts_view(backups@)),
{
    match parent_exec(normalized) {
        Some(p) => same_path_exec(&p, backups),
        None => false,
    }
}

} // verus!
