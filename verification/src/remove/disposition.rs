//! The decision: Trash, permanent, or refused — and why. A caller's
//! justification is re-checked here, never believed.

use super::identity::{
    apple_bundle_id, bundle_declares_id, declares_id, device_backup, is_apple_bundle_id,
    is_device_backup, is_user_launch_agent, name_matches, user_launch_agent, verified_name_matches,
};
use super::roots::{
    is_within_app_bundle_scope, is_within_catalog_entry, library_container, relocated_roots, relocated_spec,
    within_app_bundle_scope_spec, within_catalog_entry_spec, Roots, RootsView,
};
use super::types::{Evidence, JustView, Justification, just_view};
use crate::catalog::{find, find_spec, Disposition};
use crate::fsview::{fs_view, normalized, FsView, ProbeView};
use crate::paths::{file_name, file_name_exec};
use crate::text::{chars_of, push_str, string_of};
use vstd::prelude::*;

verus! {

/// `path`'s resolved name carries `bundle_id` at a component boundary.
pub open spec fn carries_id(fs: Seq<ProbeView>, path: Seq<char>, bundle_id: Seq<char>) -> bool {
    normalized(fs, path) matches Some(n) && (file_name(n) matches Some(name) && name_matches(
        name,
        bundle_id,
    ))
}

pub open spec fn join_notes(notes: Seq<Seq<char>>) -> Seq<char>
    decreases notes.len(),
{
    if notes.len() == 0 {
        Seq::empty()
    } else if notes.len() == 1 {
        notes[0]
    } else {
        join_notes(notes.drop_last()) + "; "@ + notes.last()
    }
}

pub open spec fn not_covered_message(path: Seq<char>, id: Seq<char>) -> Seq<char> {
    path + " is not covered by the \""@ + id + "\" category. Nothing was removed."@
}

pub open spec fn relocated_message(label: Seq<char>, notes: Seq<Seq<char>>) -> Seq<char> {
    "The \""@ + label
        + "\" category was skipped because it no longer resolves where Spiral Clean expects it: "@
        + join_notes(notes)
        + ". Spiral Clean only removes a category from the exact location it declares, so nothing was removed."@
}

pub open spec fn unknown_category_message(id: Seq<char>) -> Seq<char> {
    "\""@ + id + "\" is not a category in this release. Nothing was removed."@
}

pub open spec fn agents_missing_message() -> Seq<char> {
    "Your LaunchAgents folder does not resolve where macOS keeps it, so Spiral Clean will not remove anything from it. Nothing was removed."@
}

pub open spec fn not_agent_message(path: Seq<char>) -> Seq<char> {
    path
        + " is not a login item file in your LaunchAgents folder, so Spiral Clean will not remove it. Nothing was removed."@
}

pub open spec fn apple_message(id: Seq<char>) -> Seq<char> {
    "\""@ + id
        + "\" is one of Apple's own bundle identifiers, and Spiral Clean never removes Apple software or the data belonging to it — a third-party bundle can claim any identifier it likes. Nothing was removed. Remove Apple software through the App Store or System Settings instead."@
}

pub open spec fn out_of_scope_message(path: Seq<char>) -> Seq<char> {
    path
        + " is outside the locations an app uninstall may touch. Only the app bundle and its own support files can be removed."@
}

pub open spec fn empty_id_message(path: Seq<char>) -> Seq<char> {
    path
        + " was claimed as a verified app-bundle item with an empty bundle id, which cannot be checked against anything. Nothing was removed."@
}

pub open spec fn unproven_message(path: Seq<char>, id: Seq<char>) -> Seq<char> {
    path + " neither carries the bundle id \""@ + id
        + "\" in its name nor declares it as its own CFBundleIdentifier. A verified app-bundle claim must be provable from the path itself, so nothing was removed."@
}

pub open spec fn orphan_message(path: Seq<char>, id: Seq<char>) -> Seq<char> {
    path + " does not carry the bundle id \""@ + id
        + "\" in its name, so the claim that it belongs to that app cannot be verified. Nothing was removed."@
}

pub open spec fn backups_missing_message() -> Seq<char> {
    "Your iOS backup folder does not resolve where macOS keeps it, so Spiral Clean will not remove anything from it. Nothing was removed."@
}

pub open spec fn not_backup_message(path: Seq<char>) -> Seq<char> {
    path
        + " is not a device backup in your MobileSync folder, so Spiral Clean will not remove it. Nothing was removed."@
}

/// The disposition a justification earns for `path`, or why it earns none.
///
/// Two routes reach `Permanent`: a `Catalog` match whose path lies under
/// that entry's own roots, and a `Verified` `AppBundle` claim the path
/// itself proves. Everything else is `Trash` or refused.
pub open spec fn disposition_spec(fs: Seq<ProbeView>, path: Seq<char>, j: JustView, r: RootsView) -> Result<
    Disposition,
    Seq<char>,
> {
    match j {
        JustView::Catalog(id) => match find_spec(id) {
            Some(e) => if (normalized(fs, path) matches Some(n) && within_catalog_entry_spec(
                fs,
                n,
                e,
                r.home,
            )) {
                Ok(e.disposition)
            } else {
                let notes = relocated_spec(fs, e.roots, r.home);
                if notes.len() == 0 {
                    Err(not_covered_message(path, id))
                } else {
                    Err(relocated_message(e.label, notes))
                }
            },
            None => Err(unknown_category_message(id)),
        },
        JustView::StartupItem => match r.startup_agents {
            None => Err(agents_missing_message()),
            Some(agents) => if (normalized(fs, path) matches Some(n) && user_launch_agent(n, agents)) {
                Ok(Disposition::Trash)
            } else {
                Err(not_agent_message(path))
            },
        },
        JustView::AppBundle(id, evidence) => if apple_bundle_id(id) {
            Err(apple_message(id))
        } else if !within_app_bundle_scope_spec(fs, path, r) {
            Err(out_of_scope_message(path))
        } else {
            match evidence {
                Evidence::Likely => Ok(Disposition::Trash),
                Evidence::Verified => if id.len() == 0 {
                    Err(empty_id_message(path))
                } else if carries_id(fs, path, id) || declares_id(fs, path, id) {
                    Ok(Disposition::Permanent)
                } else {
                    Err(unproven_message(path, id))
                },
            }
        },
        JustView::Orphan(id) => if carries_id(fs, path, id) {
            Ok(Disposition::Trash)
        } else {
            Err(orphan_message(path, id))
        },
        JustView::DeviceBackup => match r.device_backups {
            None => Err(backups_missing_message()),
            Some(backups) => if (normalized(fs, path) matches Some(n) && device_backup(n, backups)) {
                Ok(Disposition::Trash)
            } else {
                Err(not_backup_message(path))
            },
        },
    }
}

pub open spec fn disposition_view(r: Result<Disposition, String>) -> Result<Disposition, Seq<char>> {
    match r {
        Ok(d) => Ok(d),
        Err(e) => Err(e@),
    }
}

fn carries_bundle_id(path: &str, bundle_id: &str, fs: &FsView) -> (r: bool)
    ensures
        r == carries_id(fs_view(fs), path@, bundle_id@),
{
    match fs.normalize(path) {
        Some(n) => match file_name_exec(&n) {
            Some(name) => {
                let name = string_of(&name);
                verified_name_matches(name.as_str(), bundle_id)
            },
            None => false,
        },
        None => false,
    }
}

fn join_notes_exec(notes: &Vec<String>) -> (r: Vec<char>)
    ensures
        r@ == join_notes(notes@.map_values(|s: String| s@)),
{
    let ghost nv = notes@.map_values(|s: String| s@);
    let mut out: Vec<char> = Vec::new();
    let mut i: usize = 0;
    while i < notes.len()
        invariant
            nv == notes@.map_values(|s: String| s@),
            i <= notes.len(),
            out@ == join_notes(nv.subrange(0, i as int)),
        decreases notes.len() - i,
    {
        let ghost pre = nv.subrange(0, i + 1);
        proof {
            assert(pre.drop_last() =~= nv.subrange(0, i as int));
            assert(pre.last() == notes@[i as int]@);
        }
        if i > 0 {
            push_str(&mut out, "; ");
        }
        push_str(&mut out, notes[i].as_str());
        proof {
            if i == 0 {
                assert(out@ =~= join_notes(pre));
            } else {
                assert(out@ =~= join_notes(pre));
            }
        }
        i += 1;
    }
    assert(nv.subrange(0, nv.len() as int) =~= nv);
    out
}

fn with_path(path: &str, tail: &str) -> (r: String)
    ensures
        r@ == path@ + tail@,
{
    let mut v = chars_of(path);
    push_str(&mut v, tail);
    string_of(&v)
}

fn quoted_id(head: &str, id: &str, tail: &str) -> (r: String)
    ensures
        r@ == head@ + id@ + tail@,
{
    let mut v = chars_of(head);
    push_str(&mut v, id);
    push_str(&mut v, tail);
    string_of(&v)
}

fn path_id(path: &str, mid: &str, id: &str, tail: &str) -> (r: String)
    ensures
        r@ == path@ + mid@ + id@ + tail@,
{
    let mut v = chars_of(path);
    push_str(&mut v, mid);
    push_str(&mut v, id);
    push_str(&mut v, tail);
    string_of(&v)
}

/// Disposition is derived here, never supplied by the caller.
pub fn disposition_for(path: &str, j: &Justification, roots: &Roots, fs: &FsView) -> (r: Result<
    Disposition,
    String,
>)
    ensures
        disposition_view(r) == disposition_spec(fs_view(fs), path@, just_view(*j), roots.view()),
{
    match j {
        Justification::Catalog(id) => match find(id.as_str()) {
            Some(entry) => {
                let inside = match fs.normalize(path) {
                    Some(n) => is_within_catalog_entry(&n, &entry, roots, fs),
                    None => false,
                };
                if inside {
                    Ok(entry.disposition)
                } else {
                    let relocated = relocated_roots(&entry, roots.home.as_str(), fs);
                    if relocated.len() == 0 {
                        Err(path_id(path, " is not covered by the \"", id.as_str(), "\" category. Nothing was removed."))
                    } else {
                        let mut v = chars_of("The \"");
                        push_str(&mut v, entry.label);
                        push_str(&mut v, "\" category was skipped because it no longer resolves where Spiral Clean expects it: ");
                        let mut notes = join_notes_exec(&relocated);
                        v.append(&mut notes);
                        push_str(&mut v, ". Spiral Clean only removes a category from the exact location it declares, so nothing was removed.");
                        Err(string_of(&v))
                    }
                }
            },
            None => Err(quoted_id("\"", id.as_str(), "\" is not a category in this release. Nothing was removed.")),
        },
        Justification::StartupItem => match &roots.startup_agents {
            None => Err("Your LaunchAgents folder does not resolve where macOS keeps it, so Spiral Clean will not remove anything from it. Nothing was removed.".to_owned()),
            Some(agents) => {
                let ok = match fs.normalize(path) {
                    Some(n) => is_user_launch_agent(&n, agents),
                    None => false,
                };
                if ok {
                    Ok(Disposition::Trash)
                } else {
                    Err(with_path(path, " is not a login item file in your LaunchAgents folder, so Spiral Clean will not remove it. Nothing was removed."))
                }
            },
        },
        Justification::AppBundle { bundle_id, evidence } => {
            if is_apple_bundle_id(bundle_id.as_str()) {
                return Err(quoted_id("\"", bundle_id.as_str(), "\" is one of Apple's own bundle identifiers, and Spiral Clean never removes Apple software or the data belonging to it — a third-party bundle can claim any identifier it likes. Nothing was removed. Remove Apple software through the App Store or System Settings instead."));
            }
            if !is_within_app_bundle_scope(path, roots, fs) {
                return Err(with_path(path, " is outside the locations an app uninstall may touch. Only the app bundle and its own support files can be removed."));
            }
            match evidence {
                Evidence::Likely => Ok(Disposition::Trash),
                Evidence::Verified => {
                    let c = chars_of(bundle_id.as_str());
                    if c.len() == 0 {
                        return Err(with_path(path, " was claimed as a verified app-bundle item with an empty bundle id, which cannot be checked against anything. Nothing was removed."));
                    }
                    if carries_bundle_id(path, bundle_id.as_str(), fs) || bundle_declares_id(path, bundle_id.as_str(), fs) {
                        Ok(Disposition::Permanent)
                    } else {
                        Err(path_id(path, " neither carries the bundle id \"", bundle_id.as_str(), "\" in its name nor declares it as its own CFBundleIdentifier. A verified app-bundle claim must be provable from the path itself, so nothing was removed."))
                    }
                },
            }
        },
        Justification::Orphan { bundle_id } => {
            if carries_bundle_id(path, bundle_id.as_str(), fs) {
                Ok(Disposition::Trash)
            } else {
                Err(path_id(path, " does not carry the bundle id \"", bundle_id.as_str(), "\" in its name, so the claim that it belongs to that app cannot be verified. Nothing was removed."))
            }
        },
        Justification::DeviceBackup => match &roots.device_backups {
            None => Err("Your iOS backup folder does not resolve where macOS keeps it, so Spiral Clean will not remove anything from it. Nothing was removed.".to_owned()),
            Some(backups) => {
                let ok = match fs.normalize(path) {
                    Some(n) => is_device_backup(&n, backups),
                    None => false,
                };
                if ok {
                    Ok(Disposition::Trash)
                } else {
                    Err(with_path(path, " is not a device backup in your MobileSync folder, so Spiral Clean will not remove it. Nothing was removed."))
                }
            },
        },
    }
}

// ---------------------------------------------------------------------------
// Laws
// ---------------------------------------------------------------------------

/// Permanent deletion has exactly two routes: a catalog entry whose own
/// roots cover the resolved path, or a verified app-bundle claim the path
/// itself proves (its name carries the id, or it is a real `.app` that
/// declares it) — and never for an Apple bundle id.
pub proof fn lemma_permanent_has_two_routes(fs: Seq<ProbeView>, path: Seq<char>, j: JustView, r: RootsView)
    requires
        disposition_spec(fs, path, j, r) == Ok::<Disposition, Seq<char>>(Disposition::Permanent),
    ensures
        (j matches JustView::Catalog(id) && find_spec(id) matches Some(e) && (normalized(fs, path) matches Some(n)
            && within_catalog_entry_spec(fs, n, e, r.home)))
        || (j matches JustView::AppBundle(id, ev) && ev == Evidence::Verified && !apple_bundle_id(id)
            && within_app_bundle_scope_spec(fs, path, r) && (carries_id(fs, path, id) || declares_id(fs, path, id))),
{
}

/// Startup items, orphans and device backups can only ever go to the Trash.
pub proof fn lemma_location_claims_only_trash(fs: Seq<ProbeView>, path: Seq<char>, j: JustView, r: RootsView)
    requires
        j is StartupItem || j is Orphan || j is DeviceBackup,
        disposition_spec(fs, path, j, r) is Ok,
    ensures
        disposition_spec(fs, path, j, r) == Ok::<Disposition, Seq<char>>(Disposition::Trash),
{
}

/// No app-bundle claim reaches `~/Library` itself or any immediate child of
/// it, whatever the child is called and at both evidence levels: such a
/// folder holds every app's state of one kind.
pub proof fn lemma_app_bundle_never_takes_a_library_container(
    fs: Seq<ProbeView>,
    path: Seq<char>,
    id: Seq<char>,
    ev: Evidence,
    r: RootsView,
)
    requires
        normalized(fs, path) matches Some(n) && library_container(n, r.library),
    ensures
        disposition_spec(fs, path, JustView::AppBundle(id, ev), r) is Err,
{
}

/// An Apple bundle id is refused at both evidence levels, wherever the
/// candidate sits.
pub proof fn lemma_apple_ids_are_refused(fs: Seq<ProbeView>, path: Seq<char>, id: Seq<char>, ev: Evidence, r: RootsView)
    requires
        apple_bundle_id(id),
    ensures
        disposition_spec(fs, path, JustView::AppBundle(id, ev), r) is Err,
{
}

} // verus!
