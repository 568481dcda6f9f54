//! iOS device backups: how one is described, the order they are listed in,
//! and what moving one to the Trash reports.
//!
//! A backup is one directory named for the device's UDID under
//! `~/Library/Application Support/MobileSync/Backup`. Its `Info.plist` names
//! the device and the date, which is all those fields do: removal is
//! authorised by the directory's location, never by a name read out of the
//! thing being removed. Trash, never permanent. Reading the folder and the
//! plists is the caller's work.

use crate::catalog::Disposition;
use crate::exclude::ExclusionList;
use crate::fsview::{fs_view, FsView};
use crate::order::{lemma_lex_total, lemma_lex_trans, lex_le, sort_by, sorted_by, text_le};
use crate::paths::{join, join_exec};
use crate::plist::{extract_plist_string, plist_string};
use crate::remove::execute::{execute, report_matches, verdict};
use crate::remove::roots::roots_spec;
use crate::remove::types::{just_view, Candidate, FailureKind, Justification, Outcome};
use crate::text::{chars_of, push_str, str_eq, string_of};
use vstd::prelude::*;

verus! {

pub open spec fn backup_root_rel() -> Seq<char> {
    "Library/Application Support/MobileSync/Backup"@
}

/// Where a home's device backups live.
pub fn root(home: &str) -> (r: String)
    ensures
        r@ == join(home@, backup_root_rel()),
{
    join_exec(home, "Library/Application Support/MobileSync/Backup")
}

#[derive(Debug, PartialEq, Eq, Clone)]
pub struct DeviceBackup {
    /// The directory name, the device UDID: the identity used to act.
    pub id: String,
    pub path: String,
    /// From `Info.plist`, or the UDID when it cannot be read. Display only.
    pub device_name: String,
    /// `Product Name` and `Product Version`, e.g. "iPhone 17 Pro Max, iOS 27.0".
    pub device_model: Option<String>,
    /// `Last Backup Date` verbatim. Display only.
    pub last_backup: Option<String>,
    pub bytes: u64,
}

pub open spec fn opt_string(o: Option<String>) -> Option<Seq<char>> {
    match o {
        Some(s) => Some(s@),
        None => None,
    }
}

/// "iPhone 17 Pro Max, iOS 27.0": whichever halves are present.
pub open spec fn device_description(info: Seq<char>) -> Option<Seq<char>> {
    match (plist_string(info, "Product Name"@), plist_string(info, "Product Version"@)) {
        (Some(name), Some(version)) => Some(name + ", iOS "@ + version),
        (Some(name), None) => Some(name),
        (None, Some(version)) => Some("iOS "@ + version),
        (None, None) => None,
    }
}

pub fn describe_device(info: &str) -> (r: Option<String>)
    ensures
        opt_string(r) == device_description(info@),
{
    let name = extract_plist_string(info, "Product Name");
    let version = extract_plist_string(info, "Product Version");
    match (name, version) {
        (Some(name), Some(version)) => {
            let mut v = chars_of(name.as_str());
            push_str(&mut v, ", iOS ");
            push_str(&mut v, version.as_str());
            Some(string_of(v.as_slice()))
        },
        (Some(name), None) => Some(name),
        (None, Some(version)) => {
            let mut v = chars_of("iOS ");
            push_str(&mut v, version.as_str());
            Some(string_of(v.as_slice()))
        },
        (None, None) => None,
    }
}

/// A backup directory as listed: named by its plist when it can be read,
/// by its UDID when it cannot. A backup with an unreadable plist is still
/// listed: it still occupies the space.
pub fn backup_from(id: String, path: String, info: &str, bytes: u64) -> (r: DeviceBackup)
    ensures
        r.id@ == id@,
        r.path@ == path@,
        r.device_name@ == match plist_string(info@, "Device Name"@) {
            Some(n) => n,
            None => id@,
        },
        opt_string(r.device_model) == device_description(info@),
        opt_string(r.last_backup) == plist_string(info@, "Last Backup Date"@),
        r.bytes == bytes,
{
    let device_name = match extract_plist_string(info, "Device Name") {
        Some(n) => n,
        None => id.clone(),
    };
    let device_model = describe_device(info);
    let last_backup = extract_plist_string(info, "Last Backup Date");
    DeviceBackup { id, path, device_name, device_model, last_backup, bytes }
}

/// Largest first, then by UDID, so the order is stable.
pub open spec fn listed_before(a: DeviceBackup, b: DeviceBackup) -> bool {
    a.bytes > b.bytes || (a.bytes == b.bytes && lex_le(a.id@, b.id@))
}

pub fn order_backups(found: Vec<DeviceBackup>) -> (r: Vec<DeviceBackup>)
    ensures
        r@.to_multiset() == found@.to_multiset(),
        sorted_by(r@, |a: DeviceBackup, b: DeviceBackup| listed_before(a, b)),
{
    let le = |a: &DeviceBackup, b: &DeviceBackup| -> (r: bool)
        ensures
            r == listed_before(*a, *b),
        { a.bytes > b.bytes || (a.bytes == b.bytes && text_le(a.id.as_str(), b.id.as_str())) };
    let ghost leq = |a: DeviceBackup, b: DeviceBackup| listed_before(a, b);
    proof {
        assert forall|a: DeviceBackup, b: DeviceBackup| #[trigger] leq(a, b) || leq(b, a) by {
            lemma_lex_total(a.id@, b.id@);
        }
        assert forall|a: DeviceBackup, b: DeviceBackup, c: DeviceBackup| #[trigger] leq(a, b) && #[trigger] leq(b, c)
            implies leq(a, c) by {
            if a.bytes == b.bytes && b.bytes == c.bytes {
                lemma_lex_trans(a.id@, b.id@, c.id@);
            }
        }
    }
    sort_by(found, &le, Ghost(leq))
}

// ---------------------------------------------------------------------------
// Moving one to the Trash
// ---------------------------------------------------------------------------

pub open spec fn gone_message() -> Seq<char> {
    "That backup is no longer there. Reopen Storage to see the current list."@
}

pub open spec fn excluded_message(entry: Seq<char>) -> Seq<char> {
    "That backup is on your exclusion list ("@ + entry + "), so it was left alone."@
}

pub open spec fn nothing_message() -> Seq<char> {
    "Nothing happened. Try again."@
}

/// What the user is told about the removal's report.
pub open spec fn removal_reply(o: Option<Outcome>) -> Result<(), Seq<char>> {
    match o {
        Some(Outcome::Removed(_)) => Ok(()),
        Some(Outcome::Excluded(entry)) => Err(excluded_message(entry@)),
        Some(Outcome::Denied(why)) => Err(why@),
        Some(Outcome::Failed(why)) => Err(why@),
        Some(Outcome::PartiallyRemoved(why)) => Err(why@),
        None => Err(nothing_message()),
    }
}

pub open spec fn reply_view(r: Result<(), String>) -> Result<(), Seq<char>> {
    match r {
        Ok(_) => Ok(()),
        Err(e) => Err(e@),
    }
}

pub fn reply_for(o: Option<&Outcome>) -> (r: Result<(), String>)
    ensures
        reply_view(r) == removal_reply(match o {
            Some(x) => Some(*x),
            None => None,
        }),
{
    match o {
        Some(Outcome::Removed(_)) => Ok(()),
        Some(Outcome::Excluded(entry)) => {
            let mut v = chars_of("That backup is on your exclusion list (");
            push_str(&mut v, entry.as_str());
            push_str(&mut v, "), so it was left alone.");
            Err(string_of(v.as_slice()))
        },
        Some(Outcome::Denied(why)) => Err(why.clone()),
        Some(Outcome::Failed(why)) => Err(why.clone()),
        Some(Outcome::PartiallyRemoved(why)) => Err(why.clone()),
        None => Err("Nothing happened. Try again.".to_owned()),
    }
}

/// The backup with this id in a fresh listing: the id is a reference to a
/// list, never a path to build.
pub open spec fn listed_with_id(listing: Seq<DeviceBackup>, id: Seq<char>) -> Option<DeviceBackup>
    decreases listing.len(),
{
    if listing.len() == 0 {
        None
    } else if listing[0].id@ == id {
        Some(listing[0])
    } else {
        listed_with_id(listing.drop_first(), id)
    }
}

fn find_listed(listing: &Vec<DeviceBackup>, id: &str) -> (r: Option<usize>)
    ensures
        match r {
            Some(i) => i < listing.len() && listed_with_id(listing@, id@) == Some(listing@[i as int]),
            None => listed_with_id(listing@, id@) is None,
        },
{
    assert(listing@.subrange(0, listing@.len() as int) =~= listing@);
    let mut i: usize = 0;
    while i < listing.len()
        invariant
            i <= listing.len(),
            listed_with_id(listing@, id@) == listed_with_id(listing@.subrange(i as int, listing@.len() as int), id@),
        decreases listing.len() - i,
    {
        let ghost rest = listing@.subrange(i as int, listing@.len() as int);
        assert(rest.drop_first() =~= listing@.subrange(i + 1, listing@.len() as int));
        if str_eq(listing[i].id.as_str(), id) {
            return Some(i);
        }
        i += 1;
    }
    None
}

/// Move the backup with this id, re-resolved from `listing`, to the Trash
/// through the removal boundary, under the device-backup justification. On
/// success the removed backup is handed back, for the log.
pub fn remove_listed<D: Fn(&str, Disposition) -> Result<(), FailureKind>>(
    listing: Vec<DeviceBackup>,
    id: &str,
    excl: &Result<ExclusionList, String>,
    home: &str,
    fs: &FsView,
    delete: &D,
) -> (r: Result<DeviceBackup, String>)
    requires
        forall|p: &str, how: Disposition| delete.requires((p, how)),
    ensures
        listed_with_id(listing@, id@) is None ==> (r matches Err(m) && m@ == gone_message()),
        listed_with_id(listing@, id@) matches Some(b) ==> exists|o: Outcome|
            {
                &&& report_matches(
                    *delete,
                    verdict(
                        fs_view(fs),
                        b.path@,
                        just_view(Justification::DeviceBackup),
                        match excl {
                            Ok(l) => Ok(l.view()),
                            Err(why) => Err(why@),
                        },
                        roots_spec(fs_view(fs), home@),
                    ),
                    b.path@,
                    o,
                )
                &&& match #[trigger] removal_reply(Some(o)) {
                    Ok(_) => r matches Ok(x) && x == b,
                    Err(m) => r matches Err(e) && e@ == m,
                }
            },
{
    let i = match find_listed(&listing, id) {
        Some(i) => i,
        None => return Err("That backup is no longer there. Reopen Storage to see the current list.".to_owned()),
    };
    let mut listing = listing;
    let ghost before = listing@;
    let backup = listing.remove(i);
    assert(backup == before[i as int]);
    let mut candidates: Vec<Candidate> = Vec::new();
    candidates.push(Candidate { path: backup.path.clone(), justification: Justification::DeviceBackup });
    let reports = execute(candidates, excl, home, fs, delete);
    assert(reports@[0].path@ == backup.path@);
    let reply = reply_for(Some(&reports[0].outcome));
    assert(removal_reply(Some(reports@[0].outcome)) == reply_view(reply));
    match reply {
        Ok(()) => Ok(backup),
        Err(e) => Err(e),
    }
}

} // verus!
