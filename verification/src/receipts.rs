//! Installer receipts: what the system believes is installed.
//!
//! This module never removes anything, and that is the decision: forgetting
//! a receipt reclaims no space, and a stale receipt is safer than a missing
//! one when an installer next runs. It inventories, shows the evidence, and
//! hands off to `pkgutil --forget`, which the user runs if they decide to.
//! Running `pkgutil` is the caller's work.

use crate::associate::{apple_bundle_id, is_apple_bundle_id};
use crate::paths::{join, join_exec};
use crate::text::{
    chars_of, lines, lines_of, push_str, string_of, strip_prefix, trim, trimmed, without_prefix,
};
use vstd::prelude::*;

verus! {

#[derive(Debug, PartialEq, Eq, Clone)]
pub struct Receipt {
    pub package_id: String,
    pub version: Option<String>,
    /// Where the package installed to, e.g. `/`.
    pub location: Option<String>,
    /// True when nothing the receipt claims to have installed is still on
    /// disk: evidence, never a reason to act.
    pub stale: bool,
    /// The command the user would run. Shown, never executed.
    pub handoff: String,
}

pub open spec fn strings_view(v: Seq<String>) -> Seq<Seq<char>> {
    v.map_values(|s: String| s@)
}

/// The package ids among `pkgutil --pkgs` lines: trimmed, blank lines
/// dropped, and Apple's own receipts left out.
pub open spec fn ids_in(ls: Seq<Seq<char>>) -> Seq<Seq<char>>
    decreases ls.len(),
{
    if ls.len() == 0 {
        Seq::empty()
    } else {
        let prev = ids_in(ls.drop_last());
        let t = trim(ls.last());
        if t.len() > 0 && !apple_bundle_id(t) { prev.push(t) } else { prev }
    }
}

/// The package ids `pkgutil --pkgs` printed, excluding Apple's own: they
/// describe macOS itself and would bury the few that are informative.
pub fn package_ids(output: &str) -> (r: Vec<String>)
    ensures
        strings_view(r@) == ids_in(lines(output@)),
{
    let text = chars_of(output);
    let all = lines_of(text.as_slice());
    let ghost ls = lines(output@);
    let mut ids: Vec<String> = Vec::new();
    let mut i: usize = 0;
    assert(ls.take(0) =~= Seq::<Seq<char>>::empty());
    while i < all.len()
        invariant
            all@.map_values(|p: Vec<char>| p@) == ls,
            ls == lines(output@),
            i <= all.len(),
            strings_view(ids@) == ids_in(ls.take(i as int)),
        decreases all.len() - i,
    {
        assert(all@[i as int]@ == ls[i as int]);
        assert(ls.take(i + 1).drop_last() =~= ls.take(i as int));
        assert(ls.take(i + 1).last() == ls[i as int]);
        let t = trimmed(all[i].as_slice());
        if t.len() > 0 {
            let id = string_of(t.as_slice());
            if !is_apple_bundle_id(id.as_str()) {
                let ghost before = ids@;
                ids.push(id);
                assert(strings_view(ids@) =~= strings_view(before).push(t@));
            }
        }
        i += 1;
    }
    assert(ls.take(ls.len() as int) =~= ls);
    ids
}

/// What follows `key` on the first line that, trimmed, starts with it.
pub open spec fn first_field(ls: Seq<Seq<char>>, key: Seq<char>) -> Option<Seq<char>>
    decreases ls.len(),
{
    if ls.len() == 0 {
        None
    } else {
        match strip_prefix(trim(ls[0]), key) {
            Some(v) => Some(v),
            None => first_field(ls.drop_first(), key),
        }
    }
}

/// A field of `pkgutil --pkg-info` output, trimmed; absent or blank is
/// `None`, never a placeholder.
pub open spec fn field_value(out: Seq<char>, key: Seq<char>) -> Option<Seq<char>> {
    match first_field(lines(out), key) {
        Some(v) => if trim(v).len() > 0 { Some(trim(v)) } else { None },
        None => None,
    }
}

pub open spec fn opt_string(o: Option<String>) -> Option<Seq<char>> {
    match o {
        Some(s) => Some(s@),
        None => None,
    }
}

fn field(all: &Vec<Vec<char>>, key: &str) -> (r: Option<String>)
    ensures
        opt_string(r) == (match first_field(all@.map_values(|p: Vec<char>| p@), key@) {
            Some(v) => if trim(v).len() > 0 { Some(trim(v)) } else { None },
            None => None,
        }),
{
    let ghost ls = all@.map_values(|p: Vec<char>| p@);
    let k = chars_of(key);
    assert(ls.subrange(0, ls.len() as int) =~= ls);
    let mut i: usize = 0;
    while i < all.len()
        invariant
            ls == all@.map_values(|p: Vec<char>| p@),
            k@ == key@,
            i <= all.len(),
            first_field(ls, key@) == first_field(ls.subrange(i as int, ls.len() as int), key@),
        decreases all.len() - i,
    {
        let ghost rest = ls.subrange(i as int, ls.len() as int);
        assert(rest.drop_first() =~= ls.subrange(i + 1, ls.len() as int));
        assert(rest[0] == all@[i as int]@);
        let line = trimmed(all[i].as_slice());
        if let Some(v) = without_prefix(line.as_slice(), k.as_slice()) {
            let t = trimmed(v.as_slice());
            if t.len() > 0 {
                return Some(string_of(t.as_slice()));
            } else {
                return None;
            }
        }
        i += 1;
    }
    None
}

/// `version` and `location` out of `pkgutil --pkg-info <id>` output. A
/// receipt `pkgutil` describes oddly is still a receipt worth listing.
pub fn info_from(output: &str) -> (r: (Option<String>, Option<String>))
    ensures
        opt_string(r.0) == field_value(output@, "version:"@),
        opt_string(r.1) == field_value(output@, "location:"@),
{
    let text = chars_of(output);
    let all = lines_of(text.as_slice());
    (field(&all, "version:"), field(&all, "location:"))
}

/// The files a `pkgutil --files` listing names, trimmed, blank lines
/// dropped.
pub open spec fn listed_files(ls: Seq<Seq<char>>) -> Seq<Seq<char>>
    decreases ls.len(),
{
    if ls.len() == 0 {
        Seq::empty()
    } else {
        let prev = listed_files(ls.drop_last());
        let t = trim(ls.last());
        if t.len() > 0 { prev.push(t) } else { prev }
    }
}

pub open spec fn install_root(location: Seq<char>) -> Seq<char> {
    if location.len() == 0 { "/"@ } else { location }
}

/// The check for presence answered `answer` for `path`.
pub open spec fn checked<F: Fn(&str) -> bool>(present: &F, path: Seq<char>, answer: bool) -> bool {
    exists|p: &str| #[trigger] present.ensures((p,), answer) && p@ == path
}

/// Whether every file a receipt claims is gone. Paths are relative to the
/// package's `location`. A receipt that lists no files is not stale: unread
/// is not removed. `present` answers for one path; the first file found
/// still there settles it.
pub fn is_stale<F: Fn(&str) -> bool>(files: &str, location: &str, present: &F) -> (r: bool)
    requires
        forall|p: &str| present.requires((p,)),
    ensures
        r ==> listed_files(lines(files@)).len() > 0 && forall|i: int|
            0 <= i < listed_files(lines(files@)).len() ==> checked(
                present,
                join(install_root(location@), #[trigger] listed_files(lines(files@))[i]),
                false,
            ),
        !r ==> listed_files(lines(files@)).len() == 0 || exists|i: int|
            0 <= i < listed_files(lines(files@)).len() && checked(
                present,
                join(install_root(location@), #[trigger] listed_files(lines(files@))[i]),
                true,
            ),
{
    let root: String = if chars_of(location).len() == 0 {
        "/".to_owned()
    } else {
        location.to_owned()
    };
    assert(root@ == install_root(location@));
    let text = chars_of(files);
    let all = lines_of(text.as_slice());
    let ghost ls = lines(files@);
    let ghost mut seen: Seq<Seq<char>> = Seq::empty();
    let mut any = false;
    let mut i: usize = 0;
    assert(ls.take(0) =~= Seq::<Seq<char>>::empty());
    while i < all.len()
        invariant
            forall|p: &str| present.requires((p,)),
            all@.map_values(|p: Vec<char>| p@) == ls,
            ls == lines(files@),
            root@ == install_root(location@),
            i <= all.len(),
            seen == listed_files(ls.take(i as int)),
            any == (seen.len() > 0),
            forall|j: int| 0 <= j < seen.len() ==> checked(present, join(root@, #[trigger] seen[j]), false),
        decreases all.len() - i,
    {
        assert(all@[i as int]@ == ls[i as int]);
        assert(ls.take(i + 1).drop_last() =~= ls.take(i as int));
        assert(ls.take(i + 1).last() == ls[i as int]);
        let t = trimmed(all[i].as_slice());
        if t.len() > 0 {
            any = true;
            let rel = string_of(t.as_slice());
            let path = join_exec(root.as_str(), rel.as_str());
            let p = path.as_str();
            let found = present(p);
            proof {
                seen = seen.push(t@);
                assert(checked(present, join(root@, t@), found));
            }
            if found {
                proof {
                    assert(listed_files(ls.take(i + 1)) == listed_files(ls.take(i as int)).push(t@));
                    lemma_listed_prefix(ls, i as int + 1);
                    assert(seen == listed_files(ls.take(i + 1)));
                    assert(listed_files(ls.take(i + 1))[seen.len() - 1] == t@);
                    assert(listed_files(ls)[seen.len() - 1] == t@);
                }
                return false;
            }
            proof {
                assert forall|j: int| 0 <= j < seen.len() implies checked(present, join(root@, #[trigger] seen[j]), false) by {
                    if j < seen.len() - 1 {
                        assert(seen[j] == seen.drop_last()[j]);
                    }
                }
            }
        }
        i += 1;
    }
    assert(ls.take(ls.len() as int) =~= ls);
    any
}

/// The files listed from the first `k` lines are the first of all the files
/// listed.
proof fn lemma_listed_prefix(ls: Seq<Seq<char>>, k: int)
    requires
        0 <= k <= ls.len(),
    ensures
        listed_files(ls.take(k)).len() <= listed_files(ls).len(),
        forall|j: int|
            0 <= j < listed_files(ls.take(k)).len() ==> #[trigger] listed_files(ls.take(k))[j]
                == listed_files(ls)[j],
    decreases ls.len() - k,
{
    if k < ls.len() {
        lemma_listed_prefix(ls, k + 1);
        assert(ls.take(k + 1).drop_last() =~= ls.take(k));
        assert(ls.take(k + 1).last() == ls[k]);
        let a = listed_files(ls.take(k));
        let b = listed_files(ls.take(k + 1));
        assert(b == a || b == a.push(trim(ls[k])));
        assert forall|j: int| 0 <= j < a.len() implies #[trigger] a[j] == listed_files(ls)[j] by {
            assert(a[j] == b[j]);
        }
    } else {
        assert(ls.take(k) =~= ls);
    }
}

pub open spec fn handoff_text(package_id: Seq<char>) -> Seq<char> {
    "sudo pkgutil --forget "@ + package_id
}

/// The command the user would run to forget a receipt. Shown, never run.
pub fn handoff_for(package_id: &str) -> (r: String)
    ensures
        r@ == handoff_text(package_id@),
{
    let mut v = chars_of("sudo pkgutil --forget ");
    push_str(&mut v, package_id);
    string_of(v.as_slice())
}

/// A receipt from what `pkgutil` printed about it, with the staleness the
/// file check found.
pub fn receipt_from(package_id: String, info: &str, stale: bool) -> (r: Receipt)
    ensures
        r.package_id@ == package_id@,
        opt_string(r.version) == field_value(info@, "version:"@),
        opt_string(r.location) == field_value(info@, "location:"@),
        r.stale == stale,
        r.handoff@ == handoff_text(package_id@),
{
    let (version, location) = info_from(info);
    let handoff = handoff_for(package_id.as_str());
    Receipt { package_id, version, location, stale, handoff }
}

} // verus!
