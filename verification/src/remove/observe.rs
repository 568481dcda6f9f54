//! Which paths the filesystem must be asked about before a removal run is
//! decided. Every bar looks a path up in the `FsView` it is handed, and a
//! path nobody probed is answered the conservative way; this list is what
//! the caller probes so that no bar answers from ignorance.

use super::roots::{
    backups_root, catalog_roots_expanded, expanded_each, joined_each, launch_agents_root,
    protected_sources, scope_roots_spec, user_content_spec,
};
use crate::catalog::{expand, expand_spec};
use crate::fsview::{fs_view, normalized, FsView};
use crate::paths::{join, join_exec, render, render_exec};
use vstd::prelude::*;

verus! {

/// Everything the bars consult beneath (and around) a resolved home.
pub open spec fn home_paths(h: Seq<char>) -> Seq<Seq<char>> {
    protected_sources(h) + joined_each(h, user_content_spec()) + expanded_each(h, scope_roots_spec())
        + seq![expand_spec(launch_agents_root(), h), expand_spec(backups_root(), h), join(h, "Library"@)]
}

/// The home as given; once it resolves, everything beneath the resolved
/// home; then every candidate and every exclusion entry.
pub open spec fn observed_spec(
    home: Seq<char>,
    resolved_home: Option<Seq<char>>,
    candidates: Seq<Seq<char>>,
    entries: Seq<Seq<char>>,
) -> Seq<Seq<char>> {
    seq![home] + match resolved_home {
        Some(h) => home_paths(h),
        None => Seq::empty(),
    } + candidates + entries
}

fn push_all(out: &mut Vec<String>, more: &[String])
    ensures
        final(out)@.map_values(|s: String| s@) == old(out)@.map_values(|s: String| s@) + more@.map_values(|s: String| s@),
{
    let ghost start = out@.map_values(|s: String| s@);
    let mut i: usize = 0;
    while i < more.len()
        invariant
            i <= more.len(),
            out@.map_values(|s: String| s@) == start + more@.subrange(0, i as int).map_values(|s: String| s@),
        decreases more.len() - i,
    {
        let ghost before = out@;
        out.push(more[i].clone());
        proof {
            assert(out@.map_values(|s: String| s@) =~= before.map_values(|s: String| s@).push(more@[i as int]@));
            assert(more@.subrange(0, i + 1).map_values(|s: String| s@) =~= more@.subrange(0, i as int).map_values(|s: String| s@).push(more@[i as int]@));
        }
        i += 1;
    }
    assert(more@.subrange(0, more.len() as int) =~= more@);
}

fn home_paths_exec(h: &str) -> (r: Vec<String>)
    ensures
        r@.map_values(|s: String| s@) == home_paths(h@),
{
    let mut out: Vec<String> = Vec::new();
    out.push("/Users".to_owned());
    out.push("/Applications".to_owned());
    out.push(join_exec(h, "Applications"));
    out.push(h.to_owned());
    let mut expanded = catalog_roots_expanded(h);
    out.append(&mut expanded);
    let ghost head = out@.map_values(|s: String| s@);
    assert(head == protected_sources(h@));
    let ucs = crate::remove::roots::user_content_dirs();
    let mut j: usize = 0;
    while j < ucs.len()
        invariant
            ucs@.map_values(|s: &'static str| s@) == user_content_spec(),
            j <= ucs.len(),
            out@.map_values(|s: String| s@) == head + joined_each(h@, user_content_spec().subrange(0, j as int)),
        decreases ucs.len() - j,
    {
        let ghost before = out@;
        out.push(join_exec(h, ucs[j]));
        proof {
            assert(ucs@[j as int]@ == user_content_spec()[j as int]);
            assert(out@.map_values(|s: String| s@) =~= before.map_values(|s: String| s@).push(join(h@, user_content_spec()[j as int])));
            assert(joined_each(h@, user_content_spec().subrange(0, j + 1)) =~= joined_each(h@, user_content_spec().subrange(0, j as int)).push(join(h@, user_content_spec()[j as int])));
        }
        j += 1;
    }
    assert(user_content_spec().subrange(0, ucs.len() as int) =~= user_content_spec());
    out.push(expand("/Applications", h));
    out.push(expand("~/Applications", h));
    out.push(expand("~/Library", h));
    out.push(expand("~/Library/LaunchAgents", h));
    out.push(expand("~/Library/Application Support/MobileSync/Backup", h));
    out.push(join_exec(h, "Library"));
    assert(out@.map_values(|s: String| s@) =~= home_paths(h@));
    out
}

/// The paths whose probes a removal run consults: `home` as given, and —
/// once `home_fs` (a view holding at least the probe of `home`) resolves
/// it — the roots beneath the resolved home, then every candidate and
/// every exclusion entry.
pub fn observed_paths(home: &str, home_fs: &FsView, candidates: &[String], entries: &[String]) -> (r: Vec<String>)
    ensures
        r@.map_values(|s: String| s@) == observed_spec(
            home@,
            match normalized(fs_view(home_fs), home@) {
                Some(hp) => Some(render(hp)),
                None => None,
            },
            candidates@.map_values(|s: String| s@),
            entries@.map_values(|s: String| s@),
        ),
{
    let mut out: Vec<String> = Vec::new();
    out.push(home.to_owned());
    match home_fs.normalize(home) {
        Some(hp) => {
            let h = render_exec(&hp);
            let more = home_paths_exec(h.as_str());
            push_all(&mut out, more.as_slice());
        },
        None => {},
    }
    push_all(&mut out, candidates);
    push_all(&mut out, entries);
    out
}

} // verus!
