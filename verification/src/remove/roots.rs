//! Where a removal may point, and the bars that hold whatever it claims.
//!
//! `Roots` resolves every authorising and protecting location once per run.
//! The predicates around it answer containment questions and nothing else.

use crate::catalog::{
    catalog, catalog_spec, expand, expand_spec, CatalogEntry, EntryView, entry_view,
};
use crate::fsview::{fs_view, lookup, normalized, FsView, ProbeView};
use crate::paths::{
    components, components_of, join, join_exec, parts_start_with, parts_view, prefix_ci, render,
    render_exec, same_path, same_path_exec, strip_firmlink, strip_firmlink_exec, Parts,
};
use crate::text::{chars_of, push_str, string_of};
use vstd::prelude::*;

verus! {

/// Directories that are user-created content by definition. This bar is
/// unconditional: no justification lifts it.
pub open spec fn user_content_spec() -> Seq<Seq<char>> {
    seq![
        "Documents"@,
        "Desktop"@,
        "Downloads"@,
        "Movies"@,
        "Music"@,
        "Pictures"@,
        "Library/Mobile Documents"@,
    ]
}

pub fn user_content_dirs() -> (r: Vec<&'static str>)
    ensures
        r@.map_values(|s: &'static str| s@) == user_content_spec(),
{
    let mut v: Vec<&'static str> = Vec::new();
    v.push("Documents");
    v.push("Desktop");
    v.push("Downloads");
    v.push("Movies");
    v.push("Music");
    v.push("Pictures");
    v.push("Library/Mobile Documents");
    assert(v@.map_values(|s: &'static str| s@) =~= user_content_spec());
    v
}

pub open spec fn scope_roots_spec() -> Seq<Seq<char>> {
    seq!["/Applications"@, "~/Applications"@, "~/Library"@]
}

pub open spec fn launch_agents_root() -> Seq<char> {
    "~/Library/LaunchAgents"@
}

pub open spec fn backups_root() -> Seq<char> {
    "~/Library/Application Support/MobileSync/Backup"@
}

/// A root that authorises deletion, resolved — or `None` unless it resolves
/// **exactly** where it is declared. A root grants permission over
/// everything beneath it, so letting a symlink redefine it would let the
/// link's author pick what is swept; relocation itself is refused, and a
/// root that is itself a broken link authorises nothing.
pub open spec fn authorizing_root_spec(fs: Seq<ProbeView>, root: Seq<char>, home: Seq<char>) -> Option<
    Parts,
> {
    let lexical = expand_spec(root, home);
    if lookup(fs, lexical).dangling {
        None
    } else {
        match normalized(fs, lexical) {
            Some(resolved) => if same_path(resolved, strip_firmlink(components(lexical))) {
                Some(resolved)
            } else {
                None
            },
            None => None,
        }
    }
}

/// `path` is `root` itself, or an immediate child of it.
pub open spec fn at_or_just_below(path: Parts, root: Parts) -> bool {
    prefix_ci(path, root) && path.len() <= root.len() + 1
}

/// `path` is `~/Library` itself or an immediate child: a container holding
/// every app's state of one kind, never itself removable.
pub open spec fn library_container(path: Parts, library: Option<Parts>) -> bool {
    match library {
        Some(l) => at_or_just_below(path, l),
        None => false,
    }
}

pub open spec fn normalize_each(fs: Seq<ProbeView>, paths: Seq<Seq<char>>) -> Seq<Parts>
    decreases paths.len(),
{
    if paths.len() == 0 {
        Seq::empty()
    } else {
        match normalized(fs, paths.last()) {
            Some(p) => normalize_each(fs, paths.drop_last()).push(p),
            None => normalize_each(fs, paths.drop_last()),
        }
    }
}

pub open spec fn authorize_each(fs: Seq<ProbeView>, roots: Seq<Seq<char>>, home: Seq<char>) -> Seq<
    Parts,
>
    decreases roots.len(),
{
    if roots.len() == 0 {
        Seq::empty()
    } else {
        match authorizing_root_spec(fs, roots.last(), home) {
            Some(p) => authorize_each(fs, roots.drop_last(), home).push(p),
            None => authorize_each(fs, roots.drop_last(), home),
        }
    }
}

/// Every root of every catalog entry, in catalog order.
pub open spec fn all_catalog_roots(es: Seq<EntryView>) -> Seq<Seq<char>>
    decreases es.len(),
{
    if es.len() == 0 {
        Seq::empty()
    } else {
        all_catalog_roots(es.drop_last()) + es.last().roots
    }
}

pub open spec fn joined_each(home: Seq<char>, tails: Seq<Seq<char>>) -> Seq<Seq<char>> {
    tails.map_values(|t: Seq<char>| join(home, t))
}

pub open spec fn expanded_each(home: Seq<char>, roots: Seq<Seq<char>>) -> Seq<Seq<char>> {
    roots.map_values(|r: Seq<char>| expand_spec(r, home))
}

/// What protection is derived from: `/Users`, `/Applications`,
/// `~/Applications`, home itself, and every catalog root — taken from the
/// catalog rather than transcribed from it.
pub open spec fn protected_sources(home: Seq<char>) -> Seq<Seq<char>> {
    seq!["/Users"@, "/Applications"@, join(home, "Applications"@), home] + expanded_each(
        home,
        all_catalog_roots(catalog_spec()),
    )
}

/// The resolved locations every bar is evaluated against.
pub struct RootsView {
    pub home: Seq<char>,
    pub protected: Seq<Parts>,
    pub user_content: Seq<Parts>,
    pub app_bundle_scope: Seq<Parts>,
    pub startup_agents: Option<Parts>,
    pub device_backups: Option<Parts>,
    pub library: Option<Parts>,
}

/// `Roots::new`: everything resolved once, against the resolved home. A
/// home that cannot be identified yields `None`, and nothing can then be
/// proved safe.
pub open spec fn roots_spec(fs: Seq<ProbeView>, home: Seq<char>) -> Option<RootsView> {
    match normalized(fs, home) {
        None => None,
        Some(hp) => {
            let h = render(hp);
            let uc = normalize_each(fs, joined_each(h, user_content_spec()));
            Some(
                RootsView {
                    home: h,
                    protected: normalize_each(fs, protected_sources(h)) + uc,
                    user_content: uc,
                    app_bundle_scope: authorize_each(fs, scope_roots_spec(), h),
                    startup_agents: authorizing_root_spec(fs, launch_agents_root(), h),
                    device_backups: authorizing_root_spec(fs, backups_root(), h),
                    library: normalized(fs, join(h, "Library"@)),
                },
            )
        },
    }
}

pub open spec fn volumes_parts() -> Parts {
    components("/Volumes"@)
}

pub open spec fn ancestor_of_protected(path: Parts, r: RootsView) -> bool {
    exists|i: int| 0 <= i < r.protected.len() && prefix_ci(#[trigger] r.protected[i], path)
}

pub open spec fn within_user_content(path: Parts, r: RootsView) -> bool {
    exists|i: int| 0 <= i < r.user_content.len() && prefix_ci(path, #[trigger] r.user_content[i])
}

/// The user-content bar: a path that cannot be identified, anything on an
/// external volume, a protected root or anything above one, a `~/Library`
/// container, and anything inside the user's own content.
pub open spec fn is_user_content_spec(fs: Seq<ProbeView>, path: Seq<char>, r: RootsView) -> bool {
    match normalized(fs, path) {
        None => true,
        Some(n) => prefix_ci(n, volumes_parts()) || ancestor_of_protected(n, r) || library_container(
            n,
            r.library,
        ) || within_user_content(n, r),
    }
}

/// A path that cannot be identified is treated as user content.
pub proof fn lemma_unidentified_is_user_content(fs: Seq<ProbeView>, path: Seq<char>, r: RootsView)
    requires
        normalized(fs, path) is None,
    ensures
        is_user_content_spec(fs, path, r),
{
}

/// External volumes, protected roots and everything above them, `~/Library`
/// and its immediate children, and everything inside the user's own content
/// are all user content.
pub proof fn lemma_user_content_covers(fs: Seq<ProbeView>, path: Seq<char>, r: RootsView)
    requires
        normalized(fs, path) matches Some(n) && (prefix_ci(n, volumes_parts()) || ancestor_of_protected(n, r)
            || library_container(n, r.library) || within_user_content(n, r)),
    ensures
        is_user_content_spec(fs, path, r),
{
}

pub open spec fn in_scope(path: Parts, scope: Seq<Parts>) -> bool {
    exists|i: int| 0 <= i < scope.len() && prefix_ci(path, #[trigger] scope[i])
}

/// In scope both as written and as resolved, and never a `~/Library`
/// container.
pub open spec fn within_app_bundle_scope_spec(fs: Seq<ProbeView>, path: Seq<char>, r: RootsView) -> bool {
    match normalized(fs, path) {
        None => false,
        Some(n) => !library_container(n, r.library) && in_scope(n, r.app_bundle_scope) && in_scope(
            strip_firmlink(components(path)),
            r.app_bundle_scope,
        ),
    }
}

/// `path` (normalised) lies at or beneath one of `entry`'s own roots, each
/// of which must itself resolve exactly where declared.
pub open spec fn within_catalog_entry_spec(fs: Seq<ProbeView>, path: Parts, entry: EntryView, home: Seq<char>) -> bool {
    exists|k: int|
        0 <= k < entry.roots.len() && (match authorizing_root_spec(fs, #[trigger] entry.roots[k], home) {
            Some(a) => prefix_ci(path, a),
            None => false,
        })
}

pub open spec fn relocation_note(fs: Seq<ProbeView>, root: Seq<char>, home: Seq<char>) -> Seq<char> {
    let declared = expand_spec(root, home);
    if lookup(fs, declared).dangling {
        root + " is a broken symlink and points nowhere"@
    } else {
        match normalized(fs, declared) {
            Some(actual) => root + " now leads to "@ + render(actual),
            None => root + " could not be resolved"@,
        }
    }
}

/// The roots of an entry that have been relocated, described for the user.
pub open spec fn relocated_spec(fs: Seq<ProbeView>, roots: Seq<Seq<char>>, home: Seq<char>) -> Seq<Seq<char>>
    decreases roots.len(),
{
    if roots.len() == 0 {
        Seq::empty()
    } else if authorizing_root_spec(fs, roots.last(), home) is None {
        relocated_spec(fs, roots.drop_last(), home).push(relocation_note(fs, roots.last(), home))
    } else {
        relocated_spec(fs, roots.drop_last(), home)
    }
}

// ---------------------------------------------------------------------------
// Executable forms
// ---------------------------------------------------------------------------

pub open spec fn opt_parts(o: Option<Vec<Vec<char>>>) -> Option<Parts> {
    match o {
        Some(p) => Some(parts_view(p@)),
        None => None,
    }
}

pub open spec fn parts_list(v: Seq<Vec<Vec<char>>>) -> Seq<Parts> {
    v.map_values(|p: Vec<Vec<char>>| parts_view(p@))
}

/// The set of real directories every bar is evaluated against.
pub struct Roots {
    /// Already resolved, so roots derived from it are comparable with
    /// resolved candidates.
    pub home: String,
    /// Never themselves removed, nor anything above them.
    pub protected: Vec<Vec<Vec<char>>>,
    pub user_content: Vec<Vec<Vec<char>>>,
    /// Where an `AppBundle` justification may point: `/Applications`,
    /// `~/Applications` and `~/Library`, each resolving where declared.
    pub app_bundle_scope: Vec<Vec<Vec<char>>>,
    /// `~/Library/LaunchAgents`, when it resolves where declared.
    pub startup_agents: Option<Vec<Vec<char>>>,
    /// `~/Library/Application Support/MobileSync/Backup`, likewise.
    pub device_backups: Option<Vec<Vec<char>>>,
    /// `~/Library`, resolved but deliberately not checked for relocation:
    /// it is used to deny.
    pub library: Option<Vec<Vec<char>>>,
}

impl Roots {
    pub open spec fn view(&self) -> RootsView {
        RootsView {
            home: self.home@,
            protected: parts_list(self.protected@),
            user_content: parts_list(self.user_content@),
            app_bundle_scope: parts_list(self.app_bundle_scope@),
            startup_agents: opt_parts(self.startup_agents),
            device_backups: opt_parts(self.device_backups),
            library: opt_parts(self.library),
        }
    }
}

proof fn lemma_parts_list_push(v: Seq<Vec<Vec<char>>>, x: Vec<Vec<char>>)
    ensures
        parts_list(v.push(x)) == parts_list(v).push(parts_view(x@)),
{
    assert(parts_list(v.push(x)) =~= parts_list(v).push(parts_view(x@)));
}

/// Resolve a root that authorises deletion, refusing it unless it resolves
/// exactly where declared.
pub fn authorizing_root(root: &str, home: &str, fs: &FsView) -> (r: Option<Vec<Vec<char>>>)
    ensures
        opt_parts(r) == authorizing_root_spec(fs_view(fs), root@, home@),
{
    let lexical = expand(root, home);
    if fs.dangling(lexical.as_str()) {
        return None;
    }
    let declared = strip_firmlink_exec(components_of(lexical.as_str()));
    let resolved = match fs.normalize(lexical.as_str()) {
        Some(r) => r,
        None => return None,
    };
    if same_path_exec(&resolved, &declared) {
        Some(resolved)
    } else {
        None
    }
}

pub fn is_at_or_just_below(path: &Vec<Vec<char>>, root: &Vec<Vec<char>>) -> (r: bool)
    ensures
        r == at_or_just_below(parts_view(path@), parts_view(root@)),
{
    parts_start_with(path, root) && (path.len() <= root.len() || path.len() - root.len() == 1)
}

pub fn is_library_container(path: &Vec<Vec<char>>, library: &Option<Vec<Vec<char>>>) -> (r: bool)
    ensures
        r == library_container(parts_view(path@), opt_parts(*library)),
{
    match library {
        Some(l) => is_at_or_just_below(path, l),
        None => false,
    }
}

fn normalize_each_exec(fs: &FsView, paths: &Vec<String>) -> (r: Vec<Vec<Vec<char>>>)
    ensures
        parts_list(r@) == normalize_each(fs_view(fs), paths@.map_values(|s: String| s@)),
{
    let ghost pv = paths@.map_values(|s: String| s@);
    let mut out: Vec<Vec<Vec<char>>> = Vec::new();
    let mut i: usize = 0;
    while i < paths.len()
        invariant
            pv == paths@.map_values(|s: String| s@),
            i <= paths.len(),
            parts_list(out@) == normalize_each(fs_view(fs), pv.subrange(0, i as int)),
        decreases paths.len() - i,
    {
        proof {
            let pre = pv.subrange(0, i + 1);
            assert(pre.drop_last() =~= pv.subrange(0, i as int));
            assert(pre.last() == paths@[i as int]@);
        }
        match fs.normalize(paths[i].as_str()) {
            Some(p) => {
                let ghost before = out@;
                out.push(p);
                proof {
                    lemma_parts_list_push(before, p);
                }
            },
            None => {},
        }
        i += 1;
    }
    assert(pv.subrange(0, pv.len() as int) =~= pv);
    out
}

fn authorize_each_exec(fs: &FsView, roots: &Vec<&'static str>, home: &str) -> (r: Vec<Vec<Vec<char>>>)
    ensures
        parts_list(r@) == authorize_each(fs_view(fs), roots@.map_values(|s: &'static str| s@), home@),
{
    let ghost rv = roots@.map_values(|s: &'static str| s@);
    let mut out: Vec<Vec<Vec<char>>> = Vec::new();
    let mut i: usize = 0;
    while i < roots.len()
        invariant
            rv == roots@.map_values(|s: &'static str| s@),
            i <= roots.len(),
            parts_list(out@) == authorize_each(fs_view(fs), rv.subrange(0, i as int), home@),
        decreases roots.len() - i,
    {
        proof {
            let pre = rv.subrange(0, i + 1);
            assert(pre.drop_last() =~= rv.subrange(0, i as int));
            assert(pre.last() == roots@[i as int]@);
        }
        match authorizing_root(roots[i], home, fs) {
            Some(p) => {
                let ghost before = out@;
                out.push(p);
                proof {
                    lemma_parts_list_push(before, p);
                }
            },
            None => {},
        }
        i += 1;
    }
    assert(rv.subrange(0, rv.len() as int) =~= rv);
    out
}

/// Every catalog root expanded against `home`, in catalog order.
pub(crate) fn catalog_roots_expanded(home: &str) -> (r: Vec<String>)
    ensures
        r@.map_values(|s: String| s@) == expanded_each(home@, all_catalog_roots(catalog_spec())),
{
    let c = catalog();
    let ghost cs = catalog_spec();
    let mut out: Vec<String> = Vec::new();
    let mut i: usize = 0;
    while i < c.len()
        invariant
            crate::catalog::entries_view(c@) == cs,
            cs == catalog_spec(),
            i <= c.len(),
            out@.map_values(|s: String| s@) == expanded_each(home@, all_catalog_roots(cs.subrange(0, i as int))),
        decreases c.len() - i,
    {
        let e = &c[i];
        assert(cs[i as int] == entry_view(*e));
        let ghost rv = e.roots@.map_values(|x: &'static str| x@);
        let ghost start = out@.map_values(|s: String| s@);
        let mut k: usize = 0;
        while k < e.roots.len()
            invariant
                rv == e.roots@.map_values(|x: &'static str| x@),
                k <= e.roots.len(),
                out@.map_values(|s: String| s@) == start + expanded_each(home@, rv.subrange(0, k as int)),
            decreases e.roots.len() - k,
        {
            let x = expand(e.roots[k], home);
            let ghost before = out@;
            out.push(x);
            proof {
                assert(out@.map_values(|s: String| s@) =~= before.map_values(|s: String| s@).push(x@));
                assert(expanded_each(home@, rv.subrange(0, k + 1)) =~= expanded_each(home@, rv.subrange(0, k as int)).push(expand_spec(rv[k as int], home@)));
                assert(out@.map_values(|s: String| s@) =~= start + expanded_each(home@, rv.subrange(0, k + 1)));
            }
            k += 1;
        }
        proof {
            assert(rv.subrange(0, rv.len() as int) =~= rv);
            let pre = cs.subrange(0, i + 1);
            assert(pre.drop_last() =~= cs.subrange(0, i as int));
            assert(pre.last() == cs[i as int]);
            assert(all_catalog_roots(pre) == all_catalog_roots(cs.subrange(0, i as int)) + rv);
            assert(expanded_each(home@, all_catalog_roots(cs.subrange(0, i as int)) + rv) =~= expanded_each(home@, all_catalog_roots(cs.subrange(0, i as int))) + expanded_each(home@, rv));
        }
        i += 1;
    }
    assert(cs.subrange(0, cs.len() as int) =~= cs);
    out
}

impl Roots {
    /// Every list resolved once, here, against the resolved home. A root
    /// that cannot be resolved is dropped rather than guessed at: a
    /// candidate at or under it fails the same resolution and is denied as
    /// unidentifiable.
    pub fn new(home: &str, fs: &FsView) -> (r: Option<Roots>)
        ensures
            match r {
                Some(roots) => roots_spec(fs_view(fs), home@) == Some(roots.view()),
                None => roots_spec(fs_view(fs), home@) is None,
            },
    {
        let hp = match fs.normalize(home) {
            Some(hp) => hp,
            None => return None,
        };
        let h = render_exec(&hp);
        let ucs = user_content_dirs();
        let mut uc_paths: Vec<String> = Vec::new();
        let mut i: usize = 0;
        while i < ucs.len()
            invariant
                ucs@.map_values(|s: &'static str| s@) == user_content_spec(),
                i <= ucs.len(),
                uc_paths@.map_values(|s: String| s@) == joined_each(h@, user_content_spec().subrange(0, i as int)),
            decreases ucs.len() - i,
        {
            let p = join_exec(h.as_str(), ucs[i]);
            let ghost before = uc_paths@;
            uc_paths.push(p);
            proof {
                assert(ucs@[i as int]@ == user_content_spec()[i as int]);
                assert(uc_paths@.map_values(|s: String| s@) =~= before.map_values(|s: String| s@).push(p@));
                assert(joined_each(h@, user_content_spec().subrange(0, i + 1)) =~= joined_each(h@, user_content_spec().subrange(0, i as int)).push(join(h@, user_content_spec()[i as int])));
            }
            i += 1;
        }
        assert(user_content_spec().subrange(0, 7) =~= user_content_spec());
        let user_content = normalize_each_exec(fs, &uc_paths);

        let mut sources: Vec<String> = Vec::new();
        sources.push("/Users".to_owned());
        sources.push("/Applications".to_owned());
        sources.push(join_exec(h.as_str(), "Applications"));
        sources.push(h.clone());
        let ghost head = sources@.map_values(|s: String| s@);
        assert(head =~= seq!["/Users"@, "/Applications"@, join(h@, "Applications"@), h@]);
        let mut expanded = catalog_roots_expanded(h.as_str());
        let ghost ev = expanded@.map_values(|s: String| s@);
        sources.append(&mut expanded);
        assert(sources@.map_values(|s: String| s@) =~= protected_sources(h@));
        let mut protected = normalize_each_exec(fs, &sources);
        let mut k: usize = 0;
        let ghost base = parts_list(protected@);
        while k < user_content.len()
            invariant
                k <= user_content.len(),
                parts_list(protected@) == base + parts_list(user_content@).subrange(0, k as int),
            decreases user_content.len() - k,
        {
            let copy = clone_parts(&user_content[k]);
            let ghost before = protected@;
            protected.push(copy);
            proof {
                lemma_parts_list_push(before, copy);
                assert(parts_list(protected@) =~= base + parts_list(user_content@).subrange(0, k + 1));
            }
            k += 1;
        }
        assert(parts_list(user_content@).subrange(0, user_content.len() as int) =~= parts_list(user_content@));

        let mut scope: Vec<&'static str> = Vec::new();
        scope.push("/Applications");
        scope.push("~/Applications");
        scope.push("~/Library");
        assert(scope@.map_values(|s: &'static str| s@) =~= scope_roots_spec());
        let app_bundle_scope = authorize_each_exec(fs, &scope, h.as_str());
        let startup_agents = authorizing_root("~/Library/LaunchAgents", h.as_str(), fs);
        let device_backups = authorizing_root(
            "~/Library/Application Support/MobileSync/Backup",
            h.as_str(),
            fs,
        );
        let lib = join_exec(h.as_str(), "Library");
        let library = fs.normalize(lib.as_str());
        let roots = Roots {
            home: h,
            protected,
            user_content,
            app_bundle_scope,
            startup_agents,
            device_backups,
            library,
        };
        proof {
            assert(roots.view() == roots_spec(fs_view(fs), home@).unwrap());
        }
        Some(roots)
    }

    /// True when `path` (normalised) is one of the protected roots, or an
    /// ancestor of one — the mirror image of containment.
    pub fn is_ancestor_of_protected(&self, path: &Vec<Vec<char>>) -> (r: bool)
        ensures
            r == ancestor_of_protected(parts_view(path@), self.view()),
    {
        let mut i: usize = 0;
        while i < self.protected.len()
            invariant
                i <= self.protected.len(),
                forall|j: int| 0 <= j < i ==> !prefix_ci(#[trigger] parts_list(self.protected@)[j], parts_view(path@)),
            decreases self.protected.len() - i,
        {
            assert(parts_list(self.protected@)[i as int] == parts_view(self.protected@[i as int]@));
            if parts_start_with(&self.protected[i], path) {
                assert(prefix_ci(self.view().protected[i as int], parts_view(path@)));
                return true;
            }
            i += 1;
        }
        false
    }

    /// True when `path` (normalised) is inside one of the user-content roots.
    pub fn is_within_user_content(&self, path: &Vec<Vec<char>>) -> (r: bool)
        ensures
            r == within_user_content(parts_view(path@), self.view()),
    {
        let mut i: usize = 0;
        while i < self.user_content.len()
            invariant
                i <= self.user_content.len(),
                forall|j: int| 0 <= j < i ==> !prefix_ci(parts_view(path@), #[trigger] parts_list(self.user_content@)[j]),
            decreases self.user_content.len() - i,
        {
            assert(parts_list(self.user_content@)[i as int] == parts_view(self.user_content@[i as int]@));
            if parts_start_with(path, &self.user_content[i]) {
                assert(prefix_ci(parts_view(path@), self.view().user_content[i as int]));
                return true;
            }
            i += 1;
        }
        false
    }

    pub fn is_library_container(&self, path: &Vec<Vec<char>>) -> (r: bool)
        ensures
            r == library_container(parts_view(path@), self.view().library),
    {
        is_library_container(path, &self.library)
    }
}

fn clone_parts(p: &Vec<Vec<char>>) -> (r: Vec<Vec<char>>)
    ensures
        parts_view(r@) == parts_view(p@),
{
    let mut out: Vec<Vec<char>> = Vec::new();
    let mut i: usize = 0;
    while i < p.len()
        invariant
            i <= p.len(),
            parts_view(out@) == parts_view(p@).subrange(0, i as int),
        decreases p.len() - i,
    {
        let c = crate::text::slice(&p[i], 0, p[i].len());
        let ghost before = out@;
        out.push(c);
        proof {
            assert(c@ =~= p@[i as int]@);
            crate::paths::lemma_parts_push(before, c);
            assert(parts_view(out@) =~= parts_view(p@).subrange(0, i + 1));
        }
        i += 1;
    }
    assert(parts_view(p@).subrange(0, p.len() as int) =~= parts_view(p@));
    out
}

fn in_scope_exec(path: &Vec<Vec<char>>, scope: &Vec<Vec<Vec<char>>>) -> (r: bool)
    ensures
        r == in_scope(parts_view(path@), parts_list(scope@)),
{
    let mut i: usize = 0;
    while i < scope.len()
        invariant
            i <= scope.len(),
            forall|j: int| 0 <= j < i ==> !prefix_ci(parts_view(path@), #[trigger] parts_list(scope@)[j]),
        decreases scope.len() - i,
    {
        assert(parts_list(scope@)[i as int] == parts_view(scope@[i as int]@));
        if parts_start_with(path, &scope[i]) {
            return true;
        }
        i += 1;
    }
    false
}

/// The user-content bar.
pub fn is_user_content(path: &str, roots: &Roots, fs: &FsView) -> (r: bool)
    ensures
        r == is_user_content_spec(fs_view(fs), path@, roots.view()),
{
    let normalized = match fs.normalize(path) {
        Some(p) => p,
        None => return true,
    };
    let volumes = components_of("/Volumes");
    if parts_start_with(&normalized, &volumes) {
        return true;
    }
    if roots.is_ancestor_of_protected(&normalized) {
        return true;
    }
    if roots.is_library_container(&normalized) {
        return true;
    }
    roots.is_within_user_content(&normalized)
}

/// The `AppBundle` location bar: in scope both as written and as resolved,
/// and never a `~/Library` container.
pub fn is_within_app_bundle_scope(path: &str, roots: &Roots, fs: &FsView) -> (r: bool)
    ensures
        r == within_app_bundle_scope_spec(fs_view(fs), path@, roots.view()),
{
    let normalized = match fs.normalize(path) {
        Some(p) => p,
        None => return false,
    };
    if roots.is_library_container(&normalized) {
        return false;
    }
    let written = strip_firmlink_exec(components_of(path));
    in_scope_exec(&normalized, &roots.app_bundle_scope) && in_scope_exec(&written, &roots.app_bundle_scope)
}

/// True when `path` (normalised) lies at or beneath one of `entry`'s own
/// roots. An id existing on its own proves nothing about the path handed in.
pub fn is_within_catalog_entry(path: &Vec<Vec<char>>, entry: &CatalogEntry, roots: &Roots, fs: &FsView) -> (r: bool)
    ensures
        r == within_catalog_entry_spec(fs_view(fs), parts_view(path@), entry_view(*entry), roots.home@),
{
    let ghost rv = entry_view(*entry).roots;
    let mut k: usize = 0;
    while k < entry.roots.len()
        invariant
            rv == entry_view(*entry).roots,
            k <= entry.roots.len(),
            forall|j: int| 0 <= j < k ==> !(match authorizing_root_spec(fs_view(fs), #[trigger] rv[j], roots.home@) {
                Some(a) => prefix_ci(parts_view(path@), a),
                None => false,
            }),
        decreases entry.roots.len() - k,
    {
        assert(rv[k as int] == entry.roots@[k as int]@);
        match authorizing_root(entry.roots[k], roots.home.as_str(), fs) {
            Some(a) => {
                if parts_start_with(path, &a) {
                    return true;
                }
            },
            None => {},
        }
        k += 1;
    }
    false
}

fn relocation_note_exec(root: &str, home: &str, fs: &FsView) -> (r: String)
    ensures
        r@ == relocation_note(fs_view(fs), root@, home@),
{
    let declared = expand(root, home);
    let mut v = chars_of(root);
    if fs.dangling(declared.as_str()) {
        push_str(&mut v, " is a broken symlink and points nowhere");
        return string_of(&v);
    }
    match fs.normalize(declared.as_str()) {
        Some(actual) => {
            push_str(&mut v, " now leads to ");
            let a = render_exec(&actual);
            push_str(&mut v, a.as_str());
        },
        None => {
            push_str(&mut v, " could not be resolved");
        },
    }
    string_of(&v)
}

/// The roots of `entry` that have been relocated, described for the user:
/// what the catalog declares, and where that path actually leads now.
pub fn relocated_roots(entry: &CatalogEntry, home: &str, fs: &FsView) -> (r: Vec<String>)
    ensures
        r@.map_values(|s: String| s@) == relocated_spec(fs_view(fs), entry_view(*entry).roots, home@),
{
    let ghost rv = entry_view(*entry).roots;
    let mut out: Vec<String> = Vec::new();
    let mut k: usize = 0;
    while k < entry.roots.len()
        invariant
            rv == entry_view(*entry).roots,
            k <= entry.roots.len(),
            out@.map_values(|s: String| s@) == relocated_spec(fs_view(fs), rv.subrange(0, k as int), home@),
        decreases entry.roots.len() - k,
    {
        proof {
            let pre = rv.subrange(0, k + 1);
            assert(pre.drop_last() =~= rv.subrange(0, k as int));
            assert(pre.last() == entry.roots@[k as int]@);
        }
        if authorizing_root(entry.roots[k], home, fs).is_none() {
            let note = relocation_note_exec(entry.roots[k], home, fs);
            let ghost before = out@;
            out.push(note);
            assert(out@.map_values(|s: String| s@) =~= before.map_values(|s: String| s@).push(note@));
        }
        k += 1;
    }
    assert(rv.subrange(0, rv.len() as int) =~= rv);
    out
}

} // verus!
