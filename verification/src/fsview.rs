//! What the filesystem said about the paths a decision depends on, observed
//! immediately before the decision is made.
//!
//! Every bar in the removal boundary reasons about resolved paths — symlinks
//! followed, the case folded, the firmlink stripped. Resolving is I/O, so it
//! is done by the caller, once per path, and handed in here as plain values.
//! A path nobody probed is one this crate knows nothing about, and every
//! question about it is answered the conservative way: it does not resolve.

use crate::paths::{
    components, components_of, has_parent_dir, has_parent_dir_exec, is_absolute, parts_view,
    strip_firmlink, strip_firmlink_exec, Parts,
};
use crate::text::{chars_of, seq_eq};
use vstd::prelude::*;

verus! {

/// One path, as the filesystem described it.
#[derive(Debug, Clone)]
pub struct Probe {
    /// The path exactly as it was asked about.
    pub path: String,
    /// Where it leads: every symlink followed, the deepest existing ancestor
    /// resolved and any absent tail re-appended. `None` for a symlink loop,
    /// an unreadable ancestor, or a dangling link in an interior component.
    pub resolved: Option<String>,
    /// The path itself is a symlink whose target does not exist.
    pub dangling: bool,
    /// The path itself (not followed) is a real directory.
    pub real_dir: bool,
    /// The `CFBundleIdentifier` its own `Contents/Info.plist` declares, read
    /// at the resolved location, when it has one.
    pub bundle_id: Option<String>,
}

/// The probes a decision may consult.
#[derive(Debug, Clone)]
pub struct FsView {
    pub probes: Vec<Probe>,
}

pub struct ProbeView {
    pub path: Seq<char>,
    pub resolved: Option<Seq<char>>,
    pub dangling: bool,
    pub real_dir: bool,
    pub bundle_id: Option<Seq<char>>,
}

pub open spec fn opt_view(o: Option<String>) -> Option<Seq<char>> {
    match o {
        Some(s) => Some(s@),
        None => None,
    }
}

pub open spec fn probe_view(p: Probe) -> ProbeView {
    ProbeView {
        path: p.path@,
        resolved: opt_view(p.resolved),
        dangling: p.dangling,
        real_dir: p.real_dir,
        bundle_id: opt_view(p.bundle_id),
    }
}

pub open spec fn fs_view(fs: &FsView) -> Seq<ProbeView> {
    fs.probes@.map_values(|p: Probe| probe_view(p))
}

/// What is known of a path nobody probed: nothing.
pub open spec fn unknown(path: Seq<char>) -> ProbeView {
    ProbeView { path, resolved: None, dangling: false, real_dir: false, bundle_id: None }
}

/// The first probe of `path`, or `unknown`.
pub open spec fn lookup(fs: Seq<ProbeView>, path: Seq<char>) -> ProbeView
    decreases fs.len(),
{
    if fs.len() == 0 {
        unknown(path)
    } else if fs[0].path == path {
        fs[0]
    } else {
        lookup(fs.drop_first(), path)
    }
}

/// `normalize`: refuse a relative path or one containing `..`, otherwise
/// take where the filesystem says it leads, with every firmlink prefix
/// stripped. `None` means the path cannot be identified, and every caller
/// treats that as the unsafe answer.
pub open spec fn normalized(fs: Seq<ProbeView>, path: Seq<char>) -> Option<Parts> {
    if !is_absolute(path) || has_parent_dir(components(path)) {
        None
    } else {
        match lookup(fs, path).resolved {
            Some(r) => if is_absolute(r) && !has_parent_dir(components(r)) {
                Some(strip_firmlink(components(r)))
            } else {
                None
            },
            None => None,
        }
    }
}

impl FsView {
    pub fn empty() -> (r: FsView)
        ensures
            fs_view(&r) == Seq::<ProbeView>::empty(),
    {
        let r = FsView { probes: Vec::new() };
        assert(fs_view(&r) =~= Seq::<ProbeView>::empty());
        r
    }

    /// The index of the first probe of `path`.
    pub fn position(&self, path: &str) -> (r: Option<usize>)
        ensures
            match r {
                Some(i) => i < self.probes.len() && lookup(fs_view(self), path@) == probe_view(
                    self.probes@[i as int],
                ),
                None => lookup(fs_view(self), path@) == unknown(path@),
            },
    {
        let want = chars_of(path);
        let ghost v = fs_view(self);
        let mut i: usize = 0;
        assert(v.subrange(0, v.len() as int) =~= v);
        while i < self.probes.len()
            invariant
                v == fs_view(self),
                want@ == path@,
                i <= self.probes.len(),
                lookup(v, path@) == lookup(v.subrange(i as int, v.len() as int), path@),
            decreases self.probes.len() - i,
        {
            let have = chars_of(self.probes[i].path.as_str());
            let ghost rest = v.subrange(i as int, v.len() as int);
            assert(rest[0] == probe_view(self.probes@[i as int]));
            if seq_eq(&have, &want) {
                return Some(i);
            }
            assert(rest.drop_first() =~= v.subrange(i + 1, v.len() as int));
            i += 1;
        }
        None
    }

    pub fn resolved(&self, path: &str) -> (r: Option<String>)
        ensures
            opt_view(r) == lookup(fs_view(self), path@).resolved,
    {
        match self.position(path) {
            Some(i) => match &self.probes[i].resolved {
                Some(s) => Some(s.clone()),
                None => None,
            },
            None => None,
        }
    }

    pub fn dangling(&self, path: &str) -> (r: bool)
        ensures
            r == lookup(fs_view(self), path@).dangling,
    {
        match self.position(path) {
            Some(i) => self.probes[i].dangling,
            None => false,
        }
    }

    pub fn real_dir(&self, path: &str) -> (r: bool)
        ensures
            r == lookup(fs_view(self), path@).real_dir,
    {
        match self.position(path) {
            Some(i) => self.probes[i].real_dir,
            None => false,
        }
    }

    pub fn bundle_id(&self, path: &str) -> (r: Option<String>)
        ensures
            opt_view(r) == lookup(fs_view(self), path@).bundle_id,
    {
        match self.position(path) {
            Some(i) => match &self.probes[i].bundle_id {
                Some(s) => Some(s.clone()),
                None => None,
            },
            None => None,
        }
    }

    /// `normalize`, answered from the probes.
    pub fn normalize(&self, path: &str) -> (r: Option<Vec<Vec<char>>>)
        ensures
            match r {
                Some(p) => normalized(fs_view(self), path@) == Some(parts_view(p@)),
                None => normalized(fs_view(self), path@) is None,
            },
    {
        let c = chars_of(path);
        if c.len() == 0 || c[0] != '/' {
            return None;
        }
        let parts = components_of(path);
        if has_parent_dir_exec(&parts) {
            return None;
        }
        let r = match self.resolved(path) {
            Some(r) => r,
            None => return None,
        };
        let rc = chars_of(r.as_str());
        if rc.len() == 0 || rc[0] != '/' {
            return None;
        }
        let rparts = components_of(r.as_str());
        if has_parent_dir_exec(&rparts) {
            return None;
        }
        Some(strip_firmlink_exec(rparts))
    }
}

} // verus!
