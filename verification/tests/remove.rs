use spiral::catalog::{catalog, expand, Disposition};
use spiral::exclude::{self as exclude, ExclusionList};
use spiral::fsview::{FsView, Probe};
use spiral::paths::render_exec;
use spiral::plist::extract_plist_string;
use spiral::remove::delete::{could_not_remove, permanent_result, DeleteStep};
use spiral::remove::disposition::disposition_for;
use spiral::remove::execute::{execute, execute_within};
use spiral::remove::observe::observed_paths;
use spiral::remove::roots::{authorizing_root, is_user_content, is_within_app_bundle_scope, Roots};
use spiral::remove::types::{Candidate, Evidence, FailureKind, Justification, Outcome, Report};
use std::cell::RefCell;
use std::collections::{BTreeMap, VecDeque};
use std::path::{Path, PathBuf};

/// A small filesystem, described rather than touched: directories, files
/// with their contents, and symlinks. Probes are answered from it the way
/// the application answers them from disk.
#[derive(Clone)]
enum Node {
    Dir,
    File(String),
    Link(String),
}

struct World {
    nodes: BTreeMap<String, Node>,
}

enum Why {
    NotFound,
    Other,
}

fn parts(p: &str) -> Vec<String> {
    p.split('/').filter(|c| !c.is_empty()).map(|c| c.to_string()).collect()
}

fn joined(base: &str, name: &str) -> String {
    if base == "/" { format!("/{name}") } else { format!("{base}/{name}") }
}

fn parent_of(p: &str) -> Option<(String, String)> {
    let mut ps = parts(p);
    let name = ps.pop()?;
    let parent = if ps.is_empty() { "/".to_string() } else { format!("/{}", ps.join("/")) };
    Some((parent, name))
}

fn lexical(p: &str) -> String {
    format!("/{}", parts(p).join("/"))
}

impl World {
    fn new() -> World {
        let mut nodes = BTreeMap::new();
        nodes.insert("/".to_string(), Node::Dir);
        World { nodes }
    }

    fn dir(&mut self, p: &str) -> String {
        let mut cur = "/".to_string();
        for c in parts(p) {
            cur = joined(&cur, &c);
            self.nodes.entry(cur.clone()).or_insert(Node::Dir);
        }
        cur
    }

    fn file(&mut self, p: &str, contents: &str) -> String {
        let (parent, _) = parent_of(p).unwrap();
        self.dir(&parent);
        let key = lexical(p);
        self.nodes.insert(key.clone(), Node::File(contents.to_string()));
        key
    }

    fn link(&mut self, p: &str, target: &str) {
        let (parent, _) = parent_of(p).unwrap();
        self.dir(&parent);
        self.nodes.insert(lexical(p), Node::Link(target.to_string()));
    }

    fn holds(&self, p: &str) -> bool {
        self.nodes.contains_key(&lexical(p))
    }

    fn canonical(&self, p: &str) -> Result<String, Why> {
        if !p.starts_with('/') {
            return Err(Why::Other);
        }
        let mut cur = "/".to_string();
        let mut queue: VecDeque<String> = parts(p).into();
        let mut hops = 0;
        while let Some(c) = queue.pop_front() {
            if c == "." {
                continue;
            }
            if c == ".." {
                cur = parent_of(&cur).map(|(p, _)| p).unwrap_or_else(|| "/".to_string());
                continue;
            }
            let next = joined(&cur, &c);
            match self.nodes.get(&next) {
                None => return Err(Why::NotFound),
                Some(Node::Dir) => cur = next,
                Some(Node::File(_)) => {
                    if !queue.is_empty() {
                        return Err(Why::Other);
                    }
                    cur = next;
                }
                Some(Node::Link(t)) => {
                    hops += 1;
                    if hops > 40 {
                        return Err(Why::Other);
                    }
                    if t.starts_with('/') {
                        cur = "/".to_string();
                    }
                    for (k, tc) in parts(t).into_iter().enumerate() {
                        queue.insert(k, tc);
                    }
                }
            }
        }
        Ok(cur)
    }

    fn resolve(&self, p: &str, leaf: bool) -> Option<String> {
        match self.canonical(p) {
            Ok(r) => Some(r),
            Err(Why::NotFound) => {
                let is_link = matches!(self.nodes.get(&lexical(p)), Some(Node::Link(_)));
                if is_link && !leaf {
                    return None;
                }
                let (parent, name) = parent_of(p)?;
                Some(joined(&self.resolve(&parent, false)?, &name))
            }
            Err(Why::Other) => None,
        }
    }

    fn probe(&self, path: &str) -> Probe {
        let node = if path.starts_with('/') { self.nodes.get(&lexical(path)) } else { None };
        let is_link = matches!(node, Some(Node::Link(_)));
        let real_dir = matches!(node, Some(Node::Dir));
        let dangling = is_link && self.canonical(path).is_err();
        let resolved = self.resolve(path, true);
        let bundle_id = resolved
            .as_ref()
            .and_then(|r| match self.nodes.get(&joined(r, "Contents/Info.plist")) {
                Some(Node::File(text)) => extract_plist_string(text, "CFBundleIdentifier"),
                _ => None,
            });
        Probe { path: path.to_string(), resolved, dangling, real_dir, bundle_id }
    }

    fn view(&self, paths: &[String]) -> FsView {
        FsView { probes: paths.iter().map(|p| self.probe(p)).collect() }
    }
}

impl World {
    /// Takes `p` away: a directory with everything beneath it, each entry
    /// on its own, reported the way the library rules.
    fn remove(&mut self, p: &str, how: Disposition) -> Result<(), FailureKind> {
        let key = lexical(p);
        match self.nodes.get(&key) {
            None => return Err(could_not_remove(p, "No such file or directory (os error 2)")),
            Some(Node::Dir) => {}
            Some(_) => {
                self.nodes.remove(&key);
                return Ok(());
            }
        }
        let below: Vec<String> = self
            .nodes
            .keys()
            .filter(|k| k.starts_with(&format!("{key}/")))
            .cloned()
            .collect();
        let mut steps = Vec::new();
        for k in below.iter().rev() {
            self.nodes.remove(k);
            steps.push(DeleteStep::Removed);
        }
        self.nodes.remove(&key);
        steps.push(DeleteStep::Removed);
        match how {
            Disposition::Permanent => permanent_result(p, &steps),
            Disposition::Trash => Ok(()),
        }
    }

    /// Every path a removal run against `home` consults, observed.
    fn view_for(&self, home: &str, candidates: &[String], entries: &[String]) -> FsView {
        let first = self.view(&[home.to_string()]);
        let paths = observed_paths(home, &first, candidates, entries);
        self.view(&paths)
    }
}

const HOME: &str = "/Users/someone";

/// A Mac: `/tmp` leads to `/private/tmp`, and the user's home exists.
fn mac() -> World {
    let mut w = World::new();
    w.dir(HOME);
    w.dir("/Applications");
    w.dir("/Volumes");
    w.dir("/private/tmp");
    w.link("/tmp", "/private/tmp");
    w.dir("/System/Volumes/Data");
    w
}

fn s(p: &Path) -> String {
    p.to_string_lossy().into_owned()
}

fn home() -> PathBuf {
    PathBuf::from(HOME)
}

fn candidate(path: PathBuf, j: Justification) -> Candidate {
    Candidate { path: s(&path), justification: j }
}

fn list(paths: Vec<PathBuf>) -> ExclusionList {
    exclude::new(paths.iter().map(|p| s(p)).collect())
}

fn caches_dir(w: &mut World) -> PathBuf {
    PathBuf::from(w.dir(&format!("{HOME}/Library/Caches")))
}

fn agents_dir(w: &mut World) -> PathBuf {
    PathBuf::from(w.dir(&format!("{HOME}/Library/LaunchAgents")))
}

fn backups_dir(w: &mut World) -> PathBuf {
    PathBuf::from(w.dir(&format!("{HOME}/Library/Application Support/MobileSync/Backup")))
}

fn file(w: &mut World, dir: &Path, name: &str) -> PathBuf {
    PathBuf::from(w.file(&s(&dir.join(name)), "x"))
}

/// One removal run against the world; what is left of it comes back too.
fn run(w: World, candidates: Vec<Candidate>, excl: &ExclusionList) -> (Vec<Report>, World) {
    let paths: Vec<String> = candidates.iter().map(|c| c.path.clone()).collect();
    let fs = w.view_for(HOME, &paths, excl.entries());
    let roots = Roots::new(HOME, &fs);
    let world = RefCell::new(w);
    let delete = |p: &str, how: Disposition| world.borrow_mut().remove(p, how);
    let reports = execute_within(candidates, Ok(excl), roots.as_ref(), &fs, &delete);
    (reports, world.into_inner())
}

/// The verdicts of the bars on one path of a Mac, without removing anything.
fn user_content(w: &World, path: &Path) -> bool {
    let fs = w.view_for(HOME, &[s(path)], &[]);
    let roots = Roots::new(HOME, &fs).expect("the home resolves");
    is_user_content(&s(path), &roots, &fs)
}

fn app_scope(w: &World, path: &Path) -> bool {
    let fs = w.view_for(HOME, &[s(path)], &[]);
    let roots = Roots::new(HOME, &fs).expect("the home resolves");
    is_within_app_bundle_scope(&s(path), &roots, &fs)
}

fn disposition(w: &World, path: &Path, j: &Justification) -> Result<Disposition, String> {
    let fs = w.view_for(HOME, &[s(path)], &[]);
    let roots = Roots::new(HOME, &fs).expect("the home resolves");
    disposition_for(&s(path), j, &roots, &fs)
}

fn likely(id: &str) -> Justification {
    Justification::AppBundle { bundle_id: id.into(), evidence: Evidence::Likely }
}

fn verified(id: &str) -> Justification {
    Justification::AppBundle { bundle_id: id.into(), evidence: Evidence::Verified }
}

fn plant_bundle(w: &mut World, path: &str, bundle_id: &str) {
    w.file(
        &format!("{path}/Contents/Info.plist"),
        &format!(
            r#"<?xml version="1.0" encoding="UTF-8"?>
<plist version="1.0"><dict>
<key>CFBundleIdentifier</key><string>{bundle_id}</string>
<key>CFBundleName</key><string>Foo</string>
</dict></plist>"#
        ),
    );
}

#[test]
fn a_catalog_candidate_is_removed_permanently() {
    let mut w = mac();
    let c = caches_dir(&mut w);
    let p = file(&mut w, &c, "cache.bin");
    let (reports, w) = run(w, vec![candidate(p.clone(), Justification::Catalog("user-caches".into()))], &list(vec![]));
    assert!(matches!(reports[0].outcome, Outcome::Removed(Disposition::Permanent)));
    assert!(!w.holds(&s(&p)));
}

#[test]
fn a_catalog_directory_is_removed_whole() {
    let mut w = mac();
    let c = caches_dir(&mut w);
    let dir = PathBuf::from(w.dir(&s(&c.join("com.example.cache/nested"))));
    file(&mut w, &dir, "a.bin");
    let top = c.join("com.example.cache");
    let (reports, w) = run(w, vec![candidate(top.clone(), Justification::Catalog("user-caches".into()))], &list(vec![]));
    assert!(matches!(reports[0].outcome, Outcome::Removed(Disposition::Permanent)));
    assert!(!w.holds(&s(&top)));
    assert!(!w.holds(&s(&dir.join("a.bin"))));
}

#[test]
fn an_unknown_catalog_id_is_denied() {
    let mut w = mac();
    let c = caches_dir(&mut w);
    let p = file(&mut w, &c, "cache.bin");
    let (reports, w) = run(w, vec![candidate(p.clone(), Justification::Catalog("not-real".into()))], &list(vec![]));
    assert!(matches!(reports[0].outcome, Outcome::Denied(_)));
    assert!(w.holds(&s(&p)));
}

#[test]
fn an_orphan_goes_to_the_trash_not_permanent() {
    let mut w = mac();
    let c = caches_dir(&mut w);
    let p = file(&mut w, &c, "com.example.gone.plist");
    let (reports, _) = run(
        w,
        vec![candidate(p, Justification::Orphan { bundle_id: "com.example.gone".into() })],
        &list(vec![]),
    );
    assert!(matches!(reports[0].outcome, Outcome::Removed(Disposition::Trash)));
}

#[test]
fn an_orphan_whose_path_does_not_carry_its_id_is_denied() {
    let mut w = mac();
    let c = caches_dir(&mut w);
    let p = file(&mut w, &c, "unrelated.plist");
    let (reports, w) = run(
        w,
        vec![candidate(p.clone(), Justification::Orphan { bundle_id: "com.example.gone".into() })],
        &list(vec![]),
    );
    assert!(matches!(reports[0].outcome, Outcome::Denied(_)));
    assert!(w.holds(&s(&p)));
}

#[test]
fn a_user_launch_agent_goes_to_the_trash_not_permanent() {
    let mut w = mac();
    let a = agents_dir(&mut w);
    let p = file(&mut w, &a, "com.example.agent.plist");
    let (reports, _) = run(w, vec![candidate(p, Justification::StartupItem)], &list(vec![]));
    assert!(matches!(reports[0].outcome, Outcome::Removed(Disposition::Trash)));
}

#[test]
fn a_non_plist_in_launchagents_is_denied() {
    let mut w = mac();
    let a = agents_dir(&mut w);
    let p = file(&mut w, &a, "notes.txt");
    let (reports, w) = run(w, vec![candidate(p.clone(), Justification::StartupItem)], &list(vec![]));
    assert!(matches!(reports[0].outcome, Outcome::Denied(_)));
    assert!(w.holds(&s(&p)));
}

#[test]
fn a_system_launch_daemon_is_denied() {
    let w = mac();
    let (reports, _) = run(
        w,
        vec![candidate(PathBuf::from("/Library/LaunchDaemons/com.example.daemon.plist"), Justification::StartupItem)],
        &list(vec![]),
    );
    assert!(matches!(reports[0].outcome, Outcome::Denied(_)));
}

#[test]
fn launchagents_itself_is_never_removable() {
    let mut w = mac();
    let dir = agents_dir(&mut w);
    let (reports, w) = run(w, vec![candidate(dir.clone(), Justification::StartupItem)], &list(vec![]));
    assert!(matches!(reports[0].outcome, Outcome::Denied(_)));
    assert!(w.holds(&s(&dir)));
}

#[test]
fn an_excluded_launch_agent_is_skipped_like_anything_else() {
    let mut w = mac();
    let a = agents_dir(&mut w);
    let p = file(&mut w, &a, "com.example.agent.plist");
    let (reports, w) = run(w, vec![candidate(p.clone(), Justification::StartupItem)], &list(vec![p.clone()]));
    assert!(matches!(reports[0].outcome, Outcome::Excluded(_)));
    assert!(w.holds(&s(&p)));
}

#[test]
fn the_backup_folder_itself_is_never_removable() {
    let mut w = mac();
    let dir = backups_dir(&mut w);
    let (reports, w) = run(w, vec![candidate(dir.clone(), Justification::DeviceBackup)], &list(vec![]));
    assert!(matches!(reports[0].outcome, Outcome::Denied(_)));
    assert!(w.holds(&s(&dir)));
}

#[test]
fn a_device_backup_goes_to_the_trash() {
    let mut w = mac();
    let b = backups_dir(&mut w);
    let backup = PathBuf::from(w.dir(&s(&b.join("00008120-001A2B3C4D5E6F70"))));
    let (reports, _) = run(w, vec![candidate(backup, Justification::DeviceBackup)], &list(vec![]));
    assert!(matches!(reports[0].outcome, Outcome::Removed(Disposition::Trash)));
}

#[test]
fn something_inside_a_backup_is_denied_only_the_backup_itself_goes() {
    let mut w = mac();
    let b = backups_dir(&mut w);
    let inner = PathBuf::from(w.file(&s(&b.join("00008120-001A/Manifest.db")), "x"));
    let (reports, w) = run(w, vec![candidate(inner.clone(), Justification::DeviceBackup)], &list(vec![]));
    assert!(matches!(reports[0].outcome, Outcome::Denied(_)));
    assert!(w.holds(&s(&inner)));
}

#[test]
fn an_excluded_path_is_skipped() {
    let mut w = mac();
    let caches = caches_dir(&mut w);
    let p = file(&mut w, &caches, "cache.bin");
    let (reports, w) = run(
        w,
        vec![candidate(p.clone(), Justification::Catalog("user-caches".into()))],
        &list(vec![caches.clone()]),
    );
    assert!(matches!(reports[0].outcome, Outcome::Excluded(_)));
    assert!(w.holds(&s(&p)));
}

#[test]
fn an_exclusion_skip_names_the_entry_responsible() {
    let mut w = mac();
    let caches = caches_dir(&mut w);
    let p = file(&mut w, &caches, "cache.bin");
    let (reports, _) = run(
        w,
        vec![candidate(p, Justification::Catalog("user-caches".into()))],
        &list(vec![caches.clone()]),
    );
    match &reports[0].outcome {
        Outcome::Excluded(why) => assert!(why.contains(&s(&caches)), "{why}"),
        other => panic!("expected Excluded, got {other:?}"),
    }
}

#[test]
fn an_unreadable_exclusion_list_denies_every_candidate() {
    let mut w = mac();
    let c = caches_dir(&mut w);
    let p = file(&mut w, &c, "cache.bin");
    let fs = w.view_for(HOME, &[s(&p)], &[]);
    let roots = Roots::new(HOME, &fs);
    let world = RefCell::new(w);
    let delete = |q: &str, how: Disposition| world.borrow_mut().remove(q, how);
    let reports = execute_within(
        vec![candidate(p.clone(), Justification::Catalog("user-caches".into()))],
        Err("the list is unreadable"),
        roots.as_ref(),
        &fs,
        &delete,
    );
    assert_eq!(reports[0].outcome, Outcome::Denied("the list is unreadable".to_string()));
    assert!(world.into_inner().holds(&s(&p)));
}

#[test]
fn one_failure_does_not_abort_the_batch() {
    let mut w = mac();
    let caches = caches_dir(&mut w);
    let good = file(&mut w, &caches, "a.bin");
    let missing = caches.join("gone.bin");
    let (reports, w) = run(
        w,
        vec![
            candidate(missing, Justification::Catalog("user-caches".into())),
            candidate(good.clone(), Justification::Catalog("user-caches".into())),
        ],
        &list(vec![]),
    );
    assert_eq!(reports.len(), 2);
    assert!(matches!(reports[0].outcome, Outcome::Failed(_)));
    assert!(matches!(reports[1].outcome, Outcome::Removed(_)));
    assert!(!w.holds(&s(&good)));
}

#[test]
fn the_first_bar_is_wired_into_execute() {
    let w = mac();
    let path = "/Volumes/spiral-clean-no-such-volume/thing".to_string();
    let fs = w.view_for(HOME, &[path.clone()], &[]);
    let world = RefCell::new(w);
    let delete = |q: &str, how: Disposition| world.borrow_mut().remove(q, how);
    let reports = execute(
        vec![Candidate { path, justification: Justification::DeviceBackup }],
        &Ok(list(vec![])),
        HOME,
        &fs,
        &delete,
    );
    assert!(matches!(reports[0].outcome, Outcome::Denied(_)));
}

#[test]
fn nothing_is_removed_when_the_home_directory_cannot_be_resolved() {
    let mut w = mac();
    let c = caches_dir(&mut w);
    let p = file(&mut w, &c, "cache.bin");
    let fs = w.view_for(HOME, &[s(&p)], &[]);
    let world = RefCell::new(w);
    let delete = |q: &str, how: Disposition| world.borrow_mut().remove(q, how);
    let reports = execute_within(
        vec![candidate(p.clone(), Justification::Catalog("user-caches".into()))],
        Ok(&list(vec![])),
        None,
        &fs,
        &delete,
    );
    assert!(matches!(reports[0].outcome, Outcome::Denied(_)));
    assert!(world.into_inner().holds(&s(&p)));
}

#[test]
fn execute_denies_rather_than_panics_when_the_given_home_cannot_be_resolved() {
    let mut w = mac();
    w.link(&format!("{HOME}/loop-a"), &format!("{HOME}/loop-b"));
    w.link(&format!("{HOME}/loop-b"), &format!("{HOME}/loop-a"));
    let bad_home = format!("{HOME}/loop-a");
    let path = format!("{HOME}/Library/Caches/x");
    let fs = w.view_for(&bad_home, &[path.clone()], &[]);
    let world = RefCell::new(w);
    let delete = |q: &str, how: Disposition| world.borrow_mut().remove(q, how);
    let reports = execute(
        vec![Candidate { path, justification: Justification::Catalog("user-caches".into()) }],
        &Ok(list(vec![])),
        &bad_home,
        &fs,
        &delete,
    );
    assert!(matches!(reports[0].outcome, Outcome::Denied(_)));
}

#[test]
fn an_absolute_root_that_is_a_symlink_is_refused() {
    let w = mac();
    let fs = w.view_for(HOME, &["/tmp".to_string()], &[]);
    let roots = Roots::new(HOME, &fs).unwrap();
    assert_eq!(authorizing_root("/tmp", &roots.home, &fs), None);
    assert_eq!(
        authorizing_root("/Applications", &roots.home, &fs).map(|p| render_exec(&p)),
        Some("/Applications".into())
    );
}

#[test]
fn a_symlink_out_of_a_catalog_root_cannot_reach_its_target() {
    let mut w = mac();
    let c = caches_dir(&mut w);
    let docs = w.dir(&format!("{HOME}/Documents"));
    w.file(&format!("{docs}/tax.pdf"), "x");
    w.link(&s(&c.join("sneaky")), &docs);
    let (reports, w) = run(
        w,
        vec![candidate(c.join("sneaky/tax.pdf"), Justification::Catalog("user-caches".into()))],
        &list(vec![]),
    );
    assert!(matches!(reports[0].outcome, Outcome::Denied(_)));
    assert!(w.holds(&format!("{docs}/tax.pdf")));
}

#[test]
fn a_catalog_root_symlinked_out_of_the_home_is_refused_not_swept() {
    let mut w = mac();
    w.dir("/private/tmp/elsewhere");
    w.file("/private/tmp/elsewhere/keep.bin", "x");
    w.dir(&format!("{HOME}/Library"));
    w.link(&format!("{HOME}/Library/Caches"), "/private/tmp/elsewhere");
    let (reports, w) = run(
        w,
        vec![candidate(
            PathBuf::from(format!("{HOME}/Library/Caches/keep.bin")),
            Justification::Catalog("user-caches".into()),
        )],
        &list(vec![]),
    );
    assert!(!matches!(reports[0].outcome, Outcome::Removed(_)), "{:?}", reports[0].outcome);
    assert!(w.holds("/private/tmp/elsewhere/keep.bin"));
}

#[test]
fn a_dangling_symlink_component_is_refused_not_re_appended() {
    let mut w = mac();
    w.link(&format!("{HOME}/.npm"), &format!("{HOME}/nowhere"));
    let fs = w.view_for(HOME, &[], &[]);
    let roots = Roots::new(HOME, &fs).unwrap();
    assert_eq!(
        authorizing_root("~/.npm/_cacache", &roots.home, &fs),
        None,
        "a root behind a dangling symlink was authorised"
    );

    let (reports, _) = run(
        w,
        vec![candidate(
            PathBuf::from(format!("{HOME}/.npm/_cacache/x")),
            Justification::Catalog("package-manager-caches".into()),
        )],
        &list(vec![]),
    );
    assert!(
        matches!(reports[0].outcome, Outcome::Denied(_)),
        "a path behind a dangling symlink was not denied: {:?}",
        reports[0].outcome
    );
}

#[test]
fn a_dangling_symlink_candidate_is_still_reaped() {
    let mut w = mac();
    let c = caches_dir(&mut w);
    let link = c.join("stale-link");
    w.link(&s(&link), &format!("{HOME}/nowhere"));
    let (reports, w) = run(
        w,
        vec![candidate(link.clone(), Justification::Catalog("user-caches".into()))],
        &list(vec![]),
    );
    assert!(matches!(reports[0].outcome, Outcome::Removed(Disposition::Permanent)), "{:?}", reports[0].outcome);
    assert!(!w.holds(&s(&link)));
}

#[test]
fn an_unresolvable_path_is_refused_without_calling_it_the_users_content() {
    let mut w = mac();
    let caches = caches_dir(&mut w);
    w.link(&s(&caches.join("a")), &s(&caches.join("b")));
    w.link(&s(&caches.join("b")), &s(&caches.join("a")));

    let (reports, _) = run(
        w,
        vec![candidate(caches.join("a"), Justification::Catalog("user-caches".into()))],
        &list(vec![]),
    );
    let why = match &reports[0].outcome {
        Outcome::Denied(why) => why.clone(),
        other => panic!("expected Denied, got {other:?}"),
    };
    assert!(!why.contains("your own content"), "an unresolvable path was called the user's content: {why}");
    assert!(why.contains("could not work out what"), "the message does not say what actually happened: {why}");
}

#[test]
fn a_genuinely_absent_path_still_resolves_through_its_existing_ancestor() {
    let mut w = mac();
    let caches = caches_dir(&mut w);
    let absent = caches.join("gone/deeper.bin");
    let fs = w.view(&[s(&caches), s(&absent)]);
    let expected = format!("{}/gone/deeper.bin", render_exec(&fs.normalize(&s(&caches)).unwrap()));
    assert_eq!(
        fs.normalize(&s(&absent)).map(|p| render_exec(&p)),
        Some(expected),
        "an absent tail under a real directory did not resolve"
    );
}

#[test]
fn a_symlink_loop_is_denied_rather_than_guessed_at() {
    let mut w = mac();
    let caches = caches_dir(&mut w);
    w.link(&s(&caches.join("a")), &s(&caches.join("b")));
    w.link(&s(&caches.join("b")), &s(&caches.join("a")));
    let path = caches.join("a");
    assert!(user_content(&w, &path), "a symlink loop was not denied");
    assert!(disposition(&w, &path, &Justification::Catalog("user-caches".into())).is_err());
}

#[test]
fn user_content_is_denied_whatever_the_justification() {
    let w = mac();
    for root in ["Documents", "Desktop", "Downloads", "Movies", "Music", "Pictures"] {
        let path = home().join(root).join("file.txt");
        assert!(user_content(&w, &path), "{root} was not denied");
    }
}

#[test]
fn external_volumes_are_denied_regardless_of_case() {
    let w = mac();
    for prefix in ["/Volumes", "/volumes", "/VOLUMES"] {
        let path = PathBuf::from(format!("{prefix}/Backup/thing"));
        assert!(user_content(&w, &path), "{prefix} was not denied");
    }
}

#[test]
fn parent_dir_traversal_out_of_user_content_is_denied() {
    let w = mac();
    let path = home().join("Library/Caches/../Documents/tax.pdf");
    assert!(user_content(&w, &path), "traversal path was not denied");
    assert!(!app_scope(&w, &path), "traversal path was in app scope");
}

#[test]
fn case_variant_user_content_is_denied() {
    let w = mac();
    for variant in ["documents", "DOCUMENTS", "DoCuMeNtS"] {
        let path = home().join(variant).join("file.txt");
        assert!(user_content(&w, &path), "{variant} was not denied");
    }
}

#[test]
fn firmlink_data_volume_path_is_denied() {
    let w = mac();
    let home_tail = HOME.strip_prefix('/').unwrap();
    for prefix in ["/System/Volumes/Data", "/system/Volumes/Data", "/System/volumes/data"] {
        let path = Path::new(prefix).join(home_tail).join("Documents/file.txt");
        assert!(user_content(&w, &path), "{prefix} firmlink path was not denied");
    }
}

#[test]
fn a_doubled_firmlink_prefix_is_stripped_not_half_stripped() {
    let w = mac();
    let home_tail = HOME.strip_prefix('/').unwrap();
    let path = Path::new("/System/Volumes/Data/System/Volumes/Data").join(home_tail).join("Documents/x");
    assert!(user_content(&w, &path), "doubled firmlink prefix was not denied");
}

#[test]
fn a_relative_path_is_denied() {
    let mut w = mac();
    w.file("/work/Cargo.toml", "x");
    w.dir("/work/src");
    let fs = w.view(&["Cargo.toml".to_string(), "src".to_string()]);
    assert_eq!(fs.normalize("Cargo.toml"), None, "a relative path resolved");
    assert_eq!(fs.normalize("src"), None, "a relative directory resolved");
    assert!(user_content(&w, Path::new("Cargo.toml")));
    assert!(!app_scope(&w, Path::new("Example.app")));
}

#[test]
fn a_trailing_slash_does_not_change_the_verdict() {
    let w = mac();
    assert!(user_content(&w, Path::new("/Users/")));
    assert!(user_content(&w, Path::new(&format!("{HOME}/Documents/"))));
}

#[test]
fn protected_roots_are_derived_from_the_catalog_not_transcribed() {
    let w = mac();
    for entry in catalog() {
        for root in entry.roots {
            let path = expand(root, HOME);
            assert!(user_content(&w, Path::new(&path)), "catalog root {} ({}) is not protected", path, entry.id);
        }
    }
    for path in [
        PathBuf::from("/Users"),
        PathBuf::from("/Applications"),
        home().join("Applications"),
        home().join("Library"),
        home().join("Library/Application Support"),
        home(),
    ] {
        assert!(user_content(&w, &path), "{} is not protected", path.display());
    }
}

#[test]
fn an_ancestor_of_a_protected_root_is_denied() {
    let w = mac();
    for path in [
        PathBuf::from("/"),
        PathBuf::from("/Users"),
        home(),
        PathBuf::from("/System/Volumes/Data/Users"),
    ] {
        assert!(user_content(&w, &path), "{} was not denied", path.display());
    }
}

#[test]
fn library_and_applications_themselves_are_denied() {
    let w = mac();
    for path in [home().join("Library"), PathBuf::from("/Applications"), home().join("Applications")] {
        assert!(user_content(&w, &path), "{} was not denied", path.display());
    }
}

#[test]
fn every_immediate_child_of_library_is_denied_by_depth() {
    let w = mac();
    for name in [
        "Application Support",
        "Preferences",
        "Containers",
        "Group Containers",
        "LaunchAgents",
        "WebKit",
        "HTTPStorages",
        "Cookies",
        "SomeContainerAppleHasNotShippedYet",
    ] {
        let path = home().join("Library").join(name);
        assert!(user_content(&w, &path), "~/Library/{name} was not denied");
        assert!(disposition(&w, &path, &likely("x")).is_err(), "~/Library/{name} was permitted under AppBundle");
    }
}

#[test]
fn one_apps_state_inside_a_container_is_still_permitted() {
    let w = mac();
    for path in [
        home().join("Library/Application Support/Slack"),
        home().join("Library/Preferences/com.foo.plist"),
        home().join("Library/Containers/com.foo"),
        home().join("Library/LaunchAgents/com.foo.plist"),
    ] {
        assert!(!user_content(&w, &path), "{} was wrongly denied", path.display());
        assert_eq!(
            disposition(&w, &path, &likely("x")),
            Ok(Disposition::Trash),
            "{} was not permitted under AppBundle",
            path.display()
        );
    }
}

#[test]
fn icloud_drive_wins_over_app_bundle_containment() {
    let w = mac();
    let path = home().join("Library/Mobile Documents/com~apple~CloudDocs/thing");
    assert!(user_content(&w, &path));
}

#[test]
fn an_app_bundle_under_applications_is_permitted_regardless_of_case() {
    let w = mac();
    for path in ["/Applications/Example.app", "/applications/Example.app"] {
        let result = disposition(&w, Path::new(path), &likely("com.example.app"));
        assert_eq!(result, Ok(Disposition::Trash), "{path} was not permitted");
    }
}

#[test]
fn an_app_bundle_outside_the_allowed_roots_is_denied() {
    let w = mac();
    let result = disposition(&w, Path::new("/tmp/Example.app"), &likely("com.example.app"));
    assert!(result.is_err());
}

#[test]
fn catalog_justification_is_validated_against_its_own_entrys_roots() {
    let w = mac();
    let wrong_entry = disposition(&w, &home().join("Library/Logs/some.log"), &Justification::Catalog("user-caches".into()));
    assert!(wrong_entry.is_err(), "a Library/Logs path was accepted under the user-caches justification");
}

#[test]
fn real_catalog_paths_still_reach_permanent() {
    let w = mac();
    for (path, id) in [
        (home().join("Library/Caches/thing/f.bin"), "user-caches"),
        (home().join("Library/Caches"), "user-caches"),
        (home().join(".gradle/caches"), "package-manager-caches"),
    ] {
        assert_eq!(
            disposition(&w, &path, &Justification::Catalog(id.into())),
            Ok(Disposition::Permanent),
            "{} was not permitted under {id}",
            path.display()
        );
    }
}

#[test]
fn a_verified_app_bundle_item_is_removed_permanently() {
    let mut w = mac();
    let item = w.file(&format!("{HOME}/Library/Application Support/com.example.foo"), "x");
    assert_eq!(disposition(&w, Path::new(&item), &verified("com.example.foo")), Ok(Disposition::Permanent));
}

#[test]
fn a_likely_app_bundle_item_goes_to_the_trash() {
    let mut w = mac();
    let item = w.file(&format!("{HOME}/Library/Application Support/Foo"), "x");
    assert_eq!(disposition(&w, Path::new(&item), &likely("com.example.foo")), Ok(Disposition::Trash));
}

#[test]
fn a_verified_claim_the_path_does_not_support_is_denied() {
    let mut w = mac();
    let item = w.file(&format!("{HOME}/Library/Application Support/Foo"), "x");
    assert!(disposition(&w, Path::new(&item), &verified("com.example.foo")).is_err());
}

#[test]
fn a_verified_claim_does_not_match_a_different_apps_id_by_prefix() {
    let mut w = mac();
    let item = w.file(&format!("{HOME}/Library/Application Support/com.example.foobar"), "x");
    assert!(disposition(&w, Path::new(&item), &verified("com.example.foo")).is_err());
}

#[test]
fn a_verified_applications_bundle_reaches_permanent() {
    let w = mac();
    let d = disposition(&w, Path::new("/Applications/com.example.foo.app"), &verified("com.example.foo"));
    assert_eq!(d, Ok(Disposition::Permanent));
}

#[test]
fn an_apple_bundle_id_is_refused_wherever_the_candidate_sits() {
    let w = mac();
    let why = disposition(&w, Path::new("/tmp/Whatever"), &verified("com.apple.Safari"))
        .expect_err("an Apple bundle id was accepted outside the uninstall scope");
    assert!(why.contains("Apple"), "the scope bar answered instead of the Apple bar: {why}");
}

#[test]
fn a_bundle_declaring_the_claimed_id_reaches_permanent() {
    let mut w = mac();
    let bundle = "/Applications/Foo.app";
    plant_bundle(&mut w, bundle, "com.example.foo");
    assert_eq!(disposition(&w, Path::new(bundle), &verified("com.example.foo")), Ok(Disposition::Permanent));
}

#[test]
fn a_bundle_declaring_a_different_id_is_denied() {
    let mut w = mac();
    let bundle = "/Applications/Foo.app";
    plant_bundle(&mut w, bundle, "com.example.other");
    assert!(disposition(&w, Path::new(bundle), &verified("com.example.foo")).is_err());
}

#[test]
fn a_symlinked_bundle_is_not_verified_by_whatever_it_points_at() {
    let mut w = mac();
    plant_bundle(&mut w, "/private/tmp/Real.app", "com.example.foo");
    w.link("/Applications/Foo.app", "/private/tmp/Real.app");
    assert!(disposition(&w, Path::new("/Applications/Foo.app"), &verified("com.example.foo")).is_err());
}

#[test]
fn a_plain_directory_with_a_planted_plist_is_not_an_app_bundle() {
    let mut w = mac();
    let dir = format!("{HOME}/Library/Application Support/Slack");
    plant_bundle(&mut w, &dir, "com.example.foo");
    assert!(
        disposition(&w, Path::new(&dir), &verified("com.example.foo")).is_err(),
        "a plain directory with a planted plist was treated as an app bundle"
    );
}

#[test]
fn an_empty_bundle_id_is_refused_rather_than_matching_everything() {
    let mut w = mac();
    let bundle = "/Applications/Foo.app";
    plant_bundle(&mut w, bundle, "com.example.foo");
    assert!(disposition(&w, Path::new(bundle), &verified("")).is_err());
}

#[test]
fn a_partial_removal_is_reported_as_partial() {
    let steps = vec![DeleteStep::Removed, DeleteStep::Failed("/x/y: denied".to_string())];
    match permanent_result("/x", &steps) {
        Err(FailureKind::Partial(m)) => assert_eq!(
            m,
            "Some contents of /x were removed before a failure (/x/y: denied). The rest remains — check permissions and try again."
        ),
        _ => panic!("expected a partial failure"),
    }
    match permanent_result("/x", &[DeleteStep::Failed("walk failed".to_string())]) {
        Err(FailureKind::Total(m)) => assert_eq!(m, "Could not remove /x: walk failed"),
        _ => panic!("expected a total failure"),
    }
    assert!(permanent_result("/x", &[DeleteStep::Removed, DeleteStep::Removed]).is_ok());
}
