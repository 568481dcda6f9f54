use spiral::exclude::{accept_loaded, new, save_refusal, unreadable, ExclusionList};
use spiral::fsview::{FsView, Probe};
use spiral::plist::extract_plist_string;
use std::collections::{BTreeMap, VecDeque};
use std::path::{Path, PathBuf};

/// A small filesystem, described rather than touched: directories, files
/// with their contents, and symlinks. Probes are answered from it the way
/// the application answers them from disk.
#[derive(Clone)]
enum Node {
    Dir,
    File(String),
    Link(String),
}

struct World {
    nodes: BTreeMap<String, Node>,
}

enum Why {
    NotFound,
    Other,
}

fn parts(p: &str) -> Vec<String> {
    p.split('/').filter(|c| !c.is_empty()).map(|c| c.to_string()).collect()
}

fn joined(base: &str, name: &str) -> String {
    if base == "/" { format!("/{name}") } else { format!("{base}/{name}") }
}

fn parent_of(p: &str) -> Option<(String, String)> {
    let mut ps = parts(p);
    let name = ps.pop()?;
    let parent = if ps.is_empty() { "/".to_string() } else { format!("/{}", ps.join("/")) };
    Some((parent, name))
}

fn lexical(p: &str) -> String {
    format!("/{}", parts(p).join("/"))
}

impl World {
    fn new() -> World {
        let mut nodes = BTreeMap::new();
        nodes.insert("/".to_string(), Node::Dir);
        World { nodes }
    }

    fn dir(&mut self, p: &str) -> String {
        let mut cur = "/".to_string();
        for c in parts(p) {
            cur = joined(&cur, &c);
            self.nodes.entry(cur.clone()).or_insert(Node::Dir);
        }
        cur
    }

    fn file(&mut self, p: &str, contents: &str) -> String {
        let (parent, _) = parent_of(p).unwrap();
        self.dir(&parent);
        let key = lexical(p);
        self.nodes.insert(key.clone(), Node::File(contents.to_string()));
        key
    }

    fn link(&mut self, p: &str, target: &str) {
        let (parent, _) = parent_of(p).unwrap();
        self.dir(&parent);
        self.nodes.insert(lexical(p), Node::Link(target.to_string()));
    }

    fn holds(&self, p: &str) -> bool {
        self.nodes.contains_key(&lexical(p))
    }

    fn canonical(&self, p: &str) -> Result<String, Why> {
        if !p.starts_with('/') {
            return Err(Why::Other);
        }
        let mut cur = "/".to_string();
        let mut queue: VecDeque<String> = parts(p).into();
        let mut hops = 0;
        while let Some(c) = queue.pop_front() {
            if c == "." {
                continue;
            }
            if c == ".." {
                cur = parent_of(&cur).map(|(p, _)| p).unwrap_or_else(|| "/".to_string());
                continue;
            }
            let next = joined(&cur, &c);
            match self.nodes.get(&next) {
                None => return Err(Why::NotFound),
                Some(Node::Dir) => cur = next,
                Some(Node::File(_)) => {
                    if !queue.is_empty() {
                        return Err(Why::Other);
                    }
                    cur = next;
                }
                Some(Node::Link(t)) => {
                    hops += 1;
                    if hops > 40 {
                        return Err(Why::Other);
                    }
                    if t.starts_with('/') {
                        cur = "/".to_string();
                    }
                    for (k, tc) in parts(t).into_iter().enumerate() {
                        queue.insert(k, tc);
                    }
                }
            }
        }
        Ok(cur)
    }

    fn resolve(&self, p: &str, leaf: bool) -> Option<String> {
        match self.canonical(p) {
            Ok(r) => Some(r),
            Err(Why::NotFound) => {
                let is_link = matches!(self.nodes.get(&lexical(p)), Some(Node::Link(_)));
                if is_link && !leaf {
                    return None;
                }
                let (parent, name) = parent_of(p)?;
                Some(joined(&self.resolve(&parent, false)?, &name))
            }
            Err(Why::Other) => None,
        }
    }

    fn probe(&self, path: &str) -> Probe {
        let node = if path.starts_with('/') { self.nodes.get(&lexical(path)) } else { None };
        let is_link = matches!(node, Some(Node::Link(_)));
        let real_dir = matches!(node, Some(Node::Dir));
        let dangling = is_link && self.canonical(path).is_err();
        let resolved = self.resolve(path, true);
        let bundle_id = resolved
            .as_ref()
            .and_then(|r| match self.nodes.get(&joined(r, "Contents/Info.plist")) {
                Some(Node::File(text)) => extract_plist_string(text, "CFBundleIdentifier"),
                _ => None,
            });
        Probe { path: path.to_string(), resolved, dangling, real_dir, bundle_id }
    }

    fn view(&self, paths: &[String]) -> FsView {
        FsView { probes: paths.iter().map(|p| self.probe(p)).collect() }
    }
}

fn s(p: &Path) -> String {
    p.to_string_lossy().into_owned()
}

fn list(paths: Vec<PathBuf>) -> ExclusionList {
    new(paths.iter().map(|p| s(p)).collect())
}

/// The Mac the exclusions are judged on: `/tmp` leads to `/private/tmp`.
fn mac() -> World {
    let mut w = World::new();
    w.dir("/private/tmp");
    w.link("/tmp", "/private/tmp");
    w.dir("/Users/someone");
    w
}

/// The list's verdict on `candidate`, with `w` observed for the candidate
/// and every entry.
fn covers_in(w: &World, list: &ExclusionList, candidate: &Path) -> bool {
    let mut paths = vec![s(candidate)];
    paths.extend(list.entries().iter().cloned());
    list.covers(&s(candidate), &w.view(&paths))
}

fn covers(list: &ExclusionList, candidate: &Path) -> bool {
    covers_in(&mac(), list, candidate)
}

fn add(list: &mut ExclusionList, path: PathBuf) -> Result<(), String> {
    let mut paths = vec![s(&path)];
    paths.extend(list.entries().iter().cloned());
    let fs = mac().view(&paths);
    list.add(s(&path), &fs)
}

#[test]
fn covers_an_exact_path() {
    let list = list(vec![PathBuf::from("/tmp/keep.txt")]);
    assert!(covers(&list, Path::new("/tmp/keep.txt")));
}

#[test]
fn covers_everything_beneath_an_excluded_directory() {
    let list = list(vec![PathBuf::from("/tmp/keep")]);
    assert!(covers(&list, Path::new("/tmp/keep/nested/deep.txt")));
}

#[test]
fn does_not_cover_a_sibling_with_a_shared_prefix() {
    let list = list(vec![PathBuf::from("/tmp/keep")]);
    assert!(!covers(&list, Path::new("/tmp/keepsake.txt")));
    assert!(!covers(&list, Path::new("/tmp/KEEPSAKE.txt")));
    assert!(!covers(&list, Path::new("/tmp/kee")));
}

#[test]
fn empty_list_covers_nothing() {
    let list = list(vec![]);
    assert!(!covers(&list, Path::new("/tmp/anything")));
}

#[test]
fn covers_a_case_variant_of_an_excluded_path() {
    let list = list(vec![PathBuf::from("/tmp/Keep")]);
    for candidate in ["/tmp/keep", "/tmp/KEEP/inner.txt", "/TMP/kEeP/inner.txt"] {
        assert!(covers(&list, Path::new(candidate)), "{candidate} escaped the exclusion");
    }
}

#[test]
fn covers_a_firmlink_route_to_an_excluded_path() {
    let list = list(vec![PathBuf::from("/Users/someone/keep")]);
    assert!(covers(&list, Path::new("/System/Volumes/Data/Users/someone/keep/f.bin")));
    assert!(!covers(&list, Path::new("/System/Volumes/Data/Users/someone/keepsake")));
}

#[test]
fn covers_a_symlinked_route_to_an_excluded_path() {
    let mut w = mac();
    let keep = w.dir("/private/tmp/t1/keep");
    w.file(&format!("{keep}/precious.txt"), "x");
    w.link("/private/tmp/t1/link", &keep);

    let list = list(vec![PathBuf::from(&keep)]);
    assert!(covers_in(&w, &list, Path::new("/private/tmp/t1/link/precious.txt")), "a symlinked route escaped");
    assert!(covers_in(&w, &list, Path::new("/private/tmp/t1/link")), "the link itself escaped");
}

#[test]
fn covers_an_excluded_path_reached_through_a_symlinked_ancestor() {
    let mut w = mac();
    let real = w.dir("/private/tmp/t2/real/keep");
    w.file(&format!("{real}/precious.txt"), "x");
    w.link("/private/tmp/t2/alias", "/private/tmp/t2/real");

    let list = list(vec![PathBuf::from(&real)]);
    assert!(covers_in(&w, &list, Path::new("/private/tmp/t2/alias/keep/precious.txt")));
}

#[test]
fn covers_a_path_it_cannot_resolve_rather_than_failing_open() {
    let mut w = mac();
    let keep = w.dir("/private/tmp/t3/keep");
    w.link(&format!("{keep}/a"), &format!("{keep}/b"));
    w.link(&format!("{keep}/b"), &format!("{keep}/a"));
    let looped = format!("{keep}/a");
    let fs = w.view(&[looped.clone()]);
    assert_eq!(fs.normalize(&looped), None, "the loop resolved; this proves nothing");

    let list = list(vec![PathBuf::from(&keep)]);
    assert!(covers_in(&w, &list, Path::new(&looped)), "an unresolvable path escaped the exclusion");

    let shouty = "/private/tmp/t3/KEEP/a".to_string();
    assert!(covers_in(&w, &list, Path::new(&shouty)), "a case variant of an unresolvable path escaped");
}

#[test]
fn a_route_through_tmp_is_the_same_place_as_private_tmp() {
    let list = list(vec![PathBuf::from("/private/tmp/keep")]);
    assert!(covers(&list, Path::new("/tmp/keep/inner.txt")));
    assert!(!covers(&list, Path::new("/tmp/keepsake.txt")));
}

#[test]
fn covers_an_ancestor_of_an_excluded_path() {
    let list = list(vec![PathBuf::from("/tmp/x/keep")]);
    assert!(covers(&list, Path::new("/tmp/x")));
    assert!(covers(&list, Path::new("/tmp")));
    assert!(!covers(&list, Path::new("/tmp/xylophone")));
}

#[test]
fn the_two_directions_are_told_apart() {
    let list = list(vec![PathBuf::from("/tmp/x/keep")]);
    let fs = FsView::empty();
    let beneath = list.covering("/tmp/x/keep/f", &fs).unwrap().reason();
    assert_eq!(beneath, "Skipped because you asked Spiral Clean never to touch /tmp/x/keep.");
    let above = list.covering("/tmp/x", &fs).unwrap().reason();
    assert_eq!(
        above,
        "Skipped because removing it would also remove /tmp/x/keep, which you asked Spiral Clean never to touch."
    );
}

#[test]
fn adding_a_path_that_is_already_covered_is_refused_with_the_reason() {
    let mut list = list(vec![PathBuf::from("/tmp/spiral-keep")]);
    let err = add(&mut list, PathBuf::from("/tmp/spiral-keep/inner.txt")).unwrap_err();
    assert!(err.contains("/tmp/spiral-keep"), "{err}");
    assert_eq!(list.entries().len(), 1, "the list did not grow");
}

#[test]
fn adding_a_new_path_keeps_both() {
    let mut list = list(vec![PathBuf::from("/tmp/spiral-a")]);
    assert!(add(&mut list, PathBuf::from("/tmp/spiral-b")).is_ok());
    assert_eq!(list.entries().len(), 2);
}

#[test]
fn removing_is_exact_and_never_takes_a_neighbour() {
    let mut list = list(vec![
        PathBuf::from("/tmp/spiral-keep"),
        PathBuf::from("/tmp/spiral-keep-too"),
    ]);
    assert!(list.remove("/tmp/spiral-keep"));
    assert_eq!(list.entries(), &vec!["/tmp/spiral-keep-too".to_string()]);
}

#[test]
fn removing_something_absent_says_so_rather_than_succeeding_quietly() {
    let mut list = list(vec![PathBuf::from("/tmp/spiral-keep")]);
    assert!(!list.remove("/tmp/not-there"));
}

#[test]
fn a_malformed_list_is_never_saved() {
    assert!(save_refusal(&list(vec![PathBuf::from("/tmp/keep"), PathBuf::new()])).is_some());
    assert!(save_refusal(&list(vec![PathBuf::from("relative/path")])).is_some());
    assert!(save_refusal(&list(vec![PathBuf::from("/tmp/keep/../keep")])).is_some());
    assert!(save_refusal(&list(vec![PathBuf::from("/tmp/keep"), PathBuf::from("/Users/someone/Notes")])).is_none());
}

#[test]
fn a_loaded_list_with_an_empty_entry_is_an_error_naming_the_file() {
    let why = accept_loaded(list(vec![PathBuf::from("/tmp/keep"), PathBuf::new()]), "/cfg/exclusions.json")
        .expect_err("a list with an empty entry loaded");
    assert!(why.contains("empty entry"), "{why}");
    assert!(why.contains("/cfg/exclusions.json"), "{why}");
    assert!(why.contains("move it aside"), "{why}");
}

#[test]
fn a_loaded_list_with_a_relative_or_parent_entry_is_an_error() {
    let why = accept_loaded(list(vec![PathBuf::from("some/where")]), "/cfg/x.json").unwrap_err();
    assert!(why.contains("some/where"), "{why}");
    let why = accept_loaded(list(vec![PathBuf::from("/tmp/keep/../keep")]), "/cfg/x.json").unwrap_err();
    assert!(why.contains("/tmp/keep/../keep"), "{why}");
    assert!(why.contains(".."), "{why}");
}

#[test]
fn an_ordinary_loaded_list_is_accepted_unchanged() {
    let l = accept_loaded(list(vec![PathBuf::from("/tmp/keep")]), "/cfg/x.json").unwrap();
    assert_eq!(l.entries(), &vec!["/tmp/keep".to_string()]);
    assert!(covers(&l, Path::new("/tmp/keep/inner")));
}

#[test]
fn the_unreadable_message_names_the_file_and_a_next_step() {
    assert_eq!(
        unreadable("/cfg/exclusions.json", "bad json"),
        "Spiral Clean could not read your exclusion list at /cfg/exclusions.json (bad json). Nothing was removed, because it cannot tell which paths you asked it to protect. Fix that file, or move it aside to start again with an empty list."
    );
}

#[test]
fn a_longer_list_only_ever_protects_more() {
    let short = list(vec![PathBuf::from("/tmp/keep")]);
    let long = list(vec![PathBuf::from("/tmp/keep"), PathBuf::from("/Users/someone/Notes")]);
    assert!(covers(&short, Path::new("/tmp/keep/a")));
    assert!(covers(&long, Path::new("/tmp/keep/a")));
    assert!(!covers(&short, Path::new("/Users/someone/Notes/b")));
    assert!(covers(&long, Path::new("/Users/someone/Notes/b")));
}
