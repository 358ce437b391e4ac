use rignore::options::WalkOptions;
use rignore::walker::{
    BaseRules, DirListing, EntryKind, Outcome, RawEntry, RootInfo, WalkState, Walker,
};

fn bs(s: &str) -> Vec<u8> {
    s.as_bytes().to_vec()
}

fn lines(xs: &[&str]) -> Vec<Vec<u8>> {
    let mut v = Vec::new();
    for x in xs {
        v.push(bs(x));
    }
    v
}

fn join(path: &Vec<Vec<u8>>) -> String {
    let mut s = String::new();
    for (i, c) in path.iter().enumerate() {
        if i > 0 {
            s.push('/');
        }
        s.push_str(&String::from_utf8(c.clone()).unwrap());
    }
    s
}

fn file(name: &str, size: u64) -> RawEntry {
    RawEntry {
        name: bs(name),
        kind: EntryKind::File,
        size,
        device: 1,
        ident_dev: 1,
        ident_ino: 0,
        target_is_dir: false,
    }
}

fn dir(name: &str, ino: u64) -> RawEntry {
    RawEntry {
        name: bs(name),
        kind: EntryKind::Dir,
        size: 0,
        device: 1,
        ident_dev: 1,
        ident_ino: ino,
        target_is_dir: true,
    }
}

fn symlink(name: &str, target_is_dir: bool, ino: u64) -> RawEntry {
    RawEntry {
        name: bs(name),
        kind: EntryKind::Symlink,
        size: 0,
        device: 1,
        ident_dev: 1,
        ident_ino: ino,
        target_is_dir,
    }
}

fn listing(entries: Vec<RawEntry>, git: &[&str], custom: &[&str]) -> DirListing {
    DirListing { entries, git_lines: lines(git), custom_lines: lines(custom) }
}

fn base() -> BaseRules {
    BaseRules {
        global_git_lines: Vec::new(),
        git_exclude_lines: Vec::new(),
        parent_lines: Vec::new(),
        git_root_found: true,
    }
}

fn root() -> RootInfo {
    RootInfo { device: 1, ident_dev: 1, ident_ino: 1_000_000 }
}

/// Drives a walker over an in-memory tree.  `tree` maps a joined relative
/// path ("" for the root) to its listing, or `None` for a directory that
/// fails to read.  `filter` answers `NeedFilter` requests.  Returns the
/// yielded paths, or the error message; `requested` collects every
/// directory whose listing was asked for.
fn drive(
    mut w: Walker,
    tree: &dyn Fn(&str) -> Option<DirListing>,
    filter: &dyn Fn(&str) -> Option<bool>,
    requested: &mut Vec<String>,
) -> Result<Vec<String>, String> {
    let mut out = Vec::new();
    let mut steps = 0u32;
    loop {
        steps += 1;
        assert!(steps < 100_000, "walk did not terminate");
        match w.poll() {
            Outcome::NeedDir(p) => {
                let key = join(&p);
                requested.push(key.clone());
                match tree(&key) {
                    Some(l) => w.supply_dir(Ok(l)),
                    None => w.supply_dir(Err(bs("cannot read directory"))),
                }
            }
            Outcome::NeedFilter(p) => {
                let v = filter(&join(&p));
                w.supply_filter(v);
            }
            Outcome::Yield(e) => out.push(join(&e.path)),
            Outcome::Pruned => {}
            Outcome::Done => return Ok(out),
            Outcome::Failed(e) => {
                return Err(String::from_utf8(e.message).unwrap());
            }
        }
    }
}

fn run(
    opts: WalkOptions,
    tree: &dyn Fn(&str) -> Option<DirListing>,
) -> Result<Vec<String>, String> {
    let w = Walker::new(opts, base(), root());
    let mut requested = Vec::new();
    drive(w, tree, &|_| Some(false), &mut requested)
}

#[test]
fn plain_listing_in_order() {
    let tree = |k: &str| match k {
        "" => Some(listing(vec![file("a.txt", 1), file("b.log", 1)], &[], &[])),
        _ => Some(listing(vec![], &[], &[])),
    };
    let got = run(WalkOptions::default(), &tree).unwrap();
    assert_eq!(got, vec!["a.txt".to_string(), "b.log".to_string()]);
}

#[test]
fn ignore_pattern_excludes_log() {
    // Root holds a.txt and b.log; the root ignore file says `*.log`.
    let tree = |k: &str| match k {
        "" => Some(listing(vec![file("a.txt", 1), file("b.log", 1)], &["*.log"], &[])),
        _ => Some(listing(vec![], &[], &[])),
    };
    let got = run(WalkOptions::default(), &tree).unwrap();
    assert_eq!(got, vec!["a.txt".to_string()]);
}

#[test]
fn additional_ignores_apply_at_root() {
    let tree = |k: &str| match k {
        "" => Some(listing(vec![file("a.txt", 1), file("b.log", 1)], &[], &[])),
        _ => Some(listing(vec![], &[], &[])),
    };
    let mut opts = WalkOptions::default();
    opts.additional_ignores = lines(&["*.log"]);
    let got = run(opts, &tree).unwrap();
    assert_eq!(got, vec!["a.txt".to_string()]);
}

#[test]
fn later_pattern_overrides_earlier() {
    let tree = |k: &str| match k {
        "" => Some(listing(
            vec![file("a.log", 1), file("b.log", 1)],
            &["*.log", "!b.log"],
            &[],
        )),
        _ => Some(listing(vec![], &[], &[])),
    };
    let got = run(WalkOptions::default(), &tree).unwrap();
    assert_eq!(got, vec!["b.log".to_string()]);

    let tree2 = |k: &str| match k {
        "" => Some(listing(
            vec![file("a.log", 1), file("b.log", 1)],
            &["!b.log", "*.log"],
            &[],
        )),
        _ => Some(listing(vec![], &[], &[])),
    };
    let got2 = run(WalkOptions::default(), &tree2).unwrap();
    assert_eq!(got2, Vec::<String>::new());
}

#[test]
fn override_force_includes_and_excludes() {
    // Ignore file excludes b.log; a plain override rescues it.
    let tree = |k: &str| match k {
        "" => Some(listing(vec![file("a.txt", 1), file("b.log", 1)], &["*.log"], &[])),
        _ => Some(listing(vec![], &[], &[])),
    };
    let mut opts = WalkOptions::default();
    opts.overrides = lines(&["*.log"]);
    let got = run(opts, &tree).unwrap();
    assert!(got.contains(&"b.log".to_string()));

    // No ignore rule touches a.txt; a negated override prunes it anyway.
    let tree2 = |k: &str| match k {
        "" => Some(listing(vec![file("a.txt", 1), file("b.log", 1)], &[], &[])),
        _ => Some(listing(vec![], &[], &[])),
    };
    let mut opts2 = WalkOptions::default();
    opts2.overrides = lines(&["!a.txt"]);
    let got2 = run(opts2, &tree2).unwrap();
    assert_eq!(got2, vec!["b.log".to_string()]);
}

#[test]
fn excluded_dir_subtree_pruned_unrescued() {
    // `build/` is excluded at the root; the negation inside build/ is never
    // read, because the pruned directory's listing is never requested.
    let tree = |k: &str| match k {
        "" => Some(listing(
            vec![dir("build", 2), file("a.txt", 1)],
            &["build/"],
            &[],
        )),
        "build" => Some(listing(vec![file("keep.txt", 1)], &["!keep.txt"], &[])),
        _ => Some(listing(vec![], &[], &[])),
    };
    let w = Walker::new(WalkOptions::default(), base(), root());
    let mut requested = Vec::new();
    let got = drive(w, &tree, &|_| Some(false), &mut requested).unwrap();
    assert_eq!(got, vec!["a.txt".to_string()]);
    assert!(!requested.contains(&"build".to_string()));
}

#[test]
fn max_depth_zero_yields_only_root_children() {
    let tree = |k: &str| match k {
        "" => Some(listing(vec![file("f0", 1), dir("a", 2)], &[], &[])),
        "a" => Some(listing(vec![file("f1", 1), dir("b", 3)], &[], &[])),
        "a/b" => Some(listing(vec![file("f2", 1)], &[], &[])),
        _ => Some(listing(vec![], &[], &[])),
    };
    let mut opts = WalkOptions::default();
    opts.max_depth = Some(0);
    let got = run(opts, &tree).unwrap();
    assert_eq!(got, vec!["f0".to_string(), "a".to_string()]);

    let mut opts1 = WalkOptions::default();
    opts1.max_depth = Some(1);
    let got1 = run(opts1, &tree).unwrap();
    assert_eq!(
        got1,
        vec!["f0".to_string(), "a".to_string(), "a/f1".to_string(), "a/b".to_string()]
    );
}

#[test]
fn max_filesize_excludes_large_files_only() {
    let tree = |k: &str| match k {
        "" => Some(listing(
            vec![file("small", 10), file("big", 11), dir("d", 2)],
            &[],
            &[],
        )),
        "d" => Some(listing(vec![file("huge", 1000)], &[], &[])),
        _ => Some(listing(vec![], &[], &[])),
    };
    let mut opts = WalkOptions::default();
    opts.max_filesize = Some(10);
    let got = run(opts, &tree).unwrap();
    assert_eq!(got, vec!["small".to_string(), "d".to_string()]);
}

#[test]
fn hidden_entries_excluded_by_default() {
    let tree = |k: &str| match k {
        "" => Some(listing(vec![file(".hidden", 1), dir(".git", 2), file("seen", 1)], &[], &[])),
        _ => Some(listing(vec![], &[], &[])),
    };
    let got = run(WalkOptions::default(), &tree).unwrap();
    assert_eq!(got, vec!["seen".to_string()]);

    let mut opts = WalkOptions::default();
    opts.ignore_hidden = false;
    let got2 = run(opts, &tree).unwrap();
    assert_eq!(
        got2,
        vec![".hidden".to_string(), ".git".to_string(), "seen".to_string()]
    );
}

#[test]
fn symlink_cycle_terminates() {
    // `loop` points back at the root: it is yielded once and its subtree is
    // refused, so the walk ends without duplicates.
    let tree = |k: &str| match k {
        "" => Some(listing(
            vec![file("a.txt", 1), symlink("loop", true, 1_000_000)],
            &[],
            &[],
        )),
        "loop" => panic!("cycle was entered"),
        _ => Some(listing(vec![], &[], &[])),
    };
    let mut opts = WalkOptions::default();
    opts.follow_links = true;
    let got = run(opts, &tree).unwrap();
    assert_eq!(got, vec!["a.txt".to_string(), "loop".to_string()]);
}

#[test]
fn symlink_dir_followed_when_enabled() {
    let tree = |k: &str| match k {
        "" => Some(listing(vec![symlink("s", true, 77)], &[], &[])),
        "s" => Some(listing(vec![file("inside", 1)], &[], &[])),
        _ => Some(listing(vec![], &[], &[])),
    };
    let mut opts = WalkOptions::default();
    opts.follow_links = true;
    let got = run(opts, &tree).unwrap();
    assert_eq!(got, vec!["s".to_string(), "s/inside".to_string()]);

    // Not followed by default: the link is yielded, its target never read.
    let w = Walker::new(WalkOptions::default(), base(), root());
    let mut requested = Vec::new();
    let got2 = drive(w, &tree, &|_| Some(false), &mut requested).unwrap();
    assert_eq!(got2, vec!["s".to_string()]);
    assert!(!requested.contains(&"s".to_string()));
}

#[test]
fn entry_filter_failure_is_fail_closed() {
    // The predicate fails on any path containing "secret": those entries
    // are excluded, the failures are only counted, and the walk goes on.
    let tree = |k: &str| match k {
        "" => Some(listing(
            vec![file("plain.txt", 1), file("secret.txt", 1), dir("secrets", 2)],
            &[],
            &[],
        )),
        "secrets" => panic!("excluded directory was entered"),
        _ => Some(listing(vec![], &[], &[])),
    };
    let mut opts = WalkOptions::default();
    opts.use_entry_filter = true;
    let w = Walker::new(opts, base(), root());
    let mut requested = Vec::new();
    let mut w2 = w;
    let got = {
        let filter = |p: &str| if p.contains("secret") { None } else { Some(false) };
        let mut out = Vec::new();
        loop {
            match w2.poll() {
                Outcome::NeedDir(p) => {
                    let key = join(&p);
                    requested.push(key.clone());
                    w2.supply_dir(Ok(tree(&key).unwrap()));
                }
                Outcome::NeedFilter(p) => {
                    let v = filter(&join(&p));
                    w2.supply_filter(v);
                }
                Outcome::Yield(e) => out.push(join(&e.path)),
                Outcome::Pruned => {}
                Outcome::Done => break,
                Outcome::Failed(_) => panic!("filter failure must not fail the walk"),
            }
        }
        out
    };
    assert_eq!(got, vec!["plain.txt".to_string()]);
    assert_eq!(w2.filter_error_count(), 2);
    assert!(!requested.contains(&"secrets".to_string()));
}

#[test]
fn entry_filter_true_excludes() {
    let tree = |k: &str| match k {
        "" => Some(listing(vec![file("a.txt", 1), file("b.txt", 1)], &[], &[])),
        _ => Some(listing(vec![], &[], &[])),
    };
    let mut opts = WalkOptions::default();
    opts.use_entry_filter = true;
    let w = Walker::new(opts, base(), root());
    let mut requested = Vec::new();
    let got = drive(
        w,
        &tree,
        &|p| Some(p == "b.txt"),
        &mut requested,
    )
    .unwrap();
    assert_eq!(got, vec!["a.txt".to_string()]);
}

#[test]
fn unreadable_directory_is_terminal() {
    let tree = |k: &str| match k {
        "" => Some(listing(vec![dir("locked", 2), file("z.txt", 1)], &[], &[])),
        "locked" => None,
        _ => Some(listing(vec![], &[], &[])),
    };
    let err = run(WalkOptions::default(), &tree).unwrap_err();
    assert_eq!(err, "cannot read directory");

    // The failure is sticky: the walker keeps reporting it.
    let mut w = Walker::new(WalkOptions::default(), base(), root());
    match w.poll() {
        Outcome::NeedDir(_) => w.supply_dir(Err(bs("boom"))),
        _ => panic!("expected the root request"),
    }
    assert!(matches!(w.poll(), Outcome::Failed(_)));
    assert!(matches!(w.poll(), Outcome::Failed(_)));
    assert_eq!(w.state(), WalkState::Failed);
}

#[test]
fn rerun_yields_same_paths() {
    let tree = |k: &str| match k {
        "" => Some(listing(
            vec![file("a.txt", 1), dir("d", 2), file("b.log", 1)],
            &["*.log"],
            &[],
        )),
        "d" => Some(listing(vec![file("inner.log", 1), file("inner.txt", 1)], &[], &[])),
        _ => Some(listing(vec![], &[], &[])),
    };
    let first = run(WalkOptions::default(), &tree).unwrap();
    let second = run(WalkOptions::default(), &tree).unwrap();
    assert_eq!(first, second);
    assert_eq!(
        first,
        vec!["a.txt".to_string(), "d".to_string(), "d/inner.txt".to_string()]
    );
}

#[test]
fn same_file_system_prunes_other_devices() {
    let tree = move |k: &str| match k {
        "" => Some(DirListing {
            entries: vec![
                RawEntry {
                    name: bs("mnt"),
                    kind: EntryKind::Dir,
                    size: 0,
                    device: 2,
                    ident_dev: 2,
                    ident_ino: 9,
                    target_is_dir: true,
                },
                file("here", 1),
            ],
            git_lines: Vec::new(),
            custom_lines: Vec::new(),
        }),
        _ => Some(listing(vec![], &[], &[])),
    };
    let mut opts = WalkOptions::default();
    opts.same_file_system = true;
    let got = run(opts, &tree).unwrap();
    assert_eq!(got, vec!["here".to_string()]);

    let got2 = run(WalkOptions::default(), &tree).unwrap();
    assert_eq!(got2, vec!["mnt".to_string(), "here".to_string()]);
}

#[test]
fn case_insensitive_matching() {
    let tree = |k: &str| match k {
        "" => Some(listing(vec![file("b.log", 1), file("a.txt", 1)], &["*.LOG"], &[])),
        _ => Some(listing(vec![], &[], &[])),
    };
    let got = run(WalkOptions::default(), &tree).unwrap();
    assert_eq!(got, vec!["b.log".to_string(), "a.txt".to_string()]);

    let mut opts = WalkOptions::default();
    opts.case_insensitive = true;
    let got2 = run(opts, &tree).unwrap();
    assert_eq!(got2, vec!["a.txt".to_string()]);
}

#[test]
fn require_git_gates_vcs_sources() {
    let tree = |k: &str| match k {
        "" => Some(listing(vec![file("b.log", 1)], &["*.log"], &[])),
        _ => Some(listing(vec![], &[], &[])),
    };
    let mut opts = WalkOptions::default();
    opts.require_git = true;
    let mut b = base();
    b.git_root_found = false;
    let w = Walker::new(opts, b, root());
    let mut requested = Vec::new();
    let got = drive(w, &tree, &|_| Some(false), &mut requested).unwrap();
    assert_eq!(got, vec!["b.log".to_string()]);

    let mut opts2 = WalkOptions::default();
    opts2.require_git = true;
    let got2 = {
        let w = Walker::new(opts2, base(), root());
        let mut req = Vec::new();
        drive(w, &tree, &|_| Some(false), &mut req).unwrap()
    };
    assert_eq!(got2, Vec::<String>::new());
}

#[test]
fn read_ignore_files_off_keeps_literal_patterns() {
    let tree = |k: &str| match k {
        "" => Some(listing(
            vec![file("a.md", 1), file("b.log", 1)],
            &["*.md"],
            &["*.md"],
        )),
        _ => Some(listing(vec![], &[], &[])),
    };
    let mut opts = WalkOptions::default();
    opts.read_ignore_files = false;
    opts.additional_ignores = lines(&["*.log"]);
    let got = run(opts, &tree).unwrap();
    assert_eq!(got, vec!["a.md".to_string()]);
}

#[test]
fn parent_lines_less_specific_than_root_scope() {
    let tree = |k: &str| match k {
        "" => Some(listing(vec![file("b.log", 1), file("c.log", 1)], &[], &["!b.log"])),
        _ => Some(listing(vec![], &[], &[])),
    };
    let mut b = base();
    b.parent_lines = lines(&["*.log"]);
    let w = Walker::new(WalkOptions::default(), b, root());
    let mut requested = Vec::new();
    let got = drive(w, &tree, &|_| Some(false), &mut requested).unwrap();
    assert_eq!(got, vec!["b.log".to_string()]);
}

#[test]
fn global_then_exclude_precedence() {
    let tree = |k: &str| match k {
        "" => Some(listing(vec![file("a.txt", 1)], &[], &[])),
        _ => Some(listing(vec![], &[], &[])),
    };
    let mut b = base();
    b.global_git_lines = lines(&["a.txt"]);
    b.git_exclude_lines = lines(&["!a.txt"]);
    let w = Walker::new(WalkOptions::default(), b, root());
    let mut requested = Vec::new();
    let got = drive(w, &tree, &|_| Some(false), &mut requested).unwrap();
    assert_eq!(got, vec!["a.txt".to_string()]);
}

#[test]
fn walk_state_lifecycle() {
    let mut w = rignore::walker::walk(WalkOptions::default(), base(), root());
    assert_eq!(w.state(), WalkState::Ready);
    match w.poll() {
        Outcome::NeedDir(p) => {
            assert_eq!(join(&p), "");
            w.supply_dir(Ok(listing(vec![], &[], &[])));
        }
        _ => panic!("expected the root request"),
    }
    assert_eq!(w.state(), WalkState::Active);
    assert!(matches!(w.poll(), Outcome::Done));
    assert_eq!(w.state(), WalkState::Exhausted);
    assert!(matches!(w.poll(), Outcome::Done));
}

#[test]
fn scope_rules_are_relative_to_their_directory() {
    // `/inner.txt` inside sub/ anchors to sub, not to the walk root.
    let tree = |k: &str| match k {
        "" => Some(listing(vec![dir("sub", 2)], &[], &[])),
        "sub" => Some(listing(
            vec![file("inner.txt", 1), dir("deep", 3)],
            &["/inner.txt"],
            &[],
        )),
        "sub/deep" => Some(listing(vec![file("inner.txt", 1)], &[], &[])),
        _ => Some(listing(vec![], &[], &[])),
    };
    let got = run(WalkOptions::default(), &tree).unwrap();
    assert_eq!(
        got,
        vec![
            "sub".to_string(),
            "sub/deep".to_string(),
            "sub/deep/inner.txt".to_string()
        ]
    );
}

#[test]
fn deeper_scope_overrides_shallower() {
    // The root excludes logs; sub/ re-includes one of its own.
    let tree = |k: &str| match k {
        "" => Some(listing(
            vec![file("b.log", 1), dir("sub", 2)],
            &["*.log"],
            &[],
        )),
        "sub" => Some(listing(
            vec![file("keep.log", 1), file("drop.log", 1)],
            &["!keep.log"],
            &[],
        )),
        _ => Some(listing(vec![], &[], &[])),
    };
    let got = run(WalkOptions::default(), &tree).unwrap();
    assert_eq!(got, vec!["sub".to_string(), "sub/keep.log".to_string()]);
}

#[test]
fn sibling_scope_is_torn_down() {
    // Rules read inside a/ must not leak into its sibling b/.
    let tree = |k: &str| match k {
        "" => Some(listing(vec![dir("a", 2), dir("b", 3)], &[], &[])),
        "a" => Some(listing(vec![file("x.txt", 1)], &["x.txt"], &[])),
        "b" => Some(listing(vec![file("x.txt", 1)], &[], &[])),
        _ => Some(listing(vec![], &[], &[])),
    };
    let got = run(WalkOptions::default(), &tree).unwrap();
    assert_eq!(
        got,
        vec!["a".to_string(), "b".to_string(), "b/x.txt".to_string()]
    );
}

#[test]
fn override_dir_exclusion_prunes() {
    // A negated override on a directory prunes its whole subtree.
    let tree = |k: &str| match k {
        "" => Some(listing(vec![dir("skip", 2), file("a.txt", 1)], &[], &[])),
        "skip" => panic!("pruned directory was entered"),
        _ => Some(listing(vec![], &[], &[])),
    };
    let mut opts = WalkOptions::default();
    opts.overrides = lines(&["!skip"]);
    let got = run(opts, &tree).unwrap();
    assert_eq!(got, vec!["a.txt".to_string()]);
}
