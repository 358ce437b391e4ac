//! The pull-based traversal state machine.
//!
//! A `Walker` never opens a directory itself.  The host loop drives it:
//! `poll` returns either an entry, a request (`NeedDir`, `NeedFilter`), a
//! note that the top candidate was pruned, the end of the sequence, or a
//! terminal error; the host answers requests through `supply_dir` and
//! `supply_filter`.  Every decision — overrides before ignore scopes, last
//! match wins, hidden/size/device checks, depth bounding, symlink-cycle
//! refusal, and the subtree-pruning rule that an excluded directory is never
//! even requested — is fixed by the contracts in this module.

use vstd::prelude::*;
use crate::options::WalkOptions;
use crate::pattern::{DOT, nested_view};
use crate::rules::{
    IgnoreRule, RuleModel, Scope, ScopeModel, compile_line, compile_spec, list_decision,
    list_decision_x, rule_model, rules_model, scope_model, scopes_model, stack_decision,
    stack_decision_x,
};

verus! {

/// Classification of one filesystem entry.
#[derive(Clone, Copy, PartialEq, Eq, Structural, Debug)]
pub enum EntryKind {
    File,
    Dir,
    Symlink,
    Other,
}

/// What the host reports about one child of a directory it listed.
/// `size` matters for files, `device` for the same-filesystem check,
/// `ident_dev`/`ident_ino` identify the entry for cycle refusal, and
/// `target_is_dir` says whether a symlink resolves to a directory.
pub struct RawEntry {
    pub name: Vec<u8>,
    pub kind: EntryKind,
    pub size: u64,
    pub device: u64,
    pub ident_dev: u64,
    pub ident_ino: u64,
    pub target_is_dir: bool,
}

/// The host's answer to a `NeedDir` request: the children in enumeration
/// order, the VCS ignore lines found in that directory, and the lines of the
/// other honored ignore files there (`.ignore` and any extra names), in
/// reading order.
pub struct DirListing {
    pub entries: Vec<RawEntry>,
    pub git_lines: Vec<Vec<u8>>,
    pub custom_lines: Vec<Vec<u8>>,
}

/// One produced entry: its path relative to the walk root as name
/// components, its kind, and its depth (the root's own children have depth
/// zero).
pub struct DirEntry {
    pub path: Vec<Vec<u8>>,
    pub kind: EntryKind,
    pub depth: usize,
}

/// A terminal traversal error: the directory that could not be read and the
/// host's message.
pub struct WalkError {
    pub path: Vec<Vec<u8>>,
    pub message: Vec<u8>,
}

/// One pending entry on the traversal stack.
pub struct Candidate {
    pub path: Vec<Vec<u8>>,
    pub kind: EntryKind,
    pub size: u64,
    pub device: u64,
    pub ident_dev: u64,
    pub ident_ino: u64,
    pub target_is_dir: bool,
    pub depth: usize,
    pub scope_depth: usize,
}

/// A directory whose listing is wanted: its path and the depth its children
/// will have.
pub struct DirCtx {
    pub path: Vec<Vec<u8>>,
    pub child_depth: usize,
}

/// The walker's internal control state.
pub enum Phase {
    Ready,
    Scanning,
    AwaitDir(DirCtx),
    AwaitFilter(Candidate),
    YieldPending(Candidate),
    PreDescend(DirCtx),
    Exhausted,
    Failed(WalkError),
}

/// What one `poll` hands back.
pub enum Outcome {
    NeedDir(Vec<Vec<u8>>),
    NeedFilter(Vec<Vec<u8>>),
    Yield(DirEntry),
    Pruned,
    Done,
    Failed(WalkError),
}

/// The coarse lifecycle state of a walker.
#[derive(Clone, Copy, PartialEq, Eq, Structural, Debug)]
pub enum WalkState {
    Ready,
    Active,
    Exhausted,
    Failed,
}

/// Ignore lines that apply at the walk root as a whole, gathered by the host
/// before construction: the global VCS ignore file, the repository's exclude
/// file, lines from ignore files in ancestors of the root, and whether a VCS
/// root marker was found.
pub struct BaseRules {
    pub global_git_lines: Vec<Vec<u8>>,
    pub git_exclude_lines: Vec<Vec<u8>>,
    pub parent_lines: Vec<Vec<u8>>,
    pub git_root_found: bool,
}

/// Filesystem facts about the root directory itself.
pub struct RootInfo {
    pub device: u64,
    pub ident_dev: u64,
    pub ident_ino: u64,
}

/// The traversal engine.
pub struct Walker {
    pub opts: WalkOptions,
    pub vcs_active: bool,
    pub override_rules: Vec<IgnoreRule>,
    pub scopes: Vec<Scope>,
    pub stack: Vec<Candidate>,
    pub visited: Vec<(u64, u64)>,
    pub phase: Phase,
    pub root_device: u64,
    pub filter_errors: u64,
}

/// The rules an ordered list of pattern lines compiles to, lines that fail
/// to compile dropped.
pub open spec fn compile_lines_spec(lines: Seq<Seq<u8>>) -> Seq<RuleModel>
    decreases lines.len(),
{
    if lines.len() == 0 {
        Seq::empty()
    } else {
        compile_lines_spec(lines.drop_last()) + (match compile_spec(lines.last()) {
            Some(r) => seq![r],
            None => Seq::<RuleModel>::empty(),
        })
    }
}

proof fn lemma_rules_model_push(rs: Seq<IgnoreRule>, r: IgnoreRule)
    ensures
        rules_model(rs.push(r)) == rules_model(rs).push(rule_model(r)),
{
    assert(rules_model(rs.push(r)) =~= rules_model(rs).push(rule_model(r)));
}

proof fn lemma_scopes_model_push(ss: Seq<Scope>, s: Scope)
    ensures
        scopes_model(ss.push(s)) == scopes_model(ss).push(scope_model(s)),
{
    assert(scopes_model(ss.push(s)) =~= scopes_model(ss).push(scope_model(s)));
}

/// Compiles `lines` in order and appends the surviving rules to `dst`.
fn compile_append(dst: &mut Vec<IgnoreRule>, lines: &Vec<Vec<u8>>)
    ensures
        rules_model(final(dst)@) == rules_model(old(dst)@) + compile_lines_spec(
            nested_view(*lines),
        ),
{
    let mut i: usize = 0;
    while i < lines.len()
        invariant
            i <= lines.len(),
            rules_model(dst@) == rules_model(old(dst)@) + compile_lines_spec(
                nested_view(*lines).take(i as int),
            ),
        decreases lines.len() - i,
    {
        proof {
            assert(nested_view(*lines).take(i as int + 1).drop_last() =~= nested_view(
                *lines,
            ).take(i as int));
            assert(nested_view(*lines).take(i as int + 1).last() == lines@[i as int]@);
        }
        match compile_line(&lines[i]) {
            Some(rule) => {
                let ghost pre = dst@;
                dst.push(rule);
                proof {
                    lemma_rules_model_push(pre, rule);
                    assert(rules_model(dst@) =~= rules_model(old(dst)@) + compile_lines_spec(
                        nested_view(*lines).take(i as int + 1),
                    ));
                }
            },
            None => {
                proof {
                    assert(compile_lines_spec(nested_view(*lines).take(i as int + 1))
                        =~= compile_lines_spec(nested_view(*lines).take(i as int)));
                }
            },
        }
        i += 1;
    }
    proof {
        assert(nested_view(*lines).take(lines@.len() as int) =~= nested_view(*lines));
    }
}

fn copy_bytes(v: &Vec<u8>) -> (r: Vec<u8>)
    ensures
        r@ == v@,
{
    let mut r: Vec<u8> = Vec::new();
    let mut i: usize = 0;
    while i < v.len()
        invariant
            i <= v.len(),
            r@ == v@.take(i as int),
        decreases v.len() - i,
    {
        r.push(v[i]);
        proof {
            assert(r@ =~= v@.take(i as int + 1));
        }
        i += 1;
    }
    proof {
        assert(v@.take(v@.len() as int) =~= v@);
    }
    r
}

fn copy_path(v: &Vec<Vec<u8>>) -> (r: Vec<Vec<u8>>)
    ensures
        nested_view(r) == nested_view(*v),
        r@.len() == v@.len(),
{
    let mut r: Vec<Vec<u8>> = Vec::new();
    let mut i: usize = 0;
    while i < v.len()
        invariant
            i <= v.len(),
            r@.len() == i,
            forall|j: int| 0 <= j < i ==> r@[j]@ == v@[j]@,
        decreases v.len() - i,
    {
        r.push(copy_bytes(&v[i]));
        i += 1;
    }
    proof {
        assert(nested_view(r) =~= nested_view(*v));
    }
    r
}

/// A name is hidden when it starts with a dot.
pub open spec fn hidden_name(name: Seq<u8>) -> bool {
    name.len() > 0 && name[0] == DOT
}

/// Whether an entry counts as a directory for matching and descent: a real
/// directory, or a symlink to one when links are followed.
pub open spec fn treat_as_dir(kind: EntryKind, target_is_dir: bool, follow: bool) -> bool {
    kind == EntryKind::Dir || (kind == EntryKind::Symlink && follow && target_is_dir)
}

pub open spec fn cand_is_dir(c: Candidate, follow: bool) -> bool {
    treat_as_dir(c.kind, c.target_is_dir, follow)
}

/// The size bound excludes exactly the file entries over the limit.
pub open spec fn size_excluded(opts: WalkOptions, kind: EntryKind, size: u64) -> bool {
    match opts.max_filesize {
        Some(k) => kind == EntryKind::File && size > k,
        None => false,
    }
}

/// The pattern phase of the decision: a matching override decides alone, in
/// either direction; otherwise the scope chain decides; no match means
/// included.
pub open spec fn pattern_excluded(
    ov: Seq<RuleModel>,
    scopes: Seq<ScopeModel>,
    path: Seq<Seq<u8>>,
    is_dir: bool,
    ci: bool,
) -> bool {
    match list_decision(ov, path, is_dir, ci) {
        Some(positive) => !positive,
        None => match stack_decision(scopes, path, is_dir, ci) {
            Some(positive) => positive,
            None => false,
        },
    }
}

/// Whether a candidate is excluded, checks in order: device boundary,
/// hidden name, file size, then patterns (overrides before ignore scopes).
pub open spec fn verdict_excluded(
    opts: WalkOptions,
    ov: Seq<RuleModel>,
    scopes: Seq<ScopeModel>,
    c: Candidate,
    root_device: u64,
) -> bool {
    if opts.same_file_system && c.device != root_device {
        true
    } else if opts.ignore_hidden && c.path@.len() > 0 && hidden_name(c.path@.last()@) {
        true
    } else if size_excluded(opts, c.kind, c.size) {
        true
    } else {
        pattern_excluded(
            ov,
            scopes,
            nested_view(c.path),
            cand_is_dir(c, opts.follow_links),
            opts.case_insensitive,
        )
    }
}

fn verdict_excluded_x(
    opts: &WalkOptions,
    ov: &Vec<IgnoreRule>,
    scopes: &Vec<Scope>,
    c: &Candidate,
    root_device: u64,
) -> (r: bool)
    ensures
        r == verdict_excluded(*opts, rules_model(ov@), scopes_model(scopes@), *c, root_device),
{
    if opts.same_file_system && c.device != root_device {
        return true;
    }
    if opts.ignore_hidden && c.path.len() > 0 {
        let name = &c.path[c.path.len() - 1];
        if name.len() > 0 && name[0] == DOT {
            return true;
        }
    }
    match opts.max_filesize {
        Some(k) => {
            if c.kind == EntryKind::File && c.size > k {
                return true;
            }
        },
        None => {},
    }
    let is_dir = match c.kind {
        EntryKind::Dir => true,
        EntryKind::Symlink => opts.follow_links && c.target_is_dir,
        _ => false,
    };
    proof {
        assert(nested_view(c.path).skip(0) =~= nested_view(c.path));
    }
    match list_decision_x(ov, &c.path, 0, is_dir, opts.case_insensitive) {
        Some(positive) => !positive,
        None => match stack_decision_x(scopes, &c.path, is_dir, opts.case_insensitive) {
            Some(positive) => positive,
            None => false,
        },
    }
}

/// Whether the identity `(d, ino)` was already visited.
pub open spec fn visited_has(v: Seq<(u64, u64)>, d: u64, ino: u64) -> bool {
    exists|k: int| 0 <= k < v.len() && v[k] == (d, ino)
}

fn visited_has_x(v: &Vec<(u64, u64)>, d: u64, ino: u64) -> (r: bool)
    ensures
        r == visited_has(v@, d, ino),
{
    let mut k: usize = 0;
    while k < v.len()
        invariant
            k <= v.len(),
            forall|j: int| 0 <= j < k ==> v@[j] != (d, ino),
        decreases v.len() - k,
    {
        if v[k].0 == d && v[k].1 == ino {
            proof {
                assert(v@[k as int] == (d, ino));
            }
            return true;
        }
        k += 1;
    }
    false
}

/// Whether a depth is within the configured bound.
pub open spec fn depth_fits(max_depth: Option<usize>, d: usize) -> bool {
    match max_depth {
        Some(n) => d <= n,
        None => true,
    }
}

pub open spec fn cand_wf(c: Candidate, max_depth: Option<usize>) -> bool {
    &&& c.depth + 1 == c.path@.len()
    &&& depth_fits(max_depth, c.depth)
}

pub open spec fn ctx_wf(ctx: DirCtx, max_depth: Option<usize>) -> bool {
    &&& ctx.child_depth == ctx.path@.len()
    &&& depth_fits(max_depth, ctx.child_depth)
}

impl Walker {
    /// Well-formedness: every pending candidate sits one level below its
    /// path's length and within the depth bound, and so does any candidate
    /// or directory context held by the phase.
    pub open spec fn wf(self) -> bool {
        &&& forall|i: int|
            0 <= i < self.stack@.len() ==> cand_wf(#[trigger] self.stack@[i], self.opts.max_depth)
        &&& match self.phase {
            Phase::AwaitDir(ctx) => ctx_wf(ctx, self.opts.max_depth),
            Phase::PreDescend(ctx) => ctx_wf(ctx, self.opts.max_depth),
            Phase::AwaitFilter(c) => cand_wf(c, self.opts.max_depth),
            Phase::YieldPending(c) => cand_wf(c, self.opts.max_depth),
            _ => true,
        }
    }
}

/// The configuration never changes after construction.
pub open spec fn same_config(a: Walker, b: Walker) -> bool {
    &&& b.opts == a.opts
    &&& b.vcs_active == a.vcs_active
    &&& b.override_rules@ == a.override_rules@
    &&& b.root_device == a.root_device
}

pub open spec fn outcome_need_dir(r: Outcome, path: Seq<Seq<u8>>) -> bool {
    match r {
        Outcome::NeedDir(p) => nested_view(p) == path,
        _ => false,
    }
}

pub open spec fn outcome_need_filter(r: Outcome, path: Seq<Seq<u8>>) -> bool {
    match r {
        Outcome::NeedFilter(p) => nested_view(p) == path,
        _ => false,
    }
}

pub open spec fn outcome_yield(r: Outcome, path: Seq<Seq<u8>>, kind: EntryKind, depth: usize) -> bool {
    match r {
        Outcome::Yield(e) => nested_view(e.path) == path && e.kind == kind && e.depth == depth,
        _ => false,
    }
}

pub open spec fn outcome_failed(r: Outcome, path: Seq<Seq<u8>>, message: Seq<u8>) -> bool {
    match r {
        Outcome::Failed(e) => nested_view(e.path) == path && e.message@ == message,
        _ => false,
    }
}

pub open spec fn phase_await_dir(p: Phase, path: Seq<Seq<u8>>, child_depth: usize) -> bool {
    match p {
        Phase::AwaitDir(ctx) => nested_view(ctx.path) == path && ctx.child_depth == child_depth,
        _ => false,
    }
}

pub open spec fn phase_pre_descend(p: Phase, path: Seq<Seq<u8>>, child_depth: usize) -> bool {
    match p {
        Phase::PreDescend(ctx) => nested_view(ctx.path) == path && ctx.child_depth == child_depth,
        _ => false,
    }
}

pub open spec fn phase_await_filter(p: Phase, c: Candidate) -> bool {
    match p {
        Phase::AwaitFilter(c2) => c2 == c,
        _ => false,
    }
}

pub open spec fn phase_yield_pending(p: Phase, c: Candidate) -> bool {
    match p {
        Phase::YieldPending(c2) => c2 == c,
        _ => false,
    }
}

pub open spec fn phase_failed(p: Phase, path: Seq<Seq<u8>>, message: Seq<u8>) -> bool {
    match p {
        Phase::Failed(e) => nested_view(e.path) == path && e.message@ == message,
        _ => false,
    }
}

/// How many scopes stay live for the stack's top candidate.
pub open spec fn top_scope_cut(w: Walker) -> int {
    let c = w.stack@.last();
    if c.scope_depth <= w.scopes@.len() {
        c.scope_depth as int
    } else {
        w.scopes@.len() as int
    }
}

/// Whether a surviving candidate's subtree is entered: it must count as a
/// directory, stay under the depth bound, and — when links are followed —
/// carry an identity not yet visited.
pub open spec fn descends(w: Walker, c: Candidate) -> bool {
    &&& cand_is_dir(c, w.opts.follow_links)
    &&& match w.opts.max_depth {
        Some(n) => c.depth < n,
        None => true,
    }
    &&& (w.opts.follow_links ==> !visited_has(w.visited@, c.ident_dev, c.ident_ino))
}

/// What finishing a surviving candidate does: yield it; when its subtree is
/// entered, remember its identity (links only) and ask for its listing next,
/// else go back to scanning.
pub open spec fn finalize_post(pre: Walker, post: Walker, c: Candidate, r: Outcome) -> bool {
    &&& outcome_yield(r, nested_view(c.path), c.kind, c.depth)
    &&& post.filter_errors == pre.filter_errors
    &&& if descends(pre, c) {
        &&& phase_pre_descend(post.phase, nested_view(c.path), (c.depth + 1) as usize)
        &&& post.visited@ == (if pre.opts.follow_links {
            pre.visited@.push((c.ident_dev, c.ident_ino))
        } else {
            pre.visited@
        })
    } else {
        &&& post.phase == Phase::Scanning
        &&& post.visited@ == pre.visited@
    }
}

/// The rules of the scope a directory listing contributes, in precedence
/// order: VCS ignore lines first, then the other honored ignore files.
pub open spec fn dir_scope_rules(opts: WalkOptions, vcs_active: bool, l: DirListing) -> Seq<
    RuleModel,
> {
    (if vcs_active && opts.read_git_ignore {
        compile_lines_spec(nested_view(l.git_lines))
    } else {
        Seq::<RuleModel>::empty()
    }) + (if opts.read_ignore_files {
        compile_lines_spec(nested_view(l.custom_lines))
    } else {
        Seq::<RuleModel>::empty()
    })
}

/// How one listed child becomes a pending candidate.
pub open spec fn cand_matches(
    c: Candidate,
    e: RawEntry,
    parent: Seq<Seq<u8>>,
    depth: usize,
    sd: int,
) -> bool {
    &&& nested_view(c.path) == parent.push(e.name@)
    &&& c.kind == e.kind
    &&& c.size == e.size
    &&& c.device == e.device
    &&& c.ident_dev == e.ident_dev
    &&& c.ident_ino == e.ident_ino
    &&& c.target_is_dir == e.target_is_dir
    &&& c.depth == depth
    &&& c.scope_depth == sd
}

/// What accepting a directory listing does: push the directory's own scope,
/// then push its children so that they pop in enumeration order, and go back
/// to scanning.
pub open spec fn supply_dir_post(pre: Walker, post: Walker, ctx: DirCtx, l: DirListing) -> bool {
    let n = l.entries@.len() as int;
    &&& post.phase == Phase::Scanning
    &&& scopes_model(post.scopes@) == scopes_model(pre.scopes@).push(
        ScopeModel {
            prefix: nested_view(ctx.path),
            rules: dir_scope_rules(pre.opts, pre.vcs_active, l),
        },
    )
    &&& post.stack@.len() == pre.stack@.len() + n
    &&& (forall|k: int| 0 <= k < pre.stack@.len() ==> post.stack@[k] == pre.stack@[k])
    &&& (forall|k: int|
        0 <= k < n ==> cand_matches(
            #[trigger] post.stack@[pre.stack@.len() + k],
            l.entries@[n - 1 - k],
            nested_view(ctx.path),
            ctx.child_depth,
            pre.scopes@.len() as int + 1,
        ))
    &&& post.visited@ == pre.visited@
    &&& post.filter_errors == pre.filter_errors
}

/// A root-level scope compiled from one list of pattern lines, present only
/// under `cond`.
pub open spec fn maybe_scope(cond: bool, lines: Seq<Seq<u8>>) -> Seq<ScopeModel> {
    if cond {
        seq![ScopeModel { prefix: Seq::empty(), rules: compile_lines_spec(lines) }]
    } else {
        Seq::<ScopeModel>::empty()
    }
}

/// The root-level scopes a walker starts with, least specific first: the
/// global VCS ignore file, the repository's exclude file, ancestor ignore
/// lines, then the literal extra patterns.
pub open spec fn initial_scopes(opts: WalkOptions, vcs_active: bool, base: BaseRules) -> Seq<
    ScopeModel,
> {
    maybe_scope(vcs_active && opts.read_global_git_ignore, nested_view(base.global_git_lines))
        + maybe_scope(vcs_active && opts.read_git_exclude, nested_view(base.git_exclude_lines))
        + maybe_scope(
        opts.read_ignore_files && opts.read_parents_ignores,
        nested_view(base.parent_lines),
    ) + maybe_scope(true, nested_view(opts.additional_ignores))
}

/// What construction establishes.
pub open spec fn walker_init(w: Walker, opts: WalkOptions, base: BaseRules, root: RootInfo) -> bool {
    &&& w.wf()
    &&& w.phase == Phase::Ready
    &&& w.opts == opts
    &&& w.root_device == root.device
    &&& w.vcs_active == (opts.read_ignore_files && (!opts.require_git || base.git_root_found))
    &&& rules_model(w.override_rules@) == compile_lines_spec(nested_view(opts.overrides))
    &&& scopes_model(w.scopes@) == initial_scopes(opts, w.vcs_active, base)
    &&& w.stack@.len() == 0
    &&& w.visited@ == (if opts.follow_links {
        seq![(root.ident_dev, root.ident_ino)]
    } else {
        Seq::<(u64, u64)>::empty()
    })
    &&& w.filter_errors == 0
}

pub open spec fn state_of(p: Phase) -> WalkState {
    match p {
        Phase::Ready => WalkState::Ready,
        Phase::Exhausted => WalkState::Exhausted,
        Phase::Failed(_) => WalkState::Failed,
        _ => WalkState::Active,
    }
}

fn push_root_scope(scopes: &mut Vec<Scope>, lines: &Vec<Vec<u8>>)
    ensures
        scopes_model(final(scopes)@) == scopes_model(old(scopes)@) + maybe_scope(
            true,
            nested_view(*lines),
        ),
{
    let mut rs: Vec<IgnoreRule> = Vec::new();
    compile_append(&mut rs, lines);
    proof {
        assert(rules_model(rs@) =~= compile_lines_spec(nested_view(*lines)));
    }
    let prefix: Vec<Vec<u8>> = Vec::new();
    let sc = Scope { prefix, rules: rs };
    proof {
        assert(scope_model(sc).prefix =~= Seq::<Seq<u8>>::empty());
    }
    let ghost pre = scopes@;
    scopes.push(sc);
    proof {
        lemma_scopes_model_push(pre, sc);
        assert(scopes_model(scopes@) =~= scopes_model(old(scopes)@) + maybe_scope(
            true,
            nested_view(*lines),
        ));
    }
}

impl Walker {
    /// Builds a walker from its configuration, the root-level ignore lines
    /// the host gathered, and the root directory's filesystem facts.
    /// Construction never fails: malformed patterns, override lines
    /// included, are silently inert.
    pub fn new(opts: WalkOptions, base: BaseRules, root: RootInfo) -> (w: Walker)
        ensures
            walker_init(w, opts, base, root),
    {
        let vcs_active = opts.read_ignore_files && (!opts.require_git || base.git_root_found);
        let mut override_rules: Vec<IgnoreRule> = Vec::new();
        compile_append(&mut override_rules, &opts.overrides);
        proof {
            assert(rules_model(override_rules@) =~= compile_lines_spec(
                nested_view(opts.overrides),
            ));
        }
        let mut scopes: Vec<Scope> = Vec::new();
        let ghost m1 = maybe_scope(
            vcs_active && opts.read_global_git_ignore,
            nested_view(base.global_git_lines),
        );
        let ghost m2 = maybe_scope(
            vcs_active && opts.read_git_exclude,
            nested_view(base.git_exclude_lines),
        );
        let ghost m3 = maybe_scope(
            opts.read_ignore_files && opts.read_parents_ignores,
            nested_view(base.parent_lines),
        );
        let ghost m4 = maybe_scope(true, nested_view(opts.additional_ignores));
        if vcs_active && opts.read_global_git_ignore {
            push_root_scope(&mut scopes, &base.global_git_lines);
        }
        proof {
            assert(scopes_model(scopes@) =~= m1);
        }
        if vcs_active && opts.read_git_exclude {
            push_root_scope(&mut scopes, &base.git_exclude_lines);
        }
        proof {
            assert(scopes_model(scopes@) =~= m1 + m2);
        }
        if opts.read_ignore_files && opts.read_parents_ignores {
            push_root_scope(&mut scopes, &base.parent_lines);
        }
        proof {
            assert(scopes_model(scopes@) =~= m1 + m2 + m3);
        }
        push_root_scope(&mut scopes, &opts.additional_ignores);
        proof {
            assert(scopes_model(scopes@) =~= m1 + m2 + m3 + m4);
        }
        let mut visited: Vec<(u64, u64)> = Vec::new();
        if opts.follow_links {
            visited.push((root.ident_dev, root.ident_ino));
            proof {
                assert(visited@ =~= seq![(root.ident_dev, root.ident_ino)]);
            }
        }
        Walker {
            opts,
            vcs_active,
            override_rules,
            scopes,
            stack: Vec::new(),
            visited,
            phase: Phase::Ready,
            root_device: root.device,
            filter_errors: 0,
        }
    }

    /// The coarse lifecycle state.
    pub fn state(&self) -> (s: WalkState)
        ensures
            s == state_of(self.phase),
    {
        match &self.phase {
            Phase::Ready => WalkState::Ready,
            Phase::Exhausted => WalkState::Exhausted,
            Phase::Failed(_) => WalkState::Failed,
            _ => WalkState::Active,
        }
    }

    /// How many entry-predicate failures were absorbed (each such entry was
    /// excluded, fail-closed).
    pub fn filter_error_count(&self) -> (n: u64)
        ensures
            n == self.filter_errors,
    {
        self.filter_errors
    }

    fn finalize(&mut self, c: Candidate) -> (r: Outcome)
        requires
            old(self).wf(),
            cand_wf(c, old(self).opts.max_depth),
        ensures
            final(self).wf(),
            same_config(*old(self), *final(self)),
            final(self).stack@ == old(self).stack@,
            final(self).scopes@ == old(self).scopes@,
            finalize_post(*old(self), *final(self), c, r),
    {
        let plen = c.path.len();
        proof {
            assert(c.depth + 1 == plen);
        }
        let is_dir = match c.kind {
            EntryKind::Dir => true,
            EntryKind::Symlink => self.opts.follow_links && c.target_is_dir,
            _ => false,
        };
        let depth_ok = match self.opts.max_depth {
            Some(n) => c.depth < n,
            None => true,
        };
        let mut cycle_ok = true;
        if self.opts.follow_links {
            cycle_ok = !visited_has_x(&self.visited, c.ident_dev, c.ident_ino);
        }
        let descend = is_dir && depth_ok && cycle_ok;
        let entry = DirEntry { path: copy_path(&c.path), kind: c.kind, depth: c.depth };
        if descend {
            if self.opts.follow_links {
                self.visited.push((c.ident_dev, c.ident_ino));
            }
            let ctx = DirCtx { path: c.path, child_depth: c.depth + 1 };
            self.phase = Phase::PreDescend(ctx);
        } else {
            self.phase = Phase::Scanning;
        }
        Outcome::Yield(entry)
    }

    /// One advance of the state machine.
    ///
    /// The contract fixes, case by case over the phase, exactly what comes
    /// back and how the state moves.  In particular: a popped candidate
    /// whose verdict is excluded — a directory as much as a file — is
    /// answered with `Pruned`, the stack only shrinks, and no listing of it
    /// is ever requested, so nothing below it can ever be yielded and no
    /// rule inside it is ever read; and every yielded entry sits within the
    /// configured depth bound.
    pub fn poll(&mut self) -> (r: Outcome)
        requires
            old(self).wf(),
        ensures
            final(self).wf(),
            same_config(*old(self), *final(self)),
            (match r {
                Outcome::Yield(e) => depth_fits(old(self).opts.max_depth, e.depth),
                _ => true,
            }),
            (old(self).phase == Phase::Ready ==> {
                &&& outcome_need_dir(r, Seq::<Seq<u8>>::empty())
                &&& phase_await_dir(final(self).phase, Seq::<Seq<u8>>::empty(), 0)
                &&& final(self).scopes@ == old(self).scopes@
                &&& final(self).stack@ == old(self).stack@
                &&& final(self).visited@ == old(self).visited@
                &&& final(self).filter_errors == old(self).filter_errors
            }),
            (old(self).phase == Phase::Exhausted ==> r == Outcome::Done && *final(self) == *old(self)),
            (old(self).phase matches Phase::Failed(e) ==> outcome_failed(
                r,
                nested_view(e.path),
                e.message@,
            ) && *final(self) == *old(self)),
            (old(self).phase matches Phase::AwaitDir(ctx) ==> outcome_need_dir(
                r,
                nested_view(ctx.path),
            ) && *final(self) == *old(self)),
            (old(self).phase matches Phase::AwaitFilter(c) ==> outcome_need_filter(
                r,
                nested_view(c.path),
            ) && *final(self) == *old(self)),
            (old(self).phase matches Phase::PreDescend(ctx) ==> {
                &&& outcome_need_dir(r, nested_view(ctx.path))
                &&& phase_await_dir(final(self).phase, nested_view(ctx.path), ctx.child_depth)
                &&& final(self).scopes@ == old(self).scopes@
                &&& final(self).stack@ == old(self).stack@
                &&& final(self).visited@ == old(self).visited@
                &&& final(self).filter_errors == old(self).filter_errors
            }),
            (old(self).phase matches Phase::YieldPending(c) ==> {
                &&& final(self).stack@ == old(self).stack@
                &&& final(self).scopes@ == old(self).scopes@
                &&& finalize_post(*old(self), *final(self), c, r)
            }),
            (old(self).phase == Phase::Scanning && old(self).stack@.len() == 0 ==> r
                == Outcome::Done && final(self).phase == Phase::Exhausted && final(self).scopes@
                == old(self).scopes@ && final(self).stack@ == old(self).stack@ && final(self).visited@ == old(self).visited@ && final(self).filter_errors == old(self).filter_errors),
            (old(self).phase == Phase::Scanning && old(self).stack@.len() > 0 ==> {
                let c = old(self).stack@.last();
                let cut = top_scope_cut(*old(self));
                let scopes1 = old(self).scopes@.take(cut);
                let excl = verdict_excluded(
                    old(self).opts,
                    rules_model(old(self).override_rules@),
                    scopes_model(scopes1),
                    c,
                    old(self).root_device,
                );
                &&& final(self).stack@ == old(self).stack@.drop_last()
                &&& final(self).scopes@ == scopes1
                &&& (excl ==> r == Outcome::Pruned && final(self).phase == Phase::Scanning
                    && final(self).visited@ == old(self).visited@ && final(self).filter_errors
                    == old(self).filter_errors)
                &&& (!excl && old(self).opts.use_entry_filter ==> outcome_need_filter(
                    r,
                    nested_view(c.path),
                ) && phase_await_filter(final(self).phase, c) && final(self).visited@ == old(self).visited@ && final(self).filter_errors == old(self).filter_errors)
                &&& (!excl && !old(self).opts.use_entry_filter ==> finalize_post(
                    *old(self),
                    *final(self),
                    c,
                    r,
                ))
            }),
    {
        let mut ph = Phase::Scanning;
        core::mem::swap(&mut ph, &mut self.phase);
        match ph {
            Phase::Ready => {
                let ctx = DirCtx { path: Vec::new(), child_depth: 0 };
                let req = copy_path(&ctx.path);
                proof {
                    assert(nested_view(ctx.path) =~= Seq::<Seq<u8>>::empty());
                }
                self.phase = Phase::AwaitDir(ctx);
                Outcome::NeedDir(req)
            },
            Phase::Exhausted => {
                self.phase = Phase::Exhausted;
                Outcome::Done
            },
            Phase::Failed(e) => {
                let out = WalkError { path: copy_path(&e.path), message: copy_bytes(&e.message) };
                self.phase = Phase::Failed(e);
                Outcome::Failed(out)
            },
            Phase::AwaitDir(ctx) => {
                let req = copy_path(&ctx.path);
                self.phase = Phase::AwaitDir(ctx);
                Outcome::NeedDir(req)
            },
            Phase::AwaitFilter(c) => {
                let req = copy_path(&c.path);
                self.phase = Phase::AwaitFilter(c);
                Outcome::NeedFilter(req)
            },
            Phase::PreDescend(ctx) => {
                let req = copy_path(&ctx.path);
                self.phase = Phase::AwaitDir(ctx);
                Outcome::NeedDir(req)
            },
            Phase::YieldPending(c) => self.finalize(c),
            Phase::Scanning => {
                if self.stack.len() == 0 {
                    self.phase = Phase::Exhausted;
                    Outcome::Done
                } else {
                    let c = self.stack.pop().unwrap();
                    let cut = if c.scope_depth <= self.scopes.len() {
                        c.scope_depth
                    } else {
                        self.scopes.len()
                    };
                    self.scopes.truncate(cut);
                    let excl = verdict_excluded_x(
                        &self.opts,
                        &self.override_rules,
                        &self.scopes,
                        &c,
                        self.root_device,
                    );
                    if excl {
                        self.phase = Phase::Scanning;
                        Outcome::Pruned
                    } else if self.opts.use_entry_filter {
                        let req = copy_path(&c.path);
                        self.phase = Phase::AwaitFilter(c);
                        Outcome::NeedFilter(req)
                    } else {
                        self.finalize(c)
                    }
                }
            },
        }
    }

    /// The host's answer to the outstanding `NeedDir` request.  An error is
    /// terminal: the walker fails with the offending directory and the
    /// message, and produces nothing further.  In any phase without an
    /// outstanding request the call changes nothing.
    pub fn supply_dir(&mut self, res: Result<DirListing, Vec<u8>>)
        requires
            old(self).wf(),
        ensures
            final(self).wf(),
            same_config(*old(self), *final(self)),
            (!(old(self).phase matches Phase::AwaitDir(_)) ==> *final(self) == *old(self)),
            (old(self).phase matches Phase::AwaitDir(ctx) ==> match res {
                Result::Err(m) => {
                    &&& phase_failed(final(self).phase, nested_view(ctx.path), m@)
                    &&& final(self).scopes@ == old(self).scopes@
                    &&& final(self).stack@ == old(self).stack@
                    &&& final(self).visited@ == old(self).visited@
                    &&& final(self).filter_errors == old(self).filter_errors
                },
                Result::Ok(l) => supply_dir_post(*old(self), *final(self), ctx, l),
            }),
    {
        let mut ph = Phase::Scanning;
        core::mem::swap(&mut ph, &mut self.phase);
        match ph {
            Phase::AwaitDir(ctx) => {
                match res {
                    Result::Err(m) => {
                        self.phase = Phase::Failed(WalkError { path: ctx.path, message: m });
                    },
                    Result::Ok(listing) => {
                        let mut rs: Vec<IgnoreRule> = Vec::new();
                        if self.vcs_active && self.opts.read_git_ignore {
                            compile_append(&mut rs, &listing.git_lines);
                        }
                        if self.opts.read_ignore_files {
                            compile_append(&mut rs, &listing.custom_lines);
                        }
                        proof {
                            assert(rules_model(rs@) =~= dir_scope_rules(
                                self.opts,
                                self.vcs_active,
                                listing,
                            ));
                        }
                        let prefix = copy_path(&ctx.path);
                        let sc = Scope { prefix, rules: rs };
                        let ghost pre_scopes = self.scopes@;
                        self.scopes.push(sc);
                        proof {
                            lemma_scopes_model_push(pre_scopes, sc);
                            assert(scope_model(sc).prefix =~= nested_view(ctx.path));
                            assert(scopes_model(self.scopes@) =~= scopes_model(
                                old(self).scopes@,
                            ).push(
                                ScopeModel {
                                    prefix: nested_view(ctx.path),
                                    rules: dir_scope_rules(
                                        old(self).opts,
                                        old(self).vcs_active,
                                        listing,
                                    ),
                                },
                            ));
                        }
                        let sd = self.scopes.len();
                        let ghost scopes_after = self.scopes@;
                        let mut entries = listing.entries;
                        let ghost entries0 = entries@;
                        let ghost n = entries0.len() as int;
                        let ghost base = self.stack@.len() as int;
                        while entries.len() > 0
                            invariant
                                n == entries0.len(),
                                entries@ == entries0.take(entries@.len() as int),
                                self.stack@.len() == base + (n - entries@.len()),
                                0 <= entries@.len() <= n,
                                base == old(self).stack@.len(),
                                forall|k: int|
                                    0 <= k < base ==> self.stack@[k] == old(self).stack@[k],
                                forall|k: int|
                                    0 <= k < n - entries@.len() ==> cand_matches(
                                        #[trigger] self.stack@[base + k],
                                        entries0[n - 1 - k],
                                        nested_view(ctx.path),
                                        ctx.child_depth,
                                        sd as int,
                                    ),
                                forall|i: int|
                                    0 <= i < self.stack@.len() ==> cand_wf(
                                        #[trigger] self.stack@[i],
                                        self.opts.max_depth,
                                    ),
                                ctx_wf(ctx, self.opts.max_depth),
                                self.opts == old(self).opts,
                                self.vcs_active == old(self).vcs_active,
                                self.override_rules@ == old(self).override_rules@,
                                self.root_device == old(self).root_device,
                                self.visited@ == old(self).visited@,
                                self.filter_errors == old(self).filter_errors,
                                self.scopes@ == scopes_after,
                                sd as int == scopes_after.len(),
                                self.phase == Phase::Scanning,
                            decreases entries@.len(),
                        {
                            let ghost m = entries@.len() as int;
                            let e = entries.pop().unwrap();
                            proof {
                                assert(entries0.take(m).last() == entries0[m - 1]);
                                assert(entries0.take(m).drop_last() =~= entries0.take(m - 1));
                            }
                            let mut p = copy_path(&ctx.path);
                            p.push(e.name);
                            proof {
                                assert(nested_view(p) =~= nested_view(ctx.path).push(
                                    entries0[m - 1].name@,
                                ));
                            }
                            let cand = Candidate {
                                path: p,
                                kind: e.kind,
                                size: e.size,
                                device: e.device,
                                ident_dev: e.ident_dev,
                                ident_ino: e.ident_ino,
                                target_is_dir: e.target_is_dir,
                                depth: ctx.child_depth,
                                scope_depth: sd,
                            };
                            self.stack.push(cand);
                        }
                        proof {
                            assert(entries@.len() == 0);
                        }
                        self.phase = Phase::Scanning;
                    },
                }
            },
            other => {
                self.phase = other;
            },
        }
    }

    /// The host's answer to the outstanding `NeedFilter` request: the
    /// predicate's wish to exclude, or `None` when the predicate itself
    /// failed — the entry is then excluded too (fail-closed) and the failure
    /// only counted, never propagated.  In any phase without an outstanding
    /// request the call changes nothing.
    pub fn supply_filter(&mut self, verdict: Option<bool>)
        requires
            old(self).wf(),
        ensures
            final(self).wf(),
            same_config(*old(self), *final(self)),
            (!(old(self).phase matches Phase::AwaitFilter(_)) ==> *final(self) == *old(self)),
            (old(self).phase matches Phase::AwaitFilter(c) ==> {
                &&& final(self).scopes@ == old(self).scopes@
                &&& final(self).stack@ == old(self).stack@
                &&& final(self).visited@ == old(self).visited@
                &&& (verdict == Some(false) ==> phase_yield_pending(final(self).phase, c)
                    && final(self).filter_errors == old(self).filter_errors)
                &&& (verdict == Some(true) ==> final(self).phase == Phase::Scanning && final(self).filter_errors == old(self).filter_errors)
                &&& (verdict is None ==> final(self).phase == Phase::Scanning && final(self).filter_errors == (if old(self).filter_errors < u64::MAX {
                    (old(self).filter_errors + 1) as u64
                } else {
                    old(self).filter_errors
                }))
            }),
    {
        let mut ph = Phase::Scanning;
        core::mem::swap(&mut ph, &mut self.phase);
        match ph {
            Phase::AwaitFilter(c) => {
                match verdict {
                    Some(false) => {
                        self.phase = Phase::YieldPending(c);
                    },
                    Some(true) => {
                        self.phase = Phase::Scanning;
                    },
                    None => {
                        if self.filter_errors < u64::MAX {
                            self.filter_errors = self.filter_errors + 1;
                        }
                        self.phase = Phase::Scanning;
                    },
                }
            },
            other => {
                self.phase = other;
            },
        }
    }
}

/// Builds a walker; the free-function form of `Walker::new`.
pub fn walk(opts: WalkOptions, base: BaseRules, root: RootInfo) -> (w: Walker)
    ensures
        walker_init(w, opts, base, root),
{
    Walker::new(opts, base, root)
}

/// Overrides take precedence over every ignore-file scope, in both
/// directions: whenever any override pattern matches a candidate, the
/// verdict does not depend on the scope chain at all; and when the built-in
/// device, hidden and size checks pass, the verdict is exactly the last
/// matching override's direction (a negated override excludes, a plain one
/// includes).
pub proof fn lemma_override_precedence(
    opts: WalkOptions,
    ov: Seq<RuleModel>,
    scopes1: Seq<ScopeModel>,
    scopes2: Seq<ScopeModel>,
    c: Candidate,
    root_device: u64,
)
    requires
        list_decision(
            ov,
            nested_view(c.path),
            cand_is_dir(c, opts.follow_links),
            opts.case_insensitive,
        ) is Some,
    ensures
        verdict_excluded(opts, ov, scopes1, c, root_device) == verdict_excluded(
            opts,
            ov,
            scopes2,
            c,
            root_device,
        ),
        (!(opts.same_file_system && c.device != root_device) && !(opts.ignore_hidden
            && c.path@.len() > 0 && hidden_name(c.path@.last()@)) && !size_excluded(
            opts,
            c.kind,
            c.size,
        )) ==> verdict_excluded(opts, ov, scopes1, c, root_device) == (list_decision(
            ov,
            nested_view(c.path),
            cand_is_dir(c, opts.follow_links),
            opts.case_insensitive,
        ) == Some(false)),
{
}

/// The size bound is independent of pattern rules: an over-limit file is
/// excluded whatever the rules say, and an in-limit file's verdict is the
/// same as without any size bound.
pub proof fn lemma_max_filesize(
    opts: WalkOptions,
    ov: Seq<RuleModel>,
    scopes: Seq<ScopeModel>,
    c: Candidate,
    root_device: u64,
    k: u64,
)
    requires
        opts.max_filesize == Some(k),
        c.kind == EntryKind::File,
    ensures
        c.size > k ==> verdict_excluded(opts, ov, scopes, c, root_device),
        c.size <= k ==> verdict_excluded(opts, ov, scopes, c, root_device) == verdict_excluded(
            WalkOptions { max_filesize: None, ..opts },
            ov,
            scopes,
            c,
            root_device,
        ),
{
}

} // verus!
