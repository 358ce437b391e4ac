//! Compiled ignore rules, directory-rooted scopes, and the last-match-wins
//! decision over an ordered chain of scopes.

use vstd::prelude::*;
use crate::pattern::{
    Comp, GlobComp, BANG, HASH, SLASH, comps_match, comps_match_at, comps_model, nested_view,
    parse_comps, parse_comps_x,
};

verus! {

/// One compiled ignore rule.  `anchored` pins the pattern to its scope's
/// root; an unanchored rule matches an entry's name at any depth.  `negated`
/// flips the rule's effect (`!`-prefixed line); `dir_only` restricts it to
/// directories (trailing separator).
pub struct IgnoreRule {
    pub comps: Vec<Comp>,
    pub anchored: bool,
    pub negated: bool,
    pub dir_only: bool,
}

/// Mathematical form of a compiled rule.
pub struct RuleModel {
    pub comps: Seq<GlobComp>,
    pub anchored: bool,
    pub negated: bool,
    pub dir_only: bool,
}

pub open spec fn rule_model(r: IgnoreRule) -> RuleModel {
    RuleModel {
        comps: comps_model(r.comps@),
        anchored: r.anchored,
        negated: r.negated,
        dir_only: r.dir_only,
    }
}

pub open spec fn rules_model(rs: Seq<IgnoreRule>) -> Seq<RuleModel> {
    rs.map(|i: int, r: IgnoreRule| rule_model(r))
}

pub open spec fn contains_slash(s: Seq<u8>) -> bool {
    exists|i: int| 0 <= i < s.len() && s[i] == SLASH
}

/// What one pattern line compiles to: `None` for a blank line, a comment, or
/// a malformed pattern (all silently inert); otherwise the rule, with `!`,
/// trailing `/` and leading `/` stripped into the three flags, and a body
/// containing `/` anchoring the rule to its scope's root.
pub open spec fn compile_spec(line: Seq<u8>) -> Option<RuleModel> {
    if line.len() == 0 || line[0] == HASH {
        None
    } else {
        let negated = line[0] == BANG;
        let b1 = if negated {
            line.skip(1)
        } else {
            line
        };
        if b1.len() == 0 {
            None
        } else {
            let dir_only = b1.last() == SLASH;
            let b2 = if dir_only {
                b1.take(b1.len() - 1)
            } else {
                b1
            };
            if b2.len() == 0 {
                None
            } else {
                let lead = b2[0] == SLASH;
                let b3 = if lead {
                    b2.skip(1)
                } else {
                    b2
                };
                if b3.len() == 0 {
                    None
                } else {
                    let anchored = lead || contains_slash(b3);
                    match parse_comps(b3, 0) {
                        None => None,
                        Some(cs) => Some(
                            RuleModel { comps: cs, anchored, negated, dir_only },
                        ),
                    }
                }
            }
        }
    }
}

/// Compiles one pattern line; a line that fails to compile never matches.
pub fn compile_line(line: &Vec<u8>) -> (r: Option<IgnoreRule>)
    ensures
        match r {
            Some(rule) => compile_spec(line@) == Some(rule_model(rule)),
            None => compile_spec(line@) is None,
        },
{
    if line.len() == 0 {
        return None;
    }
    if line[0] == HASH {
        return None;
    }
    let negated = line[0] == BANG;
    let lo0: usize = if negated {
        1
    } else {
        0
    };
    if line.len() == lo0 {
        proof {
            assert(line@.skip(1).len() == 0);
        }
        return None;
    }
    let ghost b1 = if negated {
        line@.skip(1)
    } else {
        line@
    };
    proof {
        assert(b1 =~= line@.subrange(lo0 as int, line@.len() as int));
        assert(b1.last() == line@.last());
    }
    let dir_only = line[line.len() - 1] == SLASH;
    let hi: usize = if dir_only {
        line.len() - 1
    } else {
        line.len()
    };
    let ghost b2 = if dir_only {
        b1.take(b1.len() - 1)
    } else {
        b1
    };
    proof {
        assert(b2 =~= line@.subrange(lo0 as int, hi as int));
    }
    if hi == lo0 {
        return None;
    }
    let lead = line[lo0] == SLASH;
    let lo: usize = if lead {
        lo0 + 1
    } else {
        lo0
    };
    let ghost b3 = if lead {
        b2.skip(1)
    } else {
        b2
    };
    proof {
        assert(b3 =~= line@.subrange(lo as int, hi as int));
    }
    if hi == lo {
        return None;
    }
    let mut body: Vec<u8> = Vec::new();
    let mut k: usize = lo;
    while k < hi
        invariant
            lo <= k <= hi <= line.len(),
            body@ == line@.subrange(lo as int, k as int),
        decreases hi - k,
    {
        body.push(line[k]);
        proof {
            assert(body@ =~= line@.subrange(lo as int, k as int + 1));
        }
        k += 1;
    }
    proof {
        assert(body@ == b3);
    }
    let mut has_slash = false;
    let mut k2: usize = 0;
    while k2 < body.len()
        invariant
            k2 <= body.len(),
            has_slash == exists|j: int| 0 <= j < k2 && body@[j] == SLASH,
        decreases body.len() - k2,
    {
        if body[k2] == SLASH {
            has_slash = true;
        }
        k2 += 1;
    }
    proof {
        assert(has_slash == contains_slash(b3));
    }
    let anchored = lead || has_slash;
    match parse_comps_x(&body, 0) {
        None => None,
        Some(cs) => Some(IgnoreRule { comps: cs, anchored, negated, dir_only }),
    }
}

/// Whether a compiled rule matches a path, given relative to the rule's
/// scope as a non-empty run of name components.
pub open spec fn rule_matches(r: RuleModel, rel: Seq<Seq<u8>>, is_dir: bool, ci: bool) -> bool {
    if r.dir_only && !is_dir {
        false
    } else if rel.len() == 0 {
        false
    } else if r.anchored {
        comps_match(r.comps, rel, ci)
    } else {
        comps_match(r.comps, seq![rel.last()], ci)
    }
}

/// Matches a rule against `path[start..]`, the candidate's path relative to
/// the rule's scope.
pub fn rule_matches_x(
    r: &IgnoreRule,
    path: &Vec<Vec<u8>>,
    start: usize,
    is_dir: bool,
    ci: bool,
) -> (m: bool)
    requires
        start <= path.len(),
    ensures
        m == rule_matches(rule_model(*r), nested_view(*path).skip(start as int), is_dir, ci),
{
    if r.dir_only && !is_dir {
        false
    } else if start == path.len() {
        false
    } else if r.anchored {
        proof {
            assert(comps_model(r.comps@).skip(0) =~= comps_model(r.comps@));
        }
        comps_match_at(&r.comps, 0, path, start, ci)
    } else {
        proof {
            assert(comps_model(r.comps@).skip(0) =~= comps_model(r.comps@));
            assert(nested_view(*path).skip(path@.len() - 1) =~= seq![
                nested_view(*path).skip(start as int).last(),
            ]);
        }
        comps_match_at(&r.comps, 0, path, path.len() - 1, ci)
    }
}

/// The decision of an ordered rule list on one candidate: `None` when no
/// rule matches; otherwise `Some(positive)` where `positive` says the last
/// matching rule was a plain (non-negated) pattern.  Later rules override
/// earlier ones.
pub open spec fn list_decision(
    rules: Seq<RuleModel>,
    rel: Seq<Seq<u8>>,
    is_dir: bool,
    ci: bool,
) -> Option<bool>
    decreases rules.len(),
{
    if rules.len() == 0 {
        None
    } else if rule_matches(rules.last(), rel, is_dir, ci) {
        Some(!rules.last().negated)
    } else {
        list_decision(rules.drop_last(), rel, is_dir, ci)
    }
}

fn list_decision_upto(
    rules: &Vec<IgnoreRule>,
    n: usize,
    path: &Vec<Vec<u8>>,
    start: usize,
    is_dir: bool,
    ci: bool,
) -> (d: Option<bool>)
    requires
        n <= rules.len(),
        start <= path.len(),
    ensures
        d == list_decision(
            rules_model(rules@).take(n as int),
            nested_view(*path).skip(start as int),
            is_dir,
            ci,
        ),
    decreases n,
{
    if n == 0 {
        proof {
            assert(rules_model(rules@).take(0) =~= Seq::<RuleModel>::empty());
        }
        None
    } else {
        proof {
            assert(rules_model(rules@).take(n as int).last() == rule_model(rules@[n - 1]));
            assert(rules_model(rules@).take(n as int).drop_last() =~= rules_model(rules@).take(
                n as int - 1,
            ));
        }
        if rule_matches_x(&rules[n - 1], path, start, is_dir, ci) {
            Some(!rules[n - 1].negated)
        } else {
            list_decision_upto(rules, n - 1, path, start, is_dir, ci)
        }
    }
}

/// The decision of a whole rule list on `path[start..]`.
pub fn list_decision_x(
    rules: &Vec<IgnoreRule>,
    path: &Vec<Vec<u8>>,
    start: usize,
    is_dir: bool,
    ci: bool,
) -> (d: Option<bool>)
    requires
        start <= path.len(),
    ensures
        d == list_decision(
            rules_model(rules@),
            nested_view(*path).skip(start as int),
            is_dir,
            ci,
        ),
{
    proof {
        assert(rules_model(rules@).take(rules@.len() as int) =~= rules_model(rules@));
    }
    list_decision_upto(rules, rules.len(), path, start, is_dir, ci)
}

/// The rules attached to one directory, rooted at `prefix` (the directory's
/// path relative to the walk root, as name components).
pub struct Scope {
    pub prefix: Vec<Vec<u8>>,
    pub rules: Vec<IgnoreRule>,
}

/// Mathematical form of a scope.
pub struct ScopeModel {
    pub prefix: Seq<Seq<u8>>,
    pub rules: Seq<RuleModel>,
}

pub open spec fn scope_model(s: Scope) -> ScopeModel {
    ScopeModel { prefix: nested_view(s.prefix), rules: rules_model(s.rules@) }
}

pub open spec fn scopes_model(ss: Seq<Scope>) -> Seq<ScopeModel> {
    ss.map(|i: int, s: Scope| scope_model(s))
}

/// A scope applies to a candidate strictly below its root directory; the
/// candidate is then resolved relative to that root.
pub open spec fn scope_decision(
    sc: ScopeModel,
    path: Seq<Seq<u8>>,
    is_dir: bool,
    ci: bool,
) -> Option<bool> {
    if sc.prefix.len() < path.len() && path.take(sc.prefix.len() as int) == sc.prefix {
        list_decision(sc.rules, path.skip(sc.prefix.len() as int), is_dir, ci)
    } else {
        None
    }
}

fn bytes_eq(a: &Vec<u8>, b: &Vec<u8>) -> (r: bool)
    ensures
        r == (a@ == b@),
{
    if a.len() != b.len() {
        return false;
    }
    let mut k: usize = 0;
    while k < a.len()
        invariant
            k <= a.len(),
            a.len() == b.len(),
            forall|j: int| 0 <= j < k ==> a@[j] == b@[j],
        decreases a.len() - k,
    {
        if a[k] != b[k] {
            return false;
        }
        k += 1;
    }
    proof {
        assert(a@ =~= b@);
    }
    true
}

fn scope_decision_x(sc: &Scope, path: &Vec<Vec<u8>>, is_dir: bool, ci: bool) -> (d: Option<bool>)
    ensures
        d == scope_decision(scope_model(*sc), nested_view(*path), is_dir, ci),
{
    if sc.prefix.len() >= path.len() {
        return None;
    }
    let mut k: usize = 0;
    while k < sc.prefix.len()
        invariant
            k <= sc.prefix.len() < path.len(),
            forall|j: int| 0 <= j < k ==> nested_view(*path)[j] == nested_view(sc.prefix)[j],
        decreases sc.prefix.len() - k,
    {
        if !bytes_eq(&path[k], &sc.prefix[k]) {
            proof {
                assert(nested_view(*path).take(sc.prefix@.len() as int)[k as int] != nested_view(
                    sc.prefix,
                )[k as int]);
            }
            return None;
        }
        k += 1;
    }
    proof {
        assert(nested_view(*path).take(sc.prefix@.len() as int) =~= nested_view(sc.prefix));
    }
    list_decision_x(&sc.rules, path, sc.prefix.len(), is_dir, ci)
}

/// The decision of a chain of scopes, ordered from the walk root down: the
/// most specific scope in which any rule matches decides, by its own last
/// matching rule; `None` when no rule in any scope matches.
pub open spec fn stack_decision(
    scopes: Seq<ScopeModel>,
    path: Seq<Seq<u8>>,
    is_dir: bool,
    ci: bool,
) -> Option<bool>
    decreases scopes.len(),
{
    if scopes.len() == 0 {
        None
    } else {
        match scope_decision(scopes.last(), path, is_dir, ci) {
            Some(d) => Some(d),
            None => stack_decision(scopes.drop_last(), path, is_dir, ci),
        }
    }
}

fn stack_decision_upto(
    scopes: &Vec<Scope>,
    n: usize,
    path: &Vec<Vec<u8>>,
    is_dir: bool,
    ci: bool,
) -> (d: Option<bool>)
    requires
        n <= scopes.len(),
    ensures
        d == stack_decision(
            scopes_model(scopes@).take(n as int),
            nested_view(*path),
            is_dir,
            ci,
        ),
    decreases n,
{
    if n == 0 {
        proof {
            assert(scopes_model(scopes@).take(0) =~= Seq::<ScopeModel>::empty());
        }
        None
    } else {
        proof {
            assert(scopes_model(scopes@).take(n as int).last() == scope_model(scopes@[n - 1]));
            assert(scopes_model(scopes@).take(n as int).drop_last() =~= scopes_model(
                scopes@,
            ).take(n as int - 1));
        }
        match scope_decision_x(&scopes[n - 1], path, is_dir, ci) {
            Some(d) => Some(d),
            None => stack_decision_upto(scopes, n - 1, path, is_dir, ci),
        }
    }
}

/// The decision of the whole scope chain on a candidate path.
pub fn stack_decision_x(
    scopes: &Vec<Scope>,
    path: &Vec<Vec<u8>>,
    is_dir: bool,
    ci: bool,
) -> (d: Option<bool>)
    ensures
        d == stack_decision(scopes_model(scopes@), nested_view(*path), is_dir, ci),
{
    proof {
        assert(scopes_model(scopes@).take(scopes@.len() as int) =~= scopes_model(scopes@));
    }
    stack_decision_upto(scopes, scopes.len(), path, is_dir, ci)
}

/// Within one effective precedence tier, a later pattern's decision
/// overrides an earlier pattern's: the decision of `early + late` is `late`'s
/// whenever `late` decides at all, and `early`'s otherwise.
pub proof fn lemma_later_patterns_override(
    early: Seq<RuleModel>,
    late: Seq<RuleModel>,
    rel: Seq<Seq<u8>>,
    is_dir: bool,
    ci: bool,
)
    ensures
        list_decision(early + late, rel, is_dir, ci) == (match list_decision(
            late,
            rel,
            is_dir,
            ci,
        ) {
            Some(d) => Some(d),
            None => list_decision(early, rel, is_dir, ci),
        }),
    decreases late.len(),
{
    if late.len() == 0 {
        assert(early + late =~= early);
    } else {
        assert((early + late).last() == late.last());
        assert((early + late).drop_last() =~= early + late.drop_last());
        lemma_later_patterns_override(early, late.drop_last(), rel, is_dir, ci);
    }
}

/// A rule appended to a list decides whenever it matches: last match wins.
pub proof fn lemma_last_match_wins(
    rules: Seq<RuleModel>,
    r: RuleModel,
    rel: Seq<Seq<u8>>,
    is_dir: bool,
    ci: bool,
)
    requires
        rule_matches(r, rel, is_dir, ci),
    ensures
        list_decision(rules.push(r), rel, is_dir, ci) == Some(!r.negated),
{
    assert(rules.push(r).last() == r);
}

} // verus!
