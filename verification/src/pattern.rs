//! Compiling one gitignore-style pattern into glob components, and matching
//! those components against a path given as a list of name components.
//!
//! The glob dialect: `*` matches any run of bytes within one name, `?` one
//! byte, `[...]` a byte class (ranges, `!` or `^` negation), `\x` the literal
//! byte `x`, and a component that is exactly `**` matches zero or more whole
//! components.  A pattern is split at `/` into components before matching;
//! names never contain `/`, so no wildcard ever crosses a separator.

use vstd::prelude::*;

verus! {

pub const SLASH: u8 = 47;
pub const STAR: u8 = 42;
pub const QMARK: u8 = 63;
pub const LBRACK: u8 = 91;
pub const RBRACK: u8 = 93;
pub const BANG: u8 = 33;
pub const CARET: u8 = 94;
pub const DASH: u8 = 45;
pub const BSLASH: u8 = 92;
pub const HASH: u8 = 35;
pub const DOT: u8 = 46;

/// Mathematical form of one glob token.
pub enum GlobToken {
    Lit(u8),
    Any,
    Star,
    Class { neg: bool, ranges: Seq<(u8, u8)> },
}

/// Mathematical form of one pattern component: a glob over one name, or a
/// `**` component standing for any run of whole components.
pub enum GlobComp {
    AnyDirs,
    Glob(Seq<GlobToken>),
}

/// One compiled glob token.
pub enum Token {
    Lit(u8),
    Any,
    Star,
    Class { neg: bool, ranges: Vec<(u8, u8)> },
}

/// One compiled pattern component.
pub enum Comp {
    AnyDirs,
    Glob(Vec<Token>),
}

pub open spec fn token_model(t: Token) -> GlobToken {
    match t {
        Token::Lit(b) => GlobToken::Lit(b),
        Token::Any => GlobToken::Any,
        Token::Star => GlobToken::Star,
        Token::Class { neg, ranges } => GlobToken::Class { neg, ranges: ranges@ },
    }
}

pub open spec fn toks_model(ts: Seq<Token>) -> Seq<GlobToken> {
    ts.map(|i: int, t: Token| token_model(t))
}

pub open spec fn comp_model(c: Comp) -> GlobComp {
    match c {
        Comp::AnyDirs => GlobComp::AnyDirs,
        Comp::Glob(ts) => GlobComp::Glob(toks_model(ts@)),
    }
}

pub open spec fn comps_model(cs: Seq<Comp>) -> Seq<GlobComp> {
    cs.map(|i: int, c: Comp| comp_model(c))
}

/// The components of a path held as a vector of names.
pub open spec fn nested_view(v: Vec<Vec<u8>>) -> Seq<Seq<u8>> {
    Seq::new(v@.len(), |i: int| v@[i]@)
}

/// ASCII case folding, applied only when matching is case-insensitive.
pub open spec fn fold_byte(b: u8, ci: bool) -> u8 {
    if ci && 65 <= b && b <= 90 {
        (b + 32) as u8
    } else {
        b
    }
}

fn fold_byte_x(b: u8, ci: bool) -> (r: u8)
    ensures
        r == fold_byte(b, ci),
{
    if ci && 65 <= b && b <= 90 {
        b + 32
    } else {
        b
    }
}

/// Whether the (already folded) byte `b` falls in one of the class ranges.
pub open spec fn in_ranges(rs: Seq<(u8, u8)>, b: u8, ci: bool) -> bool
    decreases rs.len(),
{
    if rs.len() == 0 {
        false
    } else {
        (fold_byte(rs[0].0, ci) <= b && b <= fold_byte(rs[0].1, ci)) || in_ranges(
            rs.drop_first(),
            b,
            ci,
        )
    }
}

fn in_ranges_x(rs: &Vec<(u8, u8)>, i: usize, b: u8, ci: bool) -> (r: bool)
    requires
        i <= rs.len(),
    ensures
        r == in_ranges(rs@.skip(i as int), b, ci),
    decreases rs.len() - i,
{
    if i == rs.len() {
        proof {
            assert(rs@.skip(i as int) =~= Seq::<(u8, u8)>::empty());
        }
        false
    } else {
        let lo = fold_byte_x(rs[i].0, ci);
        let hi = fold_byte_x(rs[i].1, ci);
        proof {
            assert(rs@.skip(i as int)[0] == rs@[i as int]);
            assert(rs@.skip(i as int).drop_first() =~= rs@.skip(i as int + 1));
        }
        if lo <= b && b <= hi {
            true
        } else {
            in_ranges_x(rs, i + 1, b, ci)
        }
    }
}

/// Whether one glob token matches one byte of a name.
pub open spec fn token_matches(t: GlobToken, b: u8, ci: bool) -> bool {
    match t {
        GlobToken::Lit(l) => fold_byte(l, ci) == fold_byte(b, ci),
        GlobToken::Any => true,
        GlobToken::Star => false,
        GlobToken::Class { neg, ranges } => neg != in_ranges(ranges, fold_byte(b, ci), ci),
    }
}

fn token_matches_x(t: &Token, b: u8, ci: bool) -> (r: bool)
    ensures
        r == token_matches(token_model(*t), b, ci),
{
    match t {
        Token::Lit(l) => fold_byte_x(*l, ci) == fold_byte_x(b, ci),
        Token::Any => true,
        Token::Star => false,
        Token::Class { neg, ranges } => {
            proof {
                assert(ranges@.skip(0) =~= ranges@);
            }
            *neg != in_ranges_x(ranges, 0, fold_byte_x(b, ci), ci)
        },
    }
}

/// Whether a token sequence matches a whole name.  `Star` matches any run of
/// bytes; every other token consumes exactly one byte.
pub open spec fn toks_match(p: Seq<GlobToken>, s: Seq<u8>, ci: bool) -> bool
    decreases p.len(), s.len(),
{
    if p.len() == 0 {
        s.len() == 0
    } else {
        match p[0] {
            GlobToken::Star => toks_match(p.drop_first(), s, ci) || (s.len() > 0 && toks_match(
                p,
                s.drop_first(),
                ci,
            )),
            _ => s.len() > 0 && token_matches(p[0], s[0], ci) && toks_match(
                p.drop_first(),
                s.drop_first(),
                ci,
            ),
        }
    }
}

fn toks_match_at(p: &Vec<Token>, pi: usize, s: &Vec<u8>, si: usize, ci: bool) -> (r: bool)
    requires
        pi <= p.len(),
        si <= s.len(),
    ensures
        r == toks_match(toks_model(p@).skip(pi as int), s@.skip(si as int), ci),
    decreases p.len() - pi, s.len() - si,
{
    proof {
        assert(toks_model(p@).len() == p@.len());
    }
    if pi == p.len() {
        proof {
            assert(toks_model(p@).skip(pi as int) =~= Seq::<GlobToken>::empty());
        }
        si == s.len()
    } else {
        proof {
            assert(toks_model(p@).skip(pi as int)[0] == token_model(p@[pi as int]));
            assert(toks_model(p@).skip(pi as int).drop_first() =~= toks_model(p@).skip(
                pi as int + 1,
            ));
        }
        let is_star = match &p[pi] {
            Token::Star => true,
            _ => false,
        };
        if is_star {
            if toks_match_at(p, pi + 1, s, si, ci) {
                true
            } else if si < s.len() {
                proof {
                    assert(s@.skip(si as int).drop_first() =~= s@.skip(si as int + 1));
                    assert(s@.skip(si as int).len() > 0);
                }
                toks_match_at(p, pi, s, si + 1, ci)
            } else {
                false
            }
        } else {
            if si == s.len() {
                false
            } else {
                proof {
                    assert(s@.skip(si as int)[0] == s@[si as int]);
                    assert(s@.skip(si as int).drop_first() =~= s@.skip(si as int + 1));
                }
                if token_matches_x(&p[pi], s[si], ci) {
                    toks_match_at(p, pi + 1, s, si + 1, ci)
                } else {
                    false
                }
            }
        }
    }
}

/// Whether a component sequence matches a run of path components.  `AnyDirs`
/// matches zero or more whole components; a glob component matches exactly
/// one.
pub open spec fn comps_match(ps: Seq<GlobComp>, cs: Seq<Seq<u8>>, ci: bool) -> bool
    decreases ps.len(), cs.len(),
{
    if ps.len() == 0 {
        cs.len() == 0
    } else {
        match ps[0] {
            GlobComp::AnyDirs => comps_match(ps.drop_first(), cs, ci) || (cs.len() > 0
                && comps_match(ps, cs.drop_first(), ci)),
            GlobComp::Glob(ts) => cs.len() > 0 && toks_match(ts, cs[0], ci) && comps_match(
                ps.drop_first(),
                cs.drop_first(),
                ci,
            ),
        }
    }
}

/// Matches the pattern components `ps[pi..]` against the path components
/// `path[ci0..]`.
pub fn comps_match_at(ps: &Vec<Comp>, pi: usize, path: &Vec<Vec<u8>>, ci0: usize, ci: bool) -> (r:
    bool)
    requires
        pi <= ps.len(),
        ci0 <= path.len(),
    ensures
        r == comps_match(comps_model(ps@).skip(pi as int), nested_view(*path).skip(ci0 as int), ci),
    decreases ps.len() - pi, path.len() - ci0,
{
    proof {
        assert(comps_model(ps@).len() == ps@.len());
        assert(nested_view(*path).len() == path@.len());
    }
    if pi == ps.len() {
        proof {
            assert(comps_model(ps@).skip(pi as int) =~= Seq::<GlobComp>::empty());
        }
        ci0 == path.len()
    } else {
        proof {
            assert(comps_model(ps@).skip(pi as int)[0] == comp_model(ps@[pi as int]));
            assert(comps_model(ps@).skip(pi as int).drop_first() =~= comps_model(ps@).skip(
                pi as int + 1,
            ));
        }
        match &ps[pi] {
            Comp::AnyDirs => {
                if comps_match_at(ps, pi + 1, path, ci0, ci) {
                    true
                } else if ci0 < path.len() {
                    proof {
                        assert(nested_view(*path).skip(ci0 as int).drop_first() =~= nested_view(
                            *path,
                        ).skip(ci0 as int + 1));
                        assert(nested_view(*path).skip(ci0 as int).len() > 0);
                    }
                    comps_match_at(ps, pi, path, ci0 + 1, ci)
                } else {
                    false
                }
            },
            Comp::Glob(ts) => {
                if ci0 == path.len() {
                    false
                } else {
                    proof {
                        assert(nested_view(*path).skip(ci0 as int)[0] == path@[ci0 as int]@);
                        assert(nested_view(*path).skip(ci0 as int).drop_first() =~= nested_view(
                            *path,
                        ).skip(ci0 as int + 1));
                        assert(toks_model(ts@).skip(0) =~= toks_model(ts@));
                        assert(path@[ci0 as int]@.skip(0) =~= path@[ci0 as int]@);
                    }
                    if toks_match_at(ts, 0, &path[ci0], 0, ci) {
                        comps_match_at(ps, pi + 1, path, ci0 + 1, ci)
                    } else {
                        false
                    }
                }
            },
        }
    }
}

/// Length of the run of `*` bytes starting at `i`.
pub open spec fn star_run(s: Seq<u8>, i: int) -> int
    decreases s.len() - i when 0 <= i <= s.len()
{
    if i < s.len() && s[i] == STAR {
        1 + star_run(s, i + 1)
    } else {
        0
    }
}

fn star_run_x(s: &Vec<u8>, i: usize) -> (k: usize)
    requires
        i <= s.len(),
    ensures
        k == star_run(s@, i as int),
        i + k <= s.len(),
        i < s.len() && s@[i as int] == STAR ==> k >= 1,
    decreases s.len() - i,
{
    if i < s.len() && s[i] == STAR {
        1 + star_run_x(s, i + 1)
    } else {
        0
    }
}

/// Parses the items of a byte class, starting just inside the brackets;
/// returns the ranges and the index after the closing bracket.  An unclosed
/// class is a compile failure.
pub open spec fn parse_class_items(s: Seq<u8>, i: int) -> Option<(Seq<(u8, u8)>, int)>
    decreases s.len() - i when 0 <= i <= s.len()
{
    if i >= s.len() {
        None
    } else if s[i] == RBRACK {
        Some((Seq::empty(), i + 1))
    } else if i + 2 < s.len() && s[i + 1] == DASH && s[i + 2] != RBRACK {
        match parse_class_items(s, i + 3) {
            Some((items, j)) => Some((seq![(s[i], s[i + 2])] + items, j)),
            None => None,
        }
    } else {
        match parse_class_items(s, i + 1) {
            Some((items, j)) => Some((seq![(s[i], s[i])] + items, j)),
            None => None,
        }
    }
}

fn parse_class_items_x(s: &Vec<u8>, i: usize) -> (r: Option<(Vec<(u8, u8)>, usize)>)
    requires
        i <= s.len(),
    ensures
        match r {
            Some((items, j)) => parse_class_items(s@, i as int) == Some((items@, j as int)) && i
                < j <= s.len(),
            None => parse_class_items(s@, i as int) is None,
        },
    decreases s.len() - i,
{
    if i >= s.len() {
        None
    } else if s[i] == RBRACK {
        let items: Vec<(u8, u8)> = Vec::new();
        proof {
            assert(items@ =~= Seq::<(u8, u8)>::empty());
        }
        Some((items, i + 1))
    } else if s.len() - i > 2 && s[i + 1] == DASH && s[i + 2] != RBRACK {
        match parse_class_items_x(s, i + 3) {
            Some((rest, j)) => {
                let mut items: Vec<(u8, u8)> = vec![(s[i], s[i + 2])];
                let mut tail = rest;
                items.append(&mut tail);
                proof {
                    assert(items@ =~= seq![(s@[i as int], s@[i as int + 2])] + rest@);
                }
                Some((items, j))
            },
            None => None,
        }
    } else {
        match parse_class_items_x(s, i + 1) {
            Some((rest, j)) => {
                let mut items: Vec<(u8, u8)> = vec![(s[i], s[i])];
                let mut tail = rest;
                items.append(&mut tail);
                proof {
                    assert(items@ =~= seq![(s@[i as int], s@[i as int])] + rest@);
                }
                Some((items, j))
            },
            None => None,
        }
    }
}

proof fn lemma_toks_model_cons(t: Token, ts: Seq<Token>)
    ensures
        toks_model(seq![t] + ts) == seq![token_model(t)] + toks_model(ts),
{
    assert(toks_model(seq![t] + ts) =~= seq![token_model(t)] + toks_model(ts));
}

proof fn lemma_comps_model_cons(c: Comp, cs: Seq<Comp>)
    ensures
        comps_model(seq![c] + cs) == seq![comp_model(c)] + comps_model(cs),
{
    assert(comps_model(seq![c] + cs) =~= seq![comp_model(c)] + comps_model(cs));
}

/// Parses one pattern component: tokens up to the next `/` or the end.
/// Returns the tokens and the index of the separator or end.
pub open spec fn parse_comp(s: Seq<u8>, i: int) -> Option<(Seq<GlobToken>, int)>
    decreases s.len() - i when 0 <= i <= s.len()
{
    if i >= s.len() || s[i] == SLASH {
        Some((Seq::empty(), i))
    } else if s[i] == STAR {
        let k = star_run(s, i);
        if 1 <= k && i + k <= s.len() {
            match parse_comp(s, i + k) {
                Some((ts, j)) => Some((seq![GlobToken::Star] + ts, j)),
                None => None,
            }
        } else {
            None
        }
    } else if s[i] == QMARK {
        match parse_comp(s, i + 1) {
            Some((ts, j)) => Some((seq![GlobToken::Any] + ts, j)),
            None => None,
        }
    } else if s[i] == BSLASH {
        if i + 1 < s.len() {
            match parse_comp(s, i + 2) {
                Some((ts, j)) => Some((seq![GlobToken::Lit(s[i + 1])] + ts, j)),
                None => None,
            }
        } else {
            None
        }
    } else if s[i] == LBRACK {
        let start = if i + 1 < s.len() && (s[i + 1] == BANG || s[i + 1] == CARET) {
            i + 2
        } else {
            i + 1
        };
        let neg = start == i + 2;
        match parse_class_items(s, start) {
            Some((items, j)) => if i < j && j <= s.len() {
                match parse_comp(s, j) {
                    Some((ts, j2)) => Some(
                        (seq![GlobToken::Class { neg, ranges: items }] + ts, j2),
                    ),
                    None => None,
                }
            } else {
                None
            },
            None => None,
        }
    } else {
        match parse_comp(s, i + 1) {
            Some((ts, j)) => Some((seq![GlobToken::Lit(s[i])] + ts, j)),
            None => None,
        }
    }
}

fn parse_comp_x(s: &Vec<u8>, i: usize) -> (r: Option<(Vec<Token>, usize)>)
    requires
        i <= s.len(),
    ensures
        match r {
            Some((ts, j)) => parse_comp(s@, i as int) == Some((toks_model(ts@), j as int)) && i
                <= j <= s.len() && (j < s.len() ==> s@[j as int] == SLASH),
            None => parse_comp(s@, i as int) is None,
        },
    decreases s.len() - i,
{
    if i >= s.len() || s[i] == SLASH {
        let ts: Vec<Token> = Vec::new();
        proof {
            assert(toks_model(ts@) =~= Seq::<GlobToken>::empty());
        }
        Some((ts, i))
    } else if s[i] == STAR {
        let k = star_run_x(s, i);
        match parse_comp_x(s, i + k) {
            Some((rest, j)) => {
                let mut ts: Vec<Token> = vec![Token::Star];
                let mut tail = rest;
                ts.append(&mut tail);
                proof {
                    assert(ts@ =~= seq![Token::Star] + rest@);
                    lemma_toks_model_cons(Token::Star, rest@);
                }
                Some((ts, j))
            },
            None => None,
        }
    } else if s[i] == QMARK {
        match parse_comp_x(s, i + 1) {
            Some((rest, j)) => {
                let mut ts: Vec<Token> = vec![Token::Any];
                let mut tail = rest;
                ts.append(&mut tail);
                proof {
                    assert(ts@ =~= seq![Token::Any] + rest@);
                    lemma_toks_model_cons(Token::Any, rest@);
                }
                Some((ts, j))
            },
            None => None,
        }
    } else if s[i] == BSLASH {
        if i + 1 < s.len() {
            let lit = s[i + 1];
            match parse_comp_x(s, i + 2) {
                Some((rest, j)) => {
                    let mut ts: Vec<Token> = vec![Token::Lit(lit)];
                    let mut tail = rest;
                    ts.append(&mut tail);
                    proof {
                        assert(ts@ =~= seq![Token::Lit(lit)] + rest@);
                        lemma_toks_model_cons(Token::Lit(lit), rest@);
                    }
                    Some((ts, j))
                },
                None => None,
            }
        } else {
            None
        }
    } else if s[i] == LBRACK {
        let start = if i + 1 < s.len() && (s[i + 1] == BANG || s[i + 1] == CARET) {
            i + 2
        } else {
            i + 1
        };
        let neg = start - i == 2;
        match parse_class_items_x(s, start) {
            Some((items, j)) => {
                match parse_comp_x(s, j) {
                    Some((rest, j2)) => {
                        let tok = Token::Class { neg, ranges: items };
                        let ghost tok_m = token_model(tok);
                        let mut ts: Vec<Token> = vec![tok];
                        let mut tail = rest;
                        ts.append(&mut tail);
                        proof {
                            assert(ts@ =~= seq![ts@[0]] + rest@);
                            lemma_toks_model_cons(ts@[0], rest@);
                            assert(token_model(ts@[0]) == tok_m);
                        }
                        Some((ts, j2))
                    },
                    None => None,
                }
            },
            None => None,
        }
    } else {
        let lit = s[i];
        match parse_comp_x(s, i + 1) {
            Some((rest, j)) => {
                let mut ts: Vec<Token> = vec![Token::Lit(lit)];
                let mut tail = rest;
                ts.append(&mut tail);
                proof {
                    assert(ts@ =~= seq![Token::Lit(lit)] + rest@);
                    lemma_toks_model_cons(Token::Lit(lit), rest@);
                }
                Some((ts, j))
            },
            None => None,
        }
    }
}

/// Parses a whole pattern body into components, splitting at `/`.
pub open spec fn parse_comps(s: Seq<u8>, i: int) -> Option<Seq<GlobComp>>
    decreases s.len() - i when 0 <= i <= s.len()
{
    match parse_comp(s, i) {
        None => None,
        Some((ts, j)) => {
            let comp = if j == i + 2 && i + 1 < s.len() && s[i] == STAR && s[i + 1] == STAR {
                GlobComp::AnyDirs
            } else {
                GlobComp::Glob(ts)
            };
            if j >= s.len() {
                Some(seq![comp])
            } else if i < j + 1 && j + 1 <= s.len() {
                match parse_comps(s, j + 1) {
                    Some(rest) => Some(seq![comp] + rest),
                    None => None,
                }
            } else {
                None
            }
        },
    }
}

pub fn parse_comps_x(s: &Vec<u8>, i: usize) -> (r: Option<Vec<Comp>>)
    requires
        i <= s.len(),
    ensures
        match r {
            Some(cs) => parse_comps(s@, i as int) == Some(comps_model(cs@)),
            None => parse_comps(s@, i as int) is None,
        },
    decreases s.len() - i,
{
    match parse_comp_x(s, i) {
        None => None,
        Some((ts, j)) => {
            let any_dirs = j - i == 2 && i + 1 < s.len() && s[i] == STAR && s[i + 1] == STAR;
            let comp = if any_dirs {
                Comp::AnyDirs
            } else {
                Comp::Glob(ts)
            };
            let ghost comp_m = comp_model(comp);
            if j >= s.len() {
                let cs: Vec<Comp> = vec![comp];
                proof {
                    assert(comps_model(cs@) =~= seq![comp_m]);
                }
                Some(cs)
            } else {
                match parse_comps_x(s, j + 1) {
                    Some(rest) => {
                        let mut cs: Vec<Comp> = vec![comp];
                        let mut tail = rest;
                        cs.append(&mut tail);
                        proof {
                            assert(cs@ =~= seq![cs@[0]] + rest@);
                            lemma_comps_model_cons(cs@[0], rest@);
                            assert(comp_model(cs@[0]) == comp_m);
                        }
                        Some(cs)
                    },
                    None => None,
                }
            }
        },
    }
}

} // verus!
