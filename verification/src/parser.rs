//! The template parser: a hand-written recursive-descent grammar over the
//! template surface `{{ … }}`, `{% … %}`, `{# … #}` interleaved with literal
//! text, and the expression sub-language with its precedence layers.
//!
//! Every parsing function takes the source as `t` and a start offset `pos`,
//! and on success returns the offset just past what it consumed.
use vstd::prelude::*;

verus! {

use crate::ast::{
    Cond,
    Expr,
    Macro,
    MatchParameter,
    MatchVariant,
    Node,
    Target,
    When,
    WS,
};
use crate::errors::{ParseError, PFail};
use crate::text::{chars_of, copy_range, is_ws, is_ws_char, ws_only};

/// A directive closer ends at `j`: `#}`, `}}` or `%}` starting there.
pub open spec fn closer_at(s: Seq<char>, j: int) -> bool {
    &&& 0 <= j
    &&& j + 1 < s.len()
    &&& ((s[j] == '#' && s[j + 1] == '}') || (s[j] == '}' && s[j + 1] == '}') || (s[j] == '%'
        && s[j + 1] == '}'))
}

/// A directive opens at `i`: `{` followed by `{`, `%` or `#`.
pub open spec fn starts_dir(s: Seq<char>, i: int) -> bool {
    &&& 0 <= i
    &&& i + 1 < s.len()
    &&& s[i] == '{'
    &&& (s[i + 1] == '{' || s[i + 1] == '%' || s[i + 1] == '#')
}

/// First character of an identifier: alphabetic ASCII or underscore.
pub open spec fn is_ident_start(c: char) -> bool {
    ('a' <= c && c <= 'z') || ('A' <= c && c <= 'Z') || c == '_'
}

/// Continuation character of an identifier: alphanumeric ASCII or underscore.
pub open spec fn is_ident_char(c: char) -> bool {
    is_ident_start(c) || is_digit(c)
}

/// A decimal digit.
pub open spec fn is_digit(c: char) -> bool {
    '0' <= c && c <= '9'
}

/// Executable test matching `is_ident_start`.
fn ident_start(c: char) -> (r: bool)
    ensures
        r == is_ident_start(c),
{
    ('a' <= c && c <= 'z') || ('A' <= c && c <= 'Z') || c == '_'
}

/// Executable test matching `is_ident_char`.
fn ident_char(c: char) -> (r: bool)
    ensures
        r == is_ident_char(c),
{
    ident_start(c) || digit_char(c)
}

/// Executable test matching `is_digit`.
fn digit_char(c: char) -> (r: bool)
    ensures
        r == is_digit(c),
{
    '0' <= c && c <= '9'
}

/// The result of splitting text into leading whitespace, body and trailing
/// whitespace: the three parts concatenate back to the text, the outer parts
/// are all whitespace, the body begins and ends with non-whitespace, and
/// all-whitespace text goes entirely into the leading part.
pub open spec fn lit_parts(n: Node, s: Seq<char>) -> bool {
    n matches Node::Lit(l, b, r) && {
        &&& l@ + b@ + r@ == s
        &&& ws_only(l@)
        &&& ws_only(r@)
        &&& b@.len() > 0 ==> (!is_ws_char(b@[0]) && !is_ws_char(b@[b@.len() - 1]))
        &&& ws_only(s) ==> (l@ == s && b@.len() == 0 && r@.len() == 0)
    }
}

/// A literal node's text stands verbatim in the given source region; any
/// other node satisfies this trivially.
pub open spec fn lit_sourced(n: Node, region: Seq<char>) -> bool {
    match n {
        Node::Lit(l, b, r) => crate::text::contains_seq(region, l@ + b@ + r@),
        _ => true,
    }
}

/// Splits a literal chunk into its leading whitespace run, its body, and its
/// trailing whitespace run.
pub fn split_ws_parts(s: &Vec<char>) -> (r: Node)
    ensures
        lit_parts(r, s@),
{
    let mut start: usize = 0;
    while start < s.len() && is_ws(s[start])
        invariant
            start <= s.len(),
            forall|j: int| 0 <= j < start ==> is_ws_char(#[trigger] s@[j]),
        decreases s.len() - start,
    {
        start = start + 1;
    }
    if start == s.len() {
        let l = copy_range(s, 0, s.len());
        let b: Vec<char> = Vec::new();
        let r: Vec<char> = Vec::new();
        proof {
            assert(l@ =~= s@);
            assert(l@ + b@ + r@ =~= s@);
        }
        return Node::Lit(l, b, r);
    }
    let mut end: usize = s.len();
    while end > start && is_ws(s[end - 1])
        invariant
            start <= end <= s.len(),
            forall|j: int| end <= j < s.len() ==> is_ws_char(#[trigger] s@[j]),
        decreases end,
    {
        end = end - 1;
    }
    proof {
        assert(!is_ws_char(s@[start as int]));
        assert(end > start);
        assert(!is_ws_char(s@[end - 1]));
    }
    let l = copy_range(s, 0, start);
    let b = copy_range(s, start, end);
    let r = copy_range(s, end, s.len());
    proof {
        assert(l@ + b@ + r@ =~= s@);
        assert(!ws_only(s@));
        assert(b@[0] == s@[start as int]);
        assert(b@[b@.len() - 1] == s@[end - 1]);
    }
    Node::Lit(l, b, r)
}

/// Takes literal content up to the first directive opener; fails exactly when
/// a directive opens at `pos` itself. The literal node's parts concatenate to
/// exactly the consumed text.
pub fn take_content(t: &Vec<char>, pos: usize) -> (r: Result<(usize, Node), PFail>)
    requires
        pos <= t.len(),
    ensures
        r matches Ok(v) ==> {
            &&& pos <= v.0 <= t@.len()
            &&& (v.0 == t@.len() || starts_dir(t@, v.0 as int))
            &&& (forall|i: int| pos <= i < v.0 ==> !starts_dir(t@, i))
            &&& (pos < t@.len() ==> v.0 > pos)
            &&& lit_parts(v.1, t@.subrange(pos as int, v.0 as int))
        },
        r is Err <==> (pos < t@.len() && starts_dir(t@, pos as int)),
        r matches Err(e) ==> e == PFail::Soft,
{
    let mut i: usize = pos;
    loop
        invariant
            pos <= i <= t.len(),
            forall|j: int| pos <= j < i ==> !starts_dir(t@, j),
        decreases t.len() - i,
    {
        if t.len() - i <= 1 {
            proof {
                assert(forall|j: int| pos <= j < t@.len() ==> !starts_dir(t@, j));
            }
            if pos == t.len() {
                let chunk = copy_range(t, pos, t.len());
                return Ok((t.len(), split_ws_parts(&chunk)));
            }
            let chunk = copy_range(t, pos, t.len());
            return Ok((t.len(), split_ws_parts(&chunk)));
        }
        if t[i] == '{' && (t[i + 1] == '{' || t[i + 1] == '%' || t[i + 1] == '#') {
            proof {
                assert(starts_dir(t@, i as int));
            }
            if i == pos {
                return Err(PFail::Soft);
            }
            let chunk = copy_range(t, pos, i);
            return Ok((i, split_ws_parts(&chunk)));
        }
        i = i + 1;
    }
}

/// Skips template whitespace; never fails.
pub fn skip_ws(t: &Vec<char>, pos: usize) -> (p: usize)
    requires
        pos <= t.len(),
    ensures
        pos <= p <= t@.len(),
        forall|j: int| pos <= j < p ==> is_ws_char(#[trigger] t@[j]),
        p < t@.len() ==> !is_ws_char(t@[p as int]),
{
    let mut i: usize = pos;
    while i < t.len() && is_ws(t[i])
        invariant
            pos <= i <= t.len(),
            forall|j: int| pos <= j < i ==> is_ws_char(#[trigger] t@[j]),
        decreases t.len() - i,
    {
        i = i + 1;
    }
    i
}

/// Matches the fixed text `pat` at `pos`; fails softly exactly when `pat` is
/// not there.
pub fn tag(t: &Vec<char>, pos: usize, pat: &str) -> (r: Result<usize, PFail>)
    requires
        pos <= t.len(),
    ensures
        r matches Ok(p) ==> pos + pat@.len() == p && p <= t@.len() && t@.subrange(
            pos as int,
            p as int,
        ) == pat@,
        r is Err ==> !(pos + pat@.len() <= t@.len() && t@.subrange(
            pos as int,
            pos + pat@.len(),
        ) == pat@),
        r matches Err(e) ==> e == PFail::Soft,
{
    let pv = chars_of(pat);
    if t.len() - pos < pv.len() {
        return Err(PFail::Soft);
    }
    let mut j: usize = 0;
    while j < pv.len()
        invariant
            j <= pv.len(),
            pos + pv.len() <= t.len(),
            pv@ == pat@,
            forall|k: int| 0 <= k < j ==> t@[pos + k] == pv@[k],
        decreases pv.len() - j,
    {
        if t[pos + j] != pv[j] {
            proof {
                assert(t@.subrange(pos as int, pos + pat@.len())[j as int] == t@[pos + j]);
            }
            return Err(PFail::Soft);
        }
        j = j + 1;
    }
    proof {
        assert(t@.subrange(pos as int, pos + pat@.len()) =~= pat@);
    }
    Ok(pos + pv.len())
}

/// Matches the given text at `pos`, as `tag` does.
pub fn tag_chars(t: &Vec<char>, pos: usize, pat: &Vec<char>) -> (r: Result<usize, PFail>)
    requires
        pos <= t.len(),
    ensures
        r matches Ok(p) ==> pos + pat@.len() == p && p <= t@.len() && t@.subrange(
            pos as int,
            p as int,
        ) == pat@,
        r is Err ==> !(pos + pat@.len() <= t@.len() && t@.subrange(
            pos as int,
            pos + pat@.len(),
        ) == pat@),
        r matches Err(e) ==> e == PFail::Soft,
{
    if t.len() - pos < pat.len() {
        return Err(PFail::Soft);
    }
    let mut j: usize = 0;
    while j < pat.len()
        invariant
            j <= pat.len(),
            pos + pat.len() <= t.len(),
            forall|k: int| 0 <= k < j ==> t@[pos + k] == pat@[k],
        decreases pat.len() - j,
    {
        if t[pos + j] != pat[j] {
            proof {
                assert(t@.subrange(pos as int, pos + pat@.len())[j as int] == t@[pos + j]);
            }
            return Err(PFail::Soft);
        }
        j = j + 1;
    }
    proof {
        assert(t@.subrange(pos as int, pos + pat@.len()) =~= pat@);
    }
    Ok(pos + pat.len())
}

/// Consumes one optional `-` whitespace sigil.
pub fn opt_dash(t: &Vec<char>, pos: usize) -> (r: (usize, bool))
    requires
        pos <= t.len(),
    ensures
        r.1 ==> pos < t@.len() && t@[pos as int] == '-' && r.0 == pos + 1,
        !r.1 ==> r.0 == pos && (pos == t@.len() || t@[pos as int] != '-'),
{
    if pos < t.len() && t[pos] == '-' {
        (pos + 1, true)
    } else {
        (pos, false)
    }
}

/// An identifier: an alphabetic or underscore start, then the greedy run of
/// alphanumerics and underscores. Fails softly exactly when no identifier
/// starts at `pos`.
pub fn identifier(t: &Vec<char>, pos: usize) -> (r: Result<(usize, Vec<char>), PFail>)
    requires
        pos <= t.len(),
    ensures
        r matches Ok(v) ==> {
            &&& pos < v.0 <= t@.len()
            &&& v.1@ == t@.subrange(pos as int, v.0 as int)
            &&& is_ident_start(t@[pos as int])
            &&& (forall|j: int| pos < j < v.0 ==> is_ident_char(#[trigger] t@[j]))
            &&& (v.0 == t@.len() || !is_ident_char(t@[v.0 as int]))
        },
        r is Err <==> (pos == t@.len() || !is_ident_start(t@[pos as int])),
        r matches Err(e) ==> e == PFail::Soft,
{
    if pos == t.len() || !ident_start(t[pos]) {
        return Err(PFail::Soft);
    }
    let mut i: usize = pos + 1;
    while i < t.len() && ident_char(t[i])
        invariant
            pos < i <= t.len(),
            forall|j: int| pos < j < i ==> is_ident_char(#[trigger] t@[j]),
        decreases t.len() - i,
    {
        i = i + 1;
    }
    Ok((i, copy_range(t, pos, i)))
}

/// A number literal: the greedy run of one or more decimal digits. Fails
/// softly exactly when no digit stands at `pos`.
pub fn num_lit(t: &Vec<char>, pos: usize) -> (r: Result<(usize, Vec<char>), PFail>)
    requires
        pos <= t.len(),
    ensures
        r matches Ok(v) ==> {
            &&& pos < v.0 <= t@.len()
            &&& v.1@ == t@.subrange(pos as int, v.0 as int)
            &&& (forall|j: int| pos <= j < v.0 ==> is_digit(#[trigger] t@[j]))
            &&& (v.0 == t@.len() || !is_digit(t@[v.0 as int]))
        },
        r is Err <==> (pos == t@.len() || !is_digit(t@[pos as int])),
        r matches Err(e) ==> e == PFail::Soft,
{
    if pos == t.len() || !digit_char(t[pos]) {
        return Err(PFail::Soft);
    }
    let mut i: usize = pos + 1;
    while i < t.len() && digit_char(t[i])
        invariant
            pos < i <= t.len(),
            forall|j: int| pos <= j < i ==> is_digit(#[trigger] t@[j]),
        decreases t.len() - i,
    {
        i = i + 1;
    }
    Ok((i, copy_range(t, pos, i)))
}

/// A string literal: `"` then everything up to the next `"`. Escape
/// sequences are not interpreted; the raw slice between the quotes is kept.
/// Fails softly when no `"` stands at `pos` or no closing `"` follows.
pub fn str_lit(t: &Vec<char>, pos: usize) -> (r: Result<(usize, Vec<char>), PFail>)
    requires
        pos <= t.len(),
    ensures
        r matches Ok(v) ==> {
            &&& pos + 2 <= v.0 <= t@.len()
            &&& t@[pos as int] == '"'
            &&& t@[v.0 - 1] == '"'
            &&& v.1@ == t@.subrange(pos + 1, v.0 - 1)
            &&& (forall|j: int| pos < j < v.0 - 1 ==> t@[j] != '"')
        },
        r is Err ==> (pos == t@.len() || t@[pos as int] != '"' || (forall|j: int|
            pos < j < t@.len() ==> t@[j] != '"')),
        r matches Err(e) ==> e == PFail::Soft,
{
    if pos == t.len() || t[pos] != '"' {
        return Err(PFail::Soft);
    }
    let mut i: usize = pos + 1;
    while i < t.len() && t[i] != '"'
        invariant
            pos < i <= t.len(),
            forall|j: int| pos < j < i ==> t@[j] != '"',
        decreases t.len() - i,
    {
        i = i + 1;
    }
    if i == t.len() {
        return Err(PFail::Soft);
    }
    Ok((i + 1, copy_range(t, pos + 1, i)))
}

/// A parenthesised, comma-separated, possibly empty argument list, with
/// whitespace allowed around the arguments.
fn arguments(t: &Vec<char>, pos: usize) -> (r: Result<(usize, Vec<Expr>), PFail>)
    requires
        pos <= t.len(),
    ensures
        r matches Ok(v) ==> pos < v.0 <= t@.len(),
    decreases t@.len() - pos, 20int,
{
    proof {
        reveal_strlit("(");
    }
    let p = match tag(t, pos, "(") {
        Ok(p) => p,
        Err(e) => {
            return Err(e);
        },
    };
    let mut args: Vec<Expr> = Vec::new();
    let q = skip_ws(t, p);
    match expr_any(t, q) {
        Err(PFail::Fatal(f)) => {
            return Err(PFail::Fatal(f));
        },
        Err(PFail::Soft) => {
            // no first argument: the closing parenthesis must stand right
            // after the opening one
            match tag(t, p, ")") {
                Ok(p2) => {
                    return Ok((p2, args));
                },
                Err(e) => {
                    return Err(e);
                },
            }
        },
        Ok((p1, arg0)) => {
            args.push(arg0);
            let mut cur: usize = skip_ws(t, p1);
            loop
                invariant
                    pos < cur <= t@.len(),
                decreases t@.len() - cur,
            {
                match tag(t, cur, ",") {
                    Err(_) => {
                        break ;
                    },
                    Ok(c1) => {
                        let c2 = skip_ws(t, c1);
                        match expr_any(t, c2) {
                            Err(PFail::Fatal(f)) => {
                                return Err(PFail::Fatal(f));
                            },
                            Err(PFail::Soft) => {
                                return Err(PFail::Soft);
                            },
                            Ok((c3, argn)) => {
                                args.push(argn);
                                cur = skip_ws(t, c3);
                            },
                        }
                    },
                }
            }
            match tag(t, cur, ")") {
                Ok(p2) => Ok((p2, args)),
                Err(e) => Err(e),
            }
        },
    }
}

/// A parenthesised, comma-separated, possibly empty list of identifiers.
fn parameters(t: &Vec<char>, pos: usize) -> (r: Result<(usize, Vec<Vec<char>>), PFail>)
    requires
        pos <= t.len(),
    ensures
        r matches Ok(v) ==> pos < v.0 <= t@.len(),
{
    proof {
        reveal_strlit("(");
    }
    let p = match tag(t, pos, "(") {
        Ok(p) => p,
        Err(e) => {
            return Err(e);
        },
    };
    let mut vals: Vec<Vec<char>> = Vec::new();
    let q = skip_ws(t, p);
    match identifier(t, q) {
        Err(_) => {
            // no first parameter: the closing parenthesis must stand right
            // after the opening one
            match tag(t, p, ")") {
                Ok(p2) => Ok((p2, vals)),
                Err(e) => Err(e),
            }
        },
        Ok((p1, arg0)) => {
            vals.push(arg0);
            let mut cur: usize = skip_ws(t, p1);
            loop
                invariant
                    pos < cur <= t@.len(),
                decreases t@.len() - cur,
            {
                match tag(t, cur, ",") {
                    Err(_) => {
                        break ;
                    },
                    Ok(c1) => {
                        let c2 = skip_ws(t, c1);
                        match identifier(t, c2) {
                            Err(e) => {
                                return Err(e);
                            },
                            Ok((c3, argn)) => {
                                vals.push(argn);
                                cur = skip_ws(t, c3);
                            },
                        }
                    },
                }
            }
            match tag(t, cur, ")") {
                Ok(p2) => Ok((p2, vals)),
                Err(e) => Err(e),
            }
        },
    }
}

/// One match parameter: a name, a number literal or a non-empty string
/// literal, tried in that order.
fn match_parameter(t: &Vec<char>, pos: usize) -> (r: Result<(usize, MatchParameter), PFail>)
    requires
        pos <= t.len(),
    ensures
        r matches Ok(v) ==> pos < v.0 <= t@.len(),
{
    match identifier(t, pos) {
        Ok((p, name)) => {
            return Ok((p, MatchParameter::Name(name)));
        },
        Err(_) => {},
    }
    match num_lit(t, pos) {
        Ok((p, s)) => {
            return Ok((p, MatchParameter::NumLit(s)));
        },
        Err(_) => {},
    }
    match str_lit(t, pos) {
        Ok((p, s)) => {
            if s.len() == 0 {
                Err(PFail::Soft)
            } else {
                Ok((p, MatchParameter::StrLit(s)))
            }
        },
        Err(e) => Err(e),
    }
}

/// One match variant head: a path, a name, a number literal or a non-empty
/// string literal, tried in that order.
fn match_variant(t: &Vec<char>, pos: usize) -> (r: Result<(usize, MatchVariant), PFail>)
    requires
        pos <= t.len(),
    ensures
        r matches Ok(v) ==> pos < v.0 <= t@.len(),
{
    match identifier(t, pos) {
        Ok((p, name)) => {
            let (p2, rest) = path_rest(t, p);
            if rest.len() > 0 {
                let mut segs: Vec<Vec<char>> = Vec::new();
                segs.push(name);
                let mut more = rest;
                segs.append(&mut more);
                return Ok((p2, MatchVariant::Path(segs)));
            }
            return Ok((p, MatchVariant::Name(name)));
        },
        Err(_) => {},
    }
    match num_lit(t, pos) {
        Ok((p, s)) => {
            return Ok((p, MatchVariant::NumLit(s)));
        },
        Err(_) => {},
    }
    match str_lit(t, pos) {
        Ok((p, s)) => {
            if s.len() == 0 {
                Err(PFail::Soft)
            } else {
                Ok((p, MatchVariant::StrLit(s)))
            }
        },
        Err(e) => Err(e),
    }
}

/// The greedy run of `::`-separated identifier segments continuing a path;
/// may be empty.
fn path_rest(t: &Vec<char>, pos: usize) -> (r: (usize, Vec<Vec<char>>))
    requires
        pos <= t.len(),
    ensures
        pos <= r.0 <= t@.len(),
        r.1@.len() > 0 ==> pos < r.0,
{
    let mut segs: Vec<Vec<char>> = Vec::new();
    let mut cur: usize = pos;
    loop
        invariant
            pos <= cur <= t@.len(),
            segs@.len() > 0 ==> pos < cur,
        decreases t@.len() - cur,
    {
        match tag(t, cur, "::") {
            Err(_) => {
                break ;
            },
            Ok(c1) => {
                match identifier(t, c1) {
                    Err(_) => {
                        break ;
                    },
                    Ok((c2, seg)) => {
                        segs.push(seg);
                        cur = c2;
                    },
                }
            },
        }
    }
    (cur, segs)
}

/// A primary expression: number, string, path, array, variable or
/// parenthesised group, tried in that order.
fn expr_single(t: &Vec<char>, pos: usize) -> (r: Result<(usize, Expr), PFail>)
    requires
        pos <= t.len(),
    ensures
        r matches Ok(v) ==> pos < v.0 <= t@.len(),
    decreases t@.len() - pos, 2int,
{
    match num_lit(t, pos) {
        Ok((p, s)) => {
            return Ok((p, Expr::NumLit(s)));
        },
        Err(_) => {},
    }
    match str_lit(t, pos) {
        Ok((p, s)) => {
            return Ok((p, Expr::StrLit(s)));
        },
        Err(_) => {},
    }
    match identifier(t, pos) {
        Ok((p, name)) => {
            let (p2, rest) = path_rest(t, p);
            if rest.len() > 0 {
                let mut segs: Vec<Vec<char>> = Vec::new();
                segs.push(name);
                let mut more = rest;
                segs.append(&mut more);
                return Ok((p2, Expr::Path(segs)));
            }
            return Ok((p, Expr::Var(name)));
        },
        Err(_) => {},
    }
    match expr_array_lit(t, pos) {
        Ok((p, e)) => {
            return Ok((p, e));
        },
        Err(PFail::Fatal(f)) => {
            return Err(PFail::Fatal(f));
        },
        Err(PFail::Soft) => {},
    }
    expr_group(t, pos)
}

/// An array literal `[e, …]`, with whitespace allowed around the brackets and
/// the commas.
fn expr_array_lit(t: &Vec<char>, pos: usize) -> (r: Result<(usize, Expr), PFail>)
    requires
        pos <= t.len(),
    ensures
        r matches Ok(v) ==> pos < v.0 <= t@.len(),
    decreases t@.len() - pos, 1int,
{
    proof {
        reveal_strlit("[");
    }
    let q0 = skip_ws(t, pos);
    let p = match tag(t, q0, "[") {
        Ok(p) => p,
        Err(e) => {
            return Err(e);
        },
    };
    let q = skip_ws(t, p);
    let (p1, first) = match expr_any(t, q) {
        Ok(v) => v,
        Err(e) => {
            return Err(e);
        },
    };
    let mut elements: Vec<Expr> = Vec::new();
    elements.push(first);
    let mut cur: usize = p1;
    loop
        invariant
            pos < cur <= t@.len(),
        decreases t@.len() - cur,
    {
        let c0 = skip_ws(t, cur);
        match tag(t, c0, ",") {
            Err(_) => {
                break ;
            },
            Ok(c1) => {
                let c2 = skip_ws(t, c1);
                match expr_any(t, c2) {
                    Err(e) => {
                        return Err(e);
                    },
                    Ok((c3, part)) => {
                        elements.push(part);
                        cur = c3;
                    },
                }
            },
        }
    }
    let c4 = skip_ws(t, cur);
    let p2 = match tag(t, c4, "]") {
        Ok(p2) => p2,
        Err(e) => {
            return Err(e);
        },
    };
    let p3 = skip_ws(t, p2);
    Ok((p3, Expr::Array(elements)))
}

/// A parenthesised group `(e)`, with no whitespace allowed inside the
/// parentheses beyond what the expression grammar itself takes.
fn expr_group(t: &Vec<char>, pos: usize) -> (r: Result<(usize, Expr), PFail>)
    requires
        pos <= t.len(),
    ensures
        r matches Ok(v) ==> pos < v.0 <= t@.len(),
    decreases t@.len() - pos, 1int,
{
    proof {
        reveal_strlit("(");
    }
    let p = match tag(t, pos, "(") {
        Ok(p) => p,
        Err(e) => {
            return Err(e);
        },
    };
    let (p1, inner) = match expr_any(t, p) {
        Ok(v) => v,
        Err(e) => {
            return Err(e);
        },
    };
    match tag(t, p1, ")") {
        Ok(p2) => Ok((p2, Expr::Group(Box::new(inner)))),
        Err(e) => Err(e),
    }
}

/// The attribute and method chain `obj.name`, `obj.0`, `obj.m(args)`.
fn expr_attr(t: &Vec<char>, pos: usize) -> (r: Result<(usize, Expr), PFail>)
    requires
        pos <= t.len(),
    ensures
        r matches Ok(v) ==> pos < v.0 <= t@.len(),
    decreases t@.len() - pos, 3int,
{
    let (mut cur, mut res) = match expr_single(t, pos) {
        Ok(v) => v,
        Err(e) => {
            return Err(e);
        },
    };
    loop
        invariant
            pos < cur <= t@.len(),
        decreases t@.len() - cur,
    {
        match tag(t, cur, ".") {
            Err(_) => {
                break ;
            },
            Ok(c1) => {
                let (c2, aname) = match num_lit(t, c1) {
                    Ok(v) => v,
                    Err(_) => {
                        match identifier(t, c1) {
                            Ok(v) => v,
                            Err(_) => {
                                break ;
                            },
                        }
                    },
                };
                match arguments(t, c2) {
                    Ok((c3, args)) => {
                        res = Expr::MethodCall(Box::new(res), aname, args);
                        cur = c3;
                    },
                    Err(PFail::Fatal(f)) => {
                        return Err(PFail::Fatal(f));
                    },
                    Err(PFail::Soft) => {
                        res = Expr::Attr(Box::new(res), aname);
                        cur = c2;
                    },
                }
            },
        }
    }
    Ok((cur, res))
}

/// The filter chain `expr | name` or `expr | name(args)`; each stage becomes
/// a `Filter` whose subject is its first argument.
fn expr_filtered(t: &Vec<char>, pos: usize) -> (r: Result<(usize, Expr), PFail>)
    requires
        pos <= t.len(),
    ensures
        r matches Ok(v) ==> pos < v.0 <= t@.len(),
    decreases t@.len() - pos, 4int,
{
    let (mut cur, mut res) = match expr_attr(t, pos) {
        Ok(v) => v,
        Err(e) => {
            return Err(e);
        },
    };
    loop
        invariant
            pos < cur <= t@.len(),
        decreases t@.len() - cur,
    {
        match tag(t, cur, "|") {
            Err(_) => {
                break ;
            },
            Ok(c1) => {
                let (c2, fname) = match identifier(t, c1) {
                    Ok(v) => v,
                    Err(_) => {
                        break ;
                    },
                };
                let (c3, mut args) = match arguments(t, c2) {
                    Ok(v) => v,
                    Err(PFail::Fatal(f)) => {
                        return Err(PFail::Fatal(f));
                    },
                    Err(PFail::Soft) => (c2, Vec::new()),
                };
                let mut all: Vec<Expr> = Vec::new();
                all.push(res);
                all.append(&mut args);
                res = Expr::Filter(fname, all);
                cur = c3;
            },
        }
    }
    Ok((cur, res))
}

/// A single optional prefix `!` or `-` above the filter chain.
fn expr_unary(t: &Vec<char>, pos: usize) -> (r: Result<(usize, Expr), PFail>)
    requires
        pos <= t.len(),
    ensures
        r matches Ok(v) ==> pos < v.0 <= t@.len(),
    decreases t@.len() - pos, 5int,
{
    let (q, op) = match tag(t, pos, "!") {
        Ok(q) => (q, Some(chars_of("!"))),
        Err(_) => {
            match tag(t, pos, "-") {
                Ok(q) => (q, Some(chars_of("-"))),
                Err(_) => (pos, None),
            }
        },
    };
    match expr_filtered(t, q) {
        Ok((p, inner)) => {
            match op {
                Some(o) => Ok((p, Expr::Unary(o, Box::new(inner)))),
                None => Ok((p, inner)),
            }
        },
        Err(e) => Err(e),
    }
}

/// Tries the binary operators of one precedence level, in order.
fn level_op(t: &Vec<char>, pos: usize, lvl: u8) -> (r: Option<(usize, Vec<char>)>)
    requires
        pos <= t.len(),
        lvl <= 8,
    ensures
        r matches Some(v) ==> pos < v.0 <= t@.len(),
{
    let ops: [&str; 6] = if lvl == 0 {
        ["||", "||", "||", "||", "||", "||"]
    } else if lvl == 1 {
        ["&&", "&&", "&&", "&&", "&&", "&&"]
    } else if lvl == 2 {
        ["==", "!=", ">=", ">", "<=", "<"]
    } else if lvl == 3 {
        ["|", "|", "|", "|", "|", "|"]
    } else if lvl == 4 {
        ["^", "^", "^", "^", "^", "^"]
    } else if lvl == 5 {
        ["&", "&", "&", "&", "&", "&"]
    } else if lvl == 6 {
        [">>", "<<", ">>", "<<", ">>", "<<"]
    } else if lvl == 7 {
        ["+", "-", "+", "-", "+", "-"]
    } else {
        ["*", "/", "%", "*", "/", "%"]
    };
    let mut k: usize = 0;
    while k < 6
        invariant
            pos <= t@.len(),
        decreases 6 - k,
    {
        let op: &str = ops[k];
        match tag(t, pos, op) {
            Ok(p) => {
                if p > pos {
                    return Some((p, chars_of(op)));
                }
            },
            Err(_) => {},
        }
        k = k + 1;
    }
    None
}

/// One precedence level of the binary-operator grammar. Level 0 binds loosest
/// (`||`); level 8 binds tightest (`*`, `/`, `%`), directly above the unary
/// layer. When an operator of the level matches, the right operand is parsed
/// again from the loosest level, so chains associate to the right.
fn expr_layer(t: &Vec<char>, pos: usize, lvl: u8) -> (r: Result<(usize, Expr), PFail>)
    requires
        pos <= t.len(),
        lvl <= 8,
    ensures
        r matches Ok(v) ==> pos < v.0 <= t@.len(),
    decreases t@.len() - pos, 15int - lvl,
{
    let (q, left) = if lvl == 8 {
        match expr_unary(t, pos) {
            Ok(v) => v,
            Err(e) => {
                return Err(e);
            },
        }
    } else {
        match expr_layer(t, pos, lvl + 1) {
            Ok(v) => v,
            Err(e) => {
                return Err(e);
            },
        }
    };
    let q2 = skip_ws(t, q);
    match level_op(t, q2, lvl) {
        None => Ok((q, left)),
        Some((q3, op)) => {
            let q4 = skip_ws(t, q3);
            match expr_layer(t, q4, 0) {
                Ok((p, right)) => Ok((p, Expr::BinOp(op, Box::new(left), Box::new(right)))),
                Err(PFail::Fatal(f)) => Err(PFail::Fatal(f)),
                Err(PFail::Soft) => Ok((q, left)),
            }
        },
    }
}

/// A full expression: the loosest-binding precedence level.
pub fn expr_any(t: &Vec<char>, pos: usize) -> (r: Result<(usize, Expr), PFail>)
    requires
        pos <= t.len(),
    ensures
        r matches Ok(v) ==> pos < v.0 <= t@.len(),
    decreases t@.len() - pos, 16int,
{
    expr_layer(t, pos, 0)
}

/// An expression output directive `{{ … }}`, with optional `-` sigils inside
/// the frame. The consumed text ends with the closing frame.
pub fn expr_node(t: &Vec<char>, pos: usize) -> (r: Result<(usize, Node), PFail>)
    requires
        pos <= t.len(),
    ensures
        r matches Ok(v) ==> pos < v.0 <= t@.len() && t@.subrange(v.0 - 2, v.0 as int) == "}}"@,
        r matches Ok(v) ==> pos + 4 <= v.0,
        r matches Ok(v) ==> v.1 is Expr,
{
    proof {
        reveal_strlit("{{");
        reveal_strlit("}}");
        assert("{{"@.len() == 2);
        assert("}}"@.len() == 2);
    }
    let p = match tag(t, pos, "{{") {
        Ok(p) => p,
        Err(e) => {
            return Err(e);
        },
    };
    let (p0, pws) = opt_dash(t, p);
    let p1 = skip_ws(t, p0);
    let (p2, e) = match expr_any(t, p1) {
        Ok(v) => v,
        Err(e) => {
            return Err(e);
        },
    };
    let p3 = skip_ws(t, p2);
    let (p4, nws) = opt_dash(t, p3);
    match tag(t, p4, "}}") {
        Ok(p5) => Ok((p5, Node::Expr(WS(pws, nws), e))),
        Err(e) => Err(e),
    }
}

/// A comment `{# … #}`; a `-` right after the opening frame, or as the last
/// character of the body, sets the corresponding whitespace sigil. The
/// consumed text ends with the closing frame.
pub fn block_comment(t: &Vec<char>, pos: usize) -> (r: Result<(usize, Node), PFail>)
    requires
        pos <= t.len(),
    ensures
        r matches Ok(v) ==> pos < v.0 <= t@.len() && t@[v.0 - 2] == '#' && t@[v.0 - 1] == '}',
        r matches Ok(v) ==> pos + 2 <= v.0,
        r matches Ok(v) ==> v.1 is Comment,
{
    let p = match tag(t, pos, "{#") {
        Ok(p) => p,
        Err(e) => {
            return Err(e);
        },
    };
    let (p0, pws) = opt_dash(t, p);
    let mut i: usize = p0;
    loop
        invariant
            pos <= p0 <= i <= t@.len(),
        decreases t@.len() - i,
    {
        if t.len() - i < 2 {
            return Err(PFail::Soft);
        }
        if t[i] == '#' && t[i + 1] == '}' {
            let nws = i - p0 > 1 && t[i - 1] == '-';
            return Ok((i + 2, Node::Comment(WS(pws, nws))));
        }
        i = i + 1;
    }
}

/// A `call` statement body: `call name(args)` or `call scope::name(args)`.
fn block_call(t: &Vec<char>, pos: usize) -> (r: Result<(usize, Node), PFail>)
    requires
        pos <= t.len(),
    ensures
        r matches Ok(v) ==> pos <= v.0 <= t@.len(),
        r matches Ok(v) ==> v.1 is Call,
{
    let (p0, pws) = opt_dash(t, pos);
    let p1 = skip_ws(t, p0);
    let p2 = match tag(t, p1, "call") {
        Ok(p) => p,
        Err(e) => {
            return Err(e);
        },
    };
    let p3 = skip_ws(t, p2);
    // optional `scope::` prefix; backtracks entirely when `::` does not follow
    let (p4, scope) = match identifier(t, p3) {
        Ok((q1, scope_name)) => {
            let q2 = skip_ws(t, q1);
            match tag(t, q2, "::") {
                Ok(q3) => (skip_ws(t, q3), Some(scope_name)),
                Err(_) => (p3, None),
            }
        },
        Err(_) => (p3, None),
    };
    let (p5, name) = match identifier(t, p4) {
        Ok(v) => v,
        Err(e) => {
            return Err(e);
        },
    };
    let p6 = skip_ws(t, p5);
    let (p7, args) = match arguments(t, p6) {
        Ok(v) => v,
        Err(e) => {
            return Err(e);
        },
    };
    let p8 = skip_ws(t, p7);
    let (p9, nws) = opt_dash(t, p8);
    Ok((p9, Node::Call(WS(pws, nws), scope, name, args)))
}

/// A `let` statement body: `let x` or `let x = e`.
fn block_let(t: &Vec<char>, pos: usize) -> (r: Result<(usize, Node), PFail>)
    requires
        pos <= t.len(),
    ensures
        r matches Ok(v) ==> pos <= v.0 <= t@.len(),
        r matches Ok(v) ==> (v.1 is Let || v.1 is LetDecl),
{
    let (p0, pws) = opt_dash(t, pos);
    let p1 = skip_ws(t, p0);
    let p2 = match tag(t, p1, "let") {
        Ok(p) => p,
        Err(e) => {
            return Err(e);
        },
    };
    let p3 = skip_ws(t, p2);
    let (p4, name) = match identifier(t, p3) {
        Ok(v) => v,
        Err(e) => {
            return Err(e);
        },
    };
    let p5 = skip_ws(t, p4);
    match tag(t, p5, "=") {
        Ok(q) => {
            let q2 = skip_ws(t, q);
            match expr_any(t, q2) {
                Ok((q3, val)) => {
                    let q4 = skip_ws(t, q3);
                    let (q5, nws) = opt_dash(t, q4);
                    return Ok((q5, Node::Let(WS(pws, nws), Target::Name(name), val)));
                },
                Err(PFail::Fatal(f)) => {
                    return Err(PFail::Fatal(f));
                },
                Err(PFail::Soft) => {},
            }
        },
        Err(_) => {},
    }
    let (p6, nws) = opt_dash(t, p5);
    Ok((p6, Node::LetDecl(WS(pws, nws), Target::Name(name))))
}

/// An `extends` statement body: `extends "path"`. Whitespace sigils are not
/// accepted on this directive.
fn block_extends(t: &Vec<char>, pos: usize) -> (r: Result<(usize, Node), PFail>)
    requires
        pos <= t.len(),
    ensures
        r matches Ok(v) ==> pos <= v.0 <= t@.len(),
        r matches Ok(v) ==> v.1 is Extends,
{
    let p1 = skip_ws(t, pos);
    let p2 = match tag(t, p1, "extends") {
        Ok(p) => p,
        Err(e) => {
            return Err(e);
        },
    };
    let p3 = skip_ws(t, p2);
    let (p4, s) = match str_lit(t, p3) {
        Ok(v) => v,
        Err(e) => {
            return Err(e);
        },
    };
    let p5 = skip_ws(t, p4);
    Ok((p5, Node::Extends(Expr::StrLit(s))))
}

/// An `include` statement body: `include "path"`.
fn block_include(t: &Vec<char>, pos: usize) -> (r: Result<(usize, Node), PFail>)
    requires
        pos <= t.len(),
    ensures
        r matches Ok(v) ==> pos <= v.0 <= t@.len(),
        r matches Ok(v) ==> v.1 is Include,
{
    let (p0, pws) = opt_dash(t, pos);
    let p1 = skip_ws(t, p0);
    let p2 = match tag(t, p1, "include") {
        Ok(p) => p,
        Err(e) => {
            return Err(e);
        },
    };
    let p3 = skip_ws(t, p2);
    let (p4, s) = match str_lit(t, p3) {
        Ok(v) => v,
        Err(e) => {
            return Err(e);
        },
    };
    let p5 = skip_ws(t, p4);
    let (p6, nws) = opt_dash(t, p5);
    Ok((p6, Node::Include(WS(pws, nws), s)))
}

/// An `import` statement body: `import "path" as scope`.
fn block_import(t: &Vec<char>, pos: usize) -> (r: Result<(usize, Node), PFail>)
    requires
        pos <= t.len(),
    ensures
        r matches Ok(v) ==> pos <= v.0 <= t@.len(),
        r matches Ok(v) ==> v.1 is Import,
{
    let (p0, pws) = opt_dash(t, pos);
    let p1 = skip_ws(t, p0);
    let p2 = match tag(t, p1, "import") {
        Ok(p) => p,
        Err(e) => {
            return Err(e);
        },
    };
    let p3 = skip_ws(t, p2);
    let (p4, path) = match str_lit(t, p3) {
        Ok(v) => v,
        Err(e) => {
            return Err(e);
        },
    };
    let p5 = skip_ws(t, p4);
    let p6 = match tag(t, p5, "as") {
        Ok(p) => p,
        Err(e) => {
            return Err(e);
        },
    };
    let p7 = skip_ws(t, p6);
    let (p8, scope) = match identifier(t, p7) {
        Ok(v) => v,
        Err(e) => {
            return Err(e);
        },
    };
    let p9 = skip_ws(t, p8);
    let (p10, nws) = opt_dash(t, p9);
    Ok((p10, Node::Import(WS(pws, nws), path, scope)))
}

/// One `elif`/`else` arm of a conditional, including its body.
fn cond_block(t: &Vec<char>, pos: usize) -> (r: Result<(usize, Cond), PFail>)
    requires
        pos <= t.len(),
    ensures
        r matches Ok(v) ==> pos < v.0 <= t@.len(),
    decreases t@.len() - pos, 0int,
{
    proof {
        reveal_strlit("{%");
        reveal_strlit("%}");
    }
    let p = match tag(t, pos, "{%") {
        Ok(p) => p,
        Err(e) => {
            return Err(e);
        },
    };
    let (p0, pws) = opt_dash(t, p);
    let p1 = skip_ws(t, p0);
    let (p2, cond) = match tag(t, p1, "elif") {
        Ok(q) => {
            let q2 = skip_ws(t, q);
            match expr_any(t, q2) {
                Ok((q3, c)) => (skip_ws(t, q3), Some(c)),
                Err(e) => {
                    return Err(e);
                },
            }
        },
        Err(_) => {
            match tag(t, p1, "else") {
                Ok(q) => (skip_ws(t, q), None),
                Err(e) => {
                    return Err(e);
                },
            }
        },
    };
    let (p3, nws) = opt_dash(t, p2);
    let p4 = match tag(t, p3, "%}") {
        Ok(p) => p,
        Err(e) => {
            return Err(e);
        },
    };
    match parse_template(t, p4) {
        Ok((p5, block)) => Ok((p5, (WS(pws, nws), cond, block))),
        Err(f) => Err(PFail::Fatal(f)),
    }
}

/// An `if` statement body with its `elif`/`else` arms, up to `endif`.
fn block_if(t: &Vec<char>, pos: usize) -> (r: Result<(usize, Node), PFail>)
    requires
        pos <= t.len(),
    ensures
        r matches Ok(v) ==> pos <= v.0 <= t@.len(),
        r matches Ok(v) ==> v.1 is Cond,
    decreases t@.len() - pos, 0int,
{
    proof {
        reveal_strlit("%}");
    }
    let (p0, pws1) = opt_dash(t, pos);
    let p1 = skip_ws(t, p0);
    let p2 = match tag(t, p1, "if") {
        Ok(p) => p,
        Err(e) => {
            return Err(e);
        },
    };
    let p3 = skip_ws(t, p2);
    let (p4, cond) = match expr_any(t, p3) {
        Ok(v) => v,
        Err(e) => {
            return Err(e);
        },
    };
    let p5 = skip_ws(t, p4);
    let (p6, nws1) = opt_dash(t, p5);
    let p7 = match tag(t, p6, "%}") {
        Ok(p) => p,
        Err(e) => {
            return Err(e);
        },
    };
    let (p8, block) = match parse_template(t, p7) {
        Ok(v) => v,
        Err(f) => {
            return Err(PFail::Fatal(f));
        },
    };
    let mut arms: Vec<Cond> = Vec::new();
    arms.push((WS(pws1, nws1), Some(cond), block));
    let mut cur: usize = p8;
    loop
        invariant
            pos < cur <= t@.len(),
        decreases t@.len() - cur,
    {
        match cond_block(t, cur) {
            Ok((c, arm)) => {
                arms.push(arm);
                cur = c;
            },
            Err(PFail::Fatal(f)) => {
                return Err(PFail::Fatal(f));
            },
            Err(PFail::Soft) => {
                break ;
            },
        }
    }
    let q0 = match tag(t, cur, "{%") {
        Ok(p) => p,
        Err(e) => {
            return Err(e);
        },
    };
    let (q1, pws2) = opt_dash(t, q0);
    let q2 = skip_ws(t, q1);
    let q3 = match tag(t, q2, "endif") {
        Ok(p) => p,
        Err(e) => {
            return Err(e);
        },
    };
    let q4 = skip_ws(t, q3);
    let (q5, nws2) = opt_dash(t, q4);
    Ok((q5, Node::Cond(arms, WS(pws2, nws2))))
}

/// A `for` statement body: `for x in e`, its body, and `endfor`.
fn block_for(t: &Vec<char>, pos: usize) -> (r: Result<(usize, Node), PFail>)
    requires
        pos <= t.len(),
    ensures
        r matches Ok(v) ==> pos <= v.0 <= t@.len(),
        r matches Ok(v) ==> v.1 is Loop,
    decreases t@.len() - pos, 0int,
{
    proof {
        reveal_strlit("%}");
    }
    let (p0, pws1) = opt_dash(t, pos);
    let p1 = skip_ws(t, p0);
    let p2 = match tag(t, p1, "for") {
        Ok(p) => p,
        Err(e) => {
            return Err(e);
        },
    };
    let p3 = skip_ws(t, p2);
    let (p4, name) = match identifier(t, p3) {
        Ok(v) => v,
        Err(e) => {
            return Err(e);
        },
    };
    let p5 = skip_ws(t, p4);
    let p6 = match tag(t, p5, "in") {
        Ok(p) => p,
        Err(e) => {
            return Err(e);
        },
    };
    let p7 = skip_ws(t, p6);
    let (p8, iter) = match expr_any(t, p7) {
        Ok(v) => v,
        Err(e) => {
            return Err(e);
        },
    };
    let p9 = skip_ws(t, p8);
    let (p10, nws1) = opt_dash(t, p9);
    let p11 = match tag(t, p10, "%}") {
        Ok(p) => p,
        Err(e) => {
            return Err(e);
        },
    };
    let (p12, block) = match parse_template(t, p11) {
        Ok(v) => v,
        Err(f) => {
            return Err(PFail::Fatal(f));
        },
    };
    let p13 = match tag(t, p12, "{%") {
        Ok(p) => p,
        Err(e) => {
            return Err(e);
        },
    };
    let (p14, pws2) = opt_dash(t, p13);
    let p15 = skip_ws(t, p14);
    let p16 = match tag(t, p15, "endfor") {
        Ok(p) => p,
        Err(e) => {
            return Err(e);
        },
    };
    let p17 = skip_ws(t, p16);
    let (p18, nws2) = opt_dash(t, p17);
    Ok(
        (
            p18,
            Node::Loop(WS(pws1, nws1), Target::Name(name), iter, block, WS(pws2, nws2)),
        ),
    )
}

/// A parenthesised `with (p, …)` parameter list of a `when` arm.
fn with_parameters(t: &Vec<char>, pos: usize) -> (r: Result<(usize, Vec<MatchParameter>), PFail>)
    requires
        pos <= t.len(),
    ensures
        r matches Ok(v) ==> pos <= v.0 <= t@.len(),
{
    let p0 = match tag(t, pos, "with") {
        Ok(p) => p,
        Err(e) => {
            return Err(e);
        },
    };
    let p1 = skip_ws(t, p0);
    let p2 = match tag(t, p1, "(") {
        Ok(p) => p,
        Err(e) => {
            return Err(e);
        },
    };
    let p3 = skip_ws(t, p2);
    let mut vals: Vec<MatchParameter> = Vec::new();
    match match_parameter(t, p3) {
        Err(_) => {
            match tag(t, p3, ")") {
                Ok(p4) => Ok((p4, vals)),
                Err(e) => Err(e),
            }
        },
        Ok((q0, first)) => {
            vals.push(first);
            let mut cur: usize = skip_ws(t, q0);
            loop
                invariant
                    pos <= cur <= t@.len(),
                decreases t@.len() - cur,
            {
                match tag(t, cur, ",") {
                    Err(_) => {
                        break ;
                    },
                    Ok(c1) => {
                        let c2 = skip_ws(t, c1);
                        match match_parameter(t, c2) {
                            Err(e) => {
                                return Err(e);
                            },
                            Ok((c3, p)) => {
                                vals.push(p);
                                cur = skip_ws(t, c3);
                            },
                        }
                    },
                }
            }
            match tag(t, cur, ")") {
                Ok(p4) => Ok((p4, vals)),
                Err(e) => Err(e),
            }
        },
    }
}

/// One `when` arm of a `match` block, including its body.
fn when_block(t: &Vec<char>, pos: usize) -> (r: Result<(usize, When), PFail>)
    requires
        pos <= t.len(),
    ensures
        r matches Ok(v) ==> pos < v.0 <= t@.len(),
    decreases t@.len() - pos, 0int,
{
    proof {
        reveal_strlit("{%");
        reveal_strlit("%}");
    }
    let p = match tag(t, pos, "{%") {
        Ok(p) => p,
        Err(e) => {
            return Err(e);
        },
    };
    let (p0, pws) = opt_dash(t, p);
    let p1 = skip_ws(t, p0);
    let p2 = match tag(t, p1, "when") {
        Ok(p) => p,
        Err(e) => {
            return Err(e);
        },
    };
    let p3 = skip_ws(t, p2);
    let (p4, variant) = match match_variant(t, p3) {
        Ok(v) => v,
        Err(e) => {
            return Err(e);
        },
    };
    let p5 = skip_ws(t, p4);
    let (p6, params) = match with_parameters(t, p5) {
        Ok((q, ps)) => (skip_ws(t, q), ps),
        Err(PFail::Fatal(f)) => {
            return Err(PFail::Fatal(f));
        },
        Err(PFail::Soft) => (p5, Vec::new()),
    };
    let (p7, nws) = opt_dash(t, p6);
    let p8 = match tag(t, p7, "%}") {
        Ok(p) => p,
        Err(e) => {
            return Err(e);
        },
    };
    match parse_template(t, p8) {
        Ok((p9, block)) => Ok((p9, (WS(pws, nws), Some(variant), params, block))),
        Err(f) => Err(PFail::Fatal(f)),
    }
}

/// The catch-all `else` arm of a `match` block, including its body.
fn match_else_block(t: &Vec<char>, pos: usize) -> (r: Result<(usize, When), PFail>)
    requires
        pos <= t.len(),
    ensures
        r matches Ok(v) ==> pos < v.0 <= t@.len(),
    decreases t@.len() - pos, 0int,
{
    proof {
        reveal_strlit("{%");
        reveal_strlit("%}");
    }
    let p = match tag(t, pos, "{%") {
        Ok(p) => p,
        Err(e) => {
            return Err(e);
        },
    };
    let (p0, pws) = opt_dash(t, p);
    let p1 = skip_ws(t, p0);
    let p2 = match tag(t, p1, "else") {
        Ok(p) => p,
        Err(e) => {
            return Err(e);
        },
    };
    let p3 = skip_ws(t, p2);
    let (p4, nws) = opt_dash(t, p3);
    let p5 = match tag(t, p4, "%}") {
        Ok(p) => p,
        Err(e) => {
            return Err(e);
        },
    };
    match parse_template(t, p5) {
        Ok((p6, block)) => Ok((p6, (WS(pws, nws), None, Vec::new(), block))),
        Err(f) => Err(PFail::Fatal(f)),
    }
}

/// A `match` statement body: the subject, optional whitespace before the
/// first arm, the `when` arms, an optional `else` arm, and `endmatch`.
/// Non-whitespace text between the head and the first arm is a fatal error.
fn block_match(t: &Vec<char>, pos: usize) -> (r: Result<(usize, Node), PFail>)
    requires
        pos <= t.len(),
    ensures
        r matches Ok(v) ==> pos <= v.0 <= t@.len(),
        r matches Ok(v) ==> v.1 is Match,
    decreases t@.len() - pos, 0int,
{
    proof {
        reveal_strlit("%}");
    }
    let (p0, pws1) = opt_dash(t, pos);
    let p1 = skip_ws(t, p0);
    let p2 = match tag(t, p1, "match") {
        Ok(p) => p,
        Err(e) => {
            return Err(e);
        },
    };
    let p3 = skip_ws(t, p2);
    let (p4, expr) = match expr_any(t, p3) {
        Ok(v) => v,
        Err(e) => {
            return Err(e);
        },
    };
    let p5 = skip_ws(t, p4);
    let (p6, nws1) = opt_dash(t, p5);
    let p7 = match tag(t, p6, "%}") {
        Ok(p) => p,
        Err(e) => {
            return Err(e);
        },
    };
    let (mut cur, inter): (usize, Option<Vec<char>>) = match take_content(t, p7) {
        Err(_) => (p7, None),
        Ok((q, n)) => {
            match n {
                Node::Lit(l, b, rws) => {
                    if b.len() > 0 || rws.len() > 0 {
                        return Err(PFail::Fatal(ParseError::MatchNonWhitespace(p7)));
                    }
                    (q, Some(l))
                },
                _ => {
                    proof {
                        assert(false);
                    }
                    (p7, None)
                },
            }
        },
    };
    proof {
        assert(pos < cur);
    }
    let mut arms: Vec<When> = Vec::new();
    match when_block(t, cur) {
        Ok((c, w)) => {
            arms.push(w);
            cur = c;
        },
        Err(e) => {
            return Err(e);
        },
    }
    loop
        invariant
            pos < cur <= t@.len(),
        decreases t@.len() - cur,
    {
        match when_block(t, cur) {
            Ok((c, w)) => {
                arms.push(w);
                cur = c;
            },
            Err(PFail::Fatal(f)) => {
                return Err(PFail::Fatal(f));
            },
            Err(PFail::Soft) => {
                break ;
            },
        }
    }
    match match_else_block(t, cur) {
        Ok((c, w)) => {
            arms.push(w);
            cur = c;
        },
        Err(PFail::Fatal(f)) => {
            return Err(PFail::Fatal(f));
        },
        Err(PFail::Soft) => {},
    }
    let q0 = skip_ws(t, cur);
    let q1 = match tag(t, q0, "{%") {
        Ok(p) => p,
        Err(e) => {
            return Err(e);
        },
    };
    let (q2, pws2) = opt_dash(t, q1);
    let q3 = skip_ws(t, q2);
    let q4 = match tag(t, q3, "endmatch") {
        Ok(p) => p,
        Err(e) => {
            return Err(e);
        },
    };
    let q5 = skip_ws(t, q4);
    let (q6, nws2) = opt_dash(t, q5);
    Ok((q6, Node::Match(WS(pws1, nws1), expr, inter, arms, WS(pws2, nws2))))
}

/// A `block` statement body: the name, the contents, and `endblock` with an
/// optional repeated name.
fn block_block(t: &Vec<char>, pos: usize) -> (r: Result<(usize, Node), PFail>)
    requires
        pos <= t.len(),
    ensures
        r matches Ok(v) ==> pos <= v.0 <= t@.len(),
        r matches Ok(v) ==> v.1 is BlockDef,
    decreases t@.len() - pos, 0int,
{
    proof {
        reveal_strlit("%}");
    }
    let (p0, pws1) = opt_dash(t, pos);
    let p1 = skip_ws(t, p0);
    let p2 = match tag(t, p1, "block") {
        Ok(p) => p,
        Err(e) => {
            return Err(e);
        },
    };
    let p3 = skip_ws(t, p2);
    let (p4, name) = match identifier(t, p3) {
        Ok(v) => v,
        Err(e) => {
            return Err(e);
        },
    };
    let p5 = skip_ws(t, p4);
    let (p6, nws1) = opt_dash(t, p5);
    let p7 = match tag(t, p6, "%}") {
        Ok(p) => p,
        Err(e) => {
            return Err(e);
        },
    };
    let (p8, contents) = match parse_template(t, p7) {
        Ok(v) => v,
        Err(f) => {
            return Err(PFail::Fatal(f));
        },
    };
    let p9 = match tag(t, p8, "{%") {
        Ok(p) => p,
        Err(e) => {
            return Err(e);
        },
    };
    let (p10, pws2) = opt_dash(t, p9);
    let p11 = skip_ws(t, p10);
    let p12 = match tag(t, p11, "endblock") {
        Ok(p) => p,
        Err(e) => {
            return Err(e);
        },
    };
    let p13 = skip_ws(t, p12);
    // optional repeated block name after `endblock`, accepted and discarded
    let p14 = match tag_chars(t, p13, &name) {
        Ok(q) => skip_ws(t, q),
        Err(_) => p13,
    };
    let (p15, nws2) = opt_dash(t, p14);
    Ok((p15, Node::BlockDef(WS(pws1, nws1), name, contents, WS(pws2, nws2))))
}

/// A `macro` statement body: the name, the parameter list, the contents, and
/// `endmacro`.
fn block_macro(t: &Vec<char>, pos: usize) -> (r: Result<(usize, Node), PFail>)
    requires
        pos <= t.len(),
    ensures
        r matches Ok(v) ==> pos <= v.0 <= t@.len(),
        r matches Ok(v) ==> v.1 is Macro,
    decreases t@.len() - pos, 0int,
{
    proof {
        reveal_strlit("%}");
    }
    let (p0, pws1) = opt_dash(t, pos);
    let p1 = skip_ws(t, p0);
    let p2 = match tag(t, p1, "macro") {
        Ok(p) => p,
        Err(e) => {
            return Err(e);
        },
    };
    let p3 = skip_ws(t, p2);
    let (p4, name) = match identifier(t, p3) {
        Ok(v) => v,
        Err(e) => {
            return Err(e);
        },
    };
    let p5 = skip_ws(t, p4);
    let (p6, params) = match parameters(t, p5) {
        Ok(v) => v,
        Err(e) => {
            return Err(e);
        },
    };
    let p7 = skip_ws(t, p6);
    let (p8, nws1) = opt_dash(t, p7);
    let p9 = match tag(t, p8, "%}") {
        Ok(p) => p,
        Err(e) => {
            return Err(e);
        },
    };
    let (p10, contents) = match parse_template(t, p9) {
        Ok(v) => v,
        Err(f) => {
            return Err(PFail::Fatal(f));
        },
    };
    let p11 = match tag(t, p10, "{%") {
        Ok(p) => p,
        Err(e) => {
            return Err(e);
        },
    };
    let (p12, pws2) = opt_dash(t, p11);
    let p13 = skip_ws(t, p12);
    let p14 = match tag(t, p13, "endmacro") {
        Ok(p) => p,
        Err(e) => {
            return Err(e);
        },
    };
    let p15 = skip_ws(t, p14);
    let (p16, nws2) = opt_dash(t, p15);
    Ok(
        (
            p16,
            Node::Macro(
                name,
                Macro { ws1: WS(pws1, nws1), args: params, nodes: contents, ws2: WS(pws2, nws2) },
            ),
        ),
    )
}

/// A statement directive `{% … %}`: dispatches to the statement forms in
/// order. The consumed text ends with the closing frame.
pub fn block_node(t: &Vec<char>, pos: usize) -> (r: Result<(usize, Node), PFail>)
    requires
        pos <= t.len(),
    ensures
        r matches Ok(v) ==> pos < v.0 <= t@.len() && t@.subrange(v.0 - 2, v.0 as int) == "%}"@,
        r matches Ok(v) ==> pos + 4 <= v.0,
        r matches Ok(v) ==> !(v.1 is Lit),
    decreases t@.len() - pos, 17int,
{
    proof {
        reveal_strlit("{%");
        reveal_strlit("%}");
    }
    let p = match tag(t, pos, "{%") {
        Ok(p) => p,
        Err(e) => {
            return Err(e);
        },
    };
    let (q, node) = match block_call(t, p) {
        Ok(v) => v,
        Err(PFail::Fatal(f)) => {
            return Err(PFail::Fatal(f));
        },
        Err(PFail::Soft) => {
            match block_let(t, p) {
                Ok(v) => v,
                Err(PFail::Fatal(f)) => {
                    return Err(PFail::Fatal(f));
                },
                Err(PFail::Soft) => {
                    match block_if(t, p) {
                        Ok(v) => v,
                        Err(PFail::Fatal(f)) => {
                            return Err(PFail::Fatal(f));
                        },
                        Err(PFail::Soft) => {
                            match block_for(t, p) {
                                Ok(v) => v,
                                Err(PFail::Fatal(f)) => {
                                    return Err(PFail::Fatal(f));
                                },
                                Err(PFail::Soft) => {
                                    match block_match(t, p) {
                                        Ok(v) => v,
                                        Err(PFail::Fatal(f)) => {
                                            return Err(PFail::Fatal(f));
                                        },
                                        Err(PFail::Soft) => {
                                            match block_extends(t, p) {
                                                Ok(v) => v,
                                                Err(PFail::Fatal(f)) => {
                                                    return Err(PFail::Fatal(f));
                                                },
                                                Err(PFail::Soft) => {
                                                    match block_include(t, p) {
                                                        Ok(v) => v,
                                                        Err(PFail::Fatal(f)) => {
                                                            return Err(PFail::Fatal(f));
                                                        },
                                                        Err(PFail::Soft) => {
                                                            match block_import(t, p) {
                                                                Ok(v) => v,
                                                                Err(PFail::Fatal(f)) => {
                                                                    return Err(PFail::Fatal(f));
                                                                },
                                                                Err(PFail::Soft) => {
                                                                    match block_block(t, p) {
                                                                        Ok(v) => v,
                                                                        Err(PFail::Fatal(f)) => {
                                                                            return Err(
                                                                                PFail::Fatal(f),
                                                                            );
                                                                        },
                                                                        Err(PFail::Soft) => {
                                                                            match block_macro(
                                                                                t,
                                                                                p,
                                                                            ) {
                                                                                Ok(v) => v,
                                                                                Err(e) => {
                                                                                    return Err(e);
                                                                                },
                                                                            }
                                                                        },
                                                                    }
                                                                },
                                                            }
                                                        },
                                                    }
                                                },
                                            }
                                        },
                                    }
                                },
                            }
                        },
                    }
                },
            }
        },
    };
    match tag(t, q, "%}") {
        Ok(fin) => Ok((fin, node)),
        Err(e) => Err(e),
    }
}

/// Parses a run of template nodes: literal content interleaved with comments,
/// expression directives and statement directives. Stops at the end of input
/// or at a directive it does not recognise, leaving it unconsumed. Every
/// literal node's text stands verbatim in the consumed region; a run without
/// a directive opener is consumed whole into a single literal node.
#[verifier::loop_isolation(false)]
pub fn parse_template(t: &Vec<char>, pos: usize) -> (r: Result<(usize, Vec<Node>), ParseError>)
    requires
        pos <= t.len(),
    ensures
        r matches Ok(v) ==> {
            &&& pos <= v.0 <= t@.len()
            &&& (v.1@.len() == 0 ==> v.0 == pos)
            &&& (forall|i: int|
                0 <= i < v.1@.len() ==> lit_sourced(
                    #[trigger] v.1@[i],
                    t@.subrange(pos as int, v.0 as int),
                ))
        },
        (pos < t@.len() && (forall|i: int| pos <= i < t@.len() ==> !starts_dir(t@, i))) ==> (
        r matches Ok(v) && v.0 == t@.len() && v.1@.len() == 1 && lit_parts(
            v.1@[0],
            t@.subrange(pos as int, t@.len() as int),
        )),
        (starts_dir(t@, pos as int) && (forall|j: int| !closer_at(t@, j))) ==> (r is Err || (
        r matches Ok(v) && v.0 == pos && v.1@.len() == 0)),
    decreases t@.len() - pos, 18int,
{
    let ghost nodir = pos < t@.len() && (forall|i: int|
        pos <= i < t@.len() ==> !starts_dir(t@, i));
    let ghost noclose = starts_dir(t@, pos as int) && (forall|j: int| !closer_at(t@, j));
    let mut nodes: Vec<Node> = Vec::new();
    let mut cur: usize = pos;
    loop
        invariant
            pos <= cur <= t@.len(),
            nodes@.len() == 0 ==> cur == pos,
            forall|i: int|
                0 <= i < nodes@.len() ==> lit_sourced(
                    #[trigger] nodes@[i],
                    t@.subrange(pos as int, cur as int),
                ),
            nodir ==> (nodes@.len() == 0 || (nodes@.len() == 1 && cur == t@.len() && lit_parts(
                nodes@[0],
                t@.subrange(pos as int, t@.len() as int),
            ))),
            noclose ==> (cur == pos && nodes@.len() == 0),
        decreases t@.len() - cur,
    {
        if cur == t.len() {
            break ;
        }
        let ghost cur0 = cur as int;
        match take_content(t, cur) {
            Ok((p, n)) => {
                proof {
                    if noclose {
                        // a directive opens right at the start, so literal
                        // content cannot be taken
                        assert(false);
                    }
                    lemma_region_keeps_lits(t@, pos as int, cur0, p as int, nodes@);
                    // the new literal's text is exactly the consumed chunk
                    assert(t@.subrange(pos as int, p as int) =~= t@.subrange(pos as int, cur0)
                        + t@.subrange(cur0, p as int) + Seq::<char>::empty());
                    crate::text::lemma_contains_intro(
                        t@.subrange(pos as int, cur0),
                        t@.subrange(cur0, p as int),
                        Seq::<char>::empty(),
                    );
                }
                nodes.push(n);
                cur = p;
                continue ;
            },
            Err(_) => {},
        }
        match block_comment(t, cur) {
            Ok((p, n)) => {
                proof {
                    if noclose {
                        // success would end at a `#}`, which the source lacks
                        assert(closer_at(t@, p - 2));
                        assert(false);
                    }
                    lemma_region_keeps_lits(t@, pos as int, cur0, p as int, nodes@);
                }
                nodes.push(n);
                cur = p;
                continue ;
            },
            Err(PFail::Fatal(f)) => {
                return Err(f);
            },
            Err(PFail::Soft) => {},
        }
        match expr_node(t, cur) {
            Ok((p, n)) => {
                proof {
                    if noclose {
                        // success would end at a `}}`, which the source lacks
                        reveal_strlit("}}");
                        assert("}}"@.len() == 2);
                        assert(t@[p - 2] == "}}"@[0int] && t@[p - 1] == "}}"@[1int]) by {
                            assert(t@.subrange(p - 2, p as int)[0int] == t@[p - 2]);
                            assert(t@.subrange(p - 2, p as int)[1int] == t@[p - 1]);
                        }
                        assert(closer_at(t@, p - 2));
                        assert(false);
                    }
                    lemma_region_keeps_lits(t@, pos as int, cur0, p as int, nodes@);
                }
                nodes.push(n);
                cur = p;
                continue ;
            },
            Err(PFail::Fatal(f)) => {
                return Err(f);
            },
            Err(PFail::Soft) => {},
        }
        match block_node(t, cur) {
            Ok((p, n)) => {
                proof {
                    if noclose {
                        // success would end at a `%}`, which the source lacks
                        reveal_strlit("%}");
                        assert("%}"@.len() == 2);
                        assert(t@[p - 2] == "%}"@[0int] && t@[p - 1] == "%}"@[1int]) by {
                            assert(t@.subrange(p - 2, p as int)[0int] == t@[p - 2]);
                            assert(t@.subrange(p - 2, p as int)[1int] == t@[p - 1]);
                        }
                        assert(closer_at(t@, p - 2));
                        assert(false);
                    }
                    lemma_region_keeps_lits(t@, pos as int, cur0, p as int, nodes@);
                }
                nodes.push(n);
                cur = p;
            },
            Err(PFail::Fatal(f)) => {
                return Err(f);
            },
            Err(PFail::Soft) => {
                break ;
            },
        }
    }
    Ok((cur, nodes))
}

/// Literal texts contained in a region stay contained when the region grows
/// to the right within the same source.
proof fn lemma_region_keeps_lits(t: Seq<char>, pos: int, cur: int, p: int, nodes: Seq<Node>)
    requires
        0 <= pos <= cur <= p <= t.len(),
        forall|i: int|
            0 <= i < nodes.len() ==> lit_sourced(#[trigger] nodes[i], t.subrange(pos, cur)),
    ensures
        forall|i: int|
            0 <= i < nodes.len() ==> lit_sourced(#[trigger] nodes[i], t.subrange(pos, p)),
{
    assert(t.subrange(pos, cur).is_prefix_of(t.subrange(pos, p))) by {
        assert(t.subrange(pos, p).take(cur - pos) =~= t.subrange(pos, cur));
    }
    assert forall|i: int|
        0 <= i < nodes.len() implies lit_sourced(#[trigger] nodes[i], t.subrange(pos, p)) by {
        match nodes[i] {
            Node::Lit(l, b, r) => {
                crate::text::lemma_contains_prefix_extend(
                    t.subrange(pos, cur),
                    t.subrange(pos, p),
                    l@ + b@ + r@,
                );
            },
            _ => {},
        }
    }
}

/// Parses a whole template. An empty template yields one empty literal node;
/// any other template must be consumed completely, else the offset where
/// parsing stopped is reported as a syntax error. On success every literal
/// node's text stands verbatim in the source, and a source without a
/// directive opener becomes a single literal node carrying it whole.
pub fn parse(src: &str) -> (r: Result<Vec<Node>, ParseError>)
    ensures
        src@.len() == 0 ==> (r matches Ok(nodes) && nodes@.len() == 1 && lit_parts(
            nodes@[0],
            Seq::<char>::empty(),
        )),
        (src@.len() > 0 && (forall|i: int| 0 <= i < src@.len() ==> !starts_dir(src@, i))) ==> (
        r matches Ok(nodes) && nodes@.len() == 1 && lit_parts(nodes@[0], src@)),
        r matches Ok(nodes) ==> {
            &&& (forall|i: int| 0 <= i < nodes@.len() ==> lit_sourced(#[trigger] nodes@[i], src@))
            &&& (src@.len() > 0 ==> nodes@.len() > 0)
        },
        (starts_dir(src@, 0) && (forall|j: int| !closer_at(src@, j))) ==> r is Err,
{
    let t = chars_of(src);
    parse_chars(&t)
}

/// `parse` over an already-converted character vector.
pub fn parse_chars(t: &Vec<char>) -> (r: Result<Vec<Node>, ParseError>)
    ensures
        t@.len() == 0 ==> (r matches Ok(nodes) && nodes@.len() == 1 && lit_parts(
            nodes@[0],
            Seq::<char>::empty(),
        )),
        (t@.len() > 0 && (forall|i: int| 0 <= i < t@.len() ==> !starts_dir(t@, i))) ==> (
        r matches Ok(nodes) && nodes@.len() == 1 && lit_parts(nodes@[0], t@)),
        r matches Ok(nodes) ==> {
            &&& (forall|i: int| 0 <= i < nodes@.len() ==> lit_sourced(#[trigger] nodes@[i], t@))
            &&& (t@.len() > 0 ==> nodes@.len() > 0)
        },
        (starts_dir(t@, 0) && (forall|j: int| !closer_at(t@, j))) ==> r is Err,
{
    if t.len() == 0 {
        let l: Vec<char> = Vec::new();
        let b: Vec<char> = Vec::new();
        let rw: Vec<char> = Vec::new();
        let mut nodes: Vec<Node> = Vec::new();
        proof {
            assert(l@ + b@ + rw@ =~= Seq::<char>::empty());
            assert(t@.subrange(0, 0) =~= l@ + b@ + rw@);
        }
        nodes.push(Node::Lit(l, b, rw));
        return Ok(nodes);
    }
    match parse_template(t, 0) {
        Ok((p, nodes)) => {
            if p == t.len() {
                proof {
                    assert(t@.subrange(0, p as int) =~= t@);
                }
                Ok(nodes)
            } else {
                Err(ParseError::Syntax(p))
            }
        },
        Err(f) => Err(f),
    }
}

} // verus!
