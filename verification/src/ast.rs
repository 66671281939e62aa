//! The template abstract syntax tree.
//!
//! Text fragments are held as owned `Vec<char>` values; every type carries a
//! structural-equivalence spec predicate (`..._equiv`) that compares trees up
//! to the views of their text fields, and a size measure used for termination
//! of tree walks.
use vstd::prelude::*;

verus! {

use crate::text::copy_range;

/// An expression of the template expression language.
#[derive(Debug, PartialEq, Eq)]
pub enum Expr {
    NumLit(Vec<char>),
    StrLit(Vec<char>),
    Var(Vec<char>),
    Path(Vec<Vec<char>>),
    Array(Vec<Expr>),
    Attr(Box<Expr>, Vec<char>),
    Filter(Vec<char>, Vec<Expr>),
    Unary(Vec<char>, Box<Expr>),
    BinOp(Vec<char>, Box<Expr>, Box<Expr>),
    Group(Box<Expr>),
    MethodCall(Box<Expr>, Vec<char>, Vec<Expr>),
}

/// A value legal as the head of a `when` arm.
#[derive(Debug, PartialEq, Eq)]
pub enum MatchVariant {
    Path(Vec<Vec<char>>),
    Name(Vec<char>),
    NumLit(Vec<char>),
    StrLit(Vec<char>),
}

/// A value legal as a bound position of a `when` arm.
#[derive(Debug, PartialEq, Eq)]
pub enum MatchParameter {
    Name(Vec<char>),
    NumLit(Vec<char>),
    StrLit(Vec<char>),
}

/// A legal assignment left-hand side.
#[derive(Debug, PartialEq, Eq)]
pub enum Target {
    Name(Vec<char>),
}

/// Whitespace sigils: the first flag suppresses the literal whitespace before
/// the directive, the second the literal whitespace after it.
#[derive(Clone, Copy, PartialEq, Eq, Structural, Debug)]
pub struct WS(pub bool, pub bool);

/// A macro definition body.
#[derive(Debug, PartialEq, Eq)]
pub struct Macro {
    pub ws1: WS,
    pub args: Vec<Vec<char>>,
    pub nodes: Vec<Node>,
    pub ws2: WS,
}

/// One arm of an `if`/`else if`/`else` chain.
pub type Cond = (WS, Option<Expr>, Vec<Node>);

/// One arm of a `match` block.
pub type When = (WS, Option<MatchVariant>, Vec<MatchParameter>, Vec<Node>);

/// A node of the parsed template.
#[derive(Debug, PartialEq, Eq)]
pub enum Node {
    Lit(Vec<char>, Vec<char>, Vec<char>),
    Comment(WS),
    Expr(WS, Expr),
    Call(WS, Option<Vec<char>>, Vec<char>, Vec<Expr>),
    LetDecl(WS, Target),
    Let(WS, Target, Expr),
    Cond(Vec<Cond>, WS),
    Match(WS, Expr, Option<Vec<char>>, Vec<When>, WS),
    Loop(WS, Target, Expr, Vec<Node>, WS),
    Extends(Expr),
    BlockDef(WS, Vec<char>, Vec<Node>, WS),
    Include(WS, Vec<char>),
    Import(WS, Vec<char>, Vec<char>),
    Macro(Vec<char>, Macro),
}

/// Size measure of an expression: one plus the sizes of its children.
pub open spec fn expr_size(e: Expr) -> nat
    decreases e,
{
    match e {
        Expr::Array(v) => 1 + exprs_size(v@),
        Expr::Attr(o, _) => 1 + expr_size(*o),
        Expr::Filter(_, a) => 1 + exprs_size(a@),
        Expr::Unary(_, x) => 1 + expr_size(*x),
        Expr::BinOp(_, l, x) => 1 + expr_size(*l) + expr_size(*x),
        Expr::Group(x) => 1 + expr_size(*x),
        Expr::MethodCall(o, _, a) => 1 + expr_size(*o) + exprs_size(a@),
        _ => 1,
    }
}

/// Sum of the sizes of a sequence of expressions.
pub open spec fn exprs_size(s: Seq<Expr>) -> nat
    decreases s,
{
    if s.len() == 0 {
        0
    } else {
        expr_size(s[0]) + exprs_size(s.drop_first())
    }
}

/// Each element's size is bounded by the sequence's total size.
pub proof fn lemma_exprs_size_elem(s: Seq<Expr>, i: int)
    requires
        0 <= i < s.len(),
    ensures
        expr_size(s[i]) <= exprs_size(s),
    decreases i,
{
    if i == 0 {
    } else {
        lemma_exprs_size_elem(s.drop_first(), i - 1);
    }
}

/// Size measure of a node: one plus the sizes of the nodes nested in it.
pub open spec fn node_size(n: Node) -> nat
    decreases n,
{
    match n {
        Node::Cond(arms, _) => 1 + conds_size(arms@),
        Node::Match(_, _, _, arms, _) => 1 + whens_size(arms@),
        Node::Loop(_, _, _, body, _) => 1 + nodes_size(body@),
        Node::BlockDef(_, _, body, _) => 1 + nodes_size(body@),
        Node::Macro(_, m) => 1 + nodes_size(m.nodes@),
        _ => 1,
    }
}

/// Sum of the sizes of a sequence of nodes.
pub open spec fn nodes_size(s: Seq<Node>) -> nat
    decreases s,
{
    if s.len() == 0 {
        0
    } else {
        node_size(s[0]) + nodes_size(s.drop_first())
    }
}

/// Sum of the sizes of the bodies of a sequence of conditional arms.
pub open spec fn conds_size(s: Seq<Cond>) -> nat
    decreases s,
{
    if s.len() == 0 {
        0
    } else {
        1 + nodes_size(s[0].2@) + conds_size(s.drop_first())
    }
}

/// Sum of the sizes of the bodies of a sequence of match arms.
pub open spec fn whens_size(s: Seq<When>) -> nat
    decreases s,
{
    if s.len() == 0 {
        0
    } else {
        1 + nodes_size(s[0].3@) + whens_size(s.drop_first())
    }
}

/// Every node has positive size.
pub proof fn lemma_node_size_pos(n: Node)
    ensures
        node_size(n) >= 1,
{
}

/// Node-sequence size distributes over concatenation.
pub proof fn lemma_nodes_size_add(a: Seq<Node>, b: Seq<Node>)
    ensures
        nodes_size(a + b) == nodes_size(a) + nodes_size(b),
    decreases a.len(),
{
    if a.len() == 0 {
        assert(a + b =~= b);
    } else {
        lemma_nodes_size_add(a.drop_first(), b);
        assert((a + b).drop_first() =~= a.drop_first() + b);
        assert((a + b)[0] == a[0]);
    }
}

/// Node-sequence size of a sequence extended by one node.
pub proof fn lemma_nodes_size_push(s: Seq<Node>, x: Node)
    ensures
        nodes_size(s.push(x)) == nodes_size(s) + node_size(x),
{
    lemma_nodes_size_add(s, seq![x]);
    assert(s.push(x) =~= s + seq![x]);
    assert(seq![x].drop_first() =~= Seq::<Node>::empty());
    assert(nodes_size(seq![x]) == node_size(x) + nodes_size(seq![x].drop_first()));
    assert(nodes_size(Seq::<Node>::empty()) == 0);
}

/// Each node's size is bounded by its sequence's total size.
pub proof fn lemma_nodes_size_elem(s: Seq<Node>, i: int)
    requires
        0 <= i < s.len(),
    ensures
        node_size(s[i]) <= nodes_size(s),
    decreases i,
{
    if i > 0 {
        lemma_nodes_size_elem(s.drop_first(), i - 1);
    }
}

/// Each arm's body size is strictly below its sequence's total size.
pub proof fn lemma_conds_size_elem(s: Seq<Cond>, i: int)
    requires
        0 <= i < s.len(),
    ensures
        nodes_size(s[i].2@) < conds_size(s),
    decreases i,
{
    if i > 0 {
        lemma_conds_size_elem(s.drop_first(), i - 1);
    }
}

/// Each arm's body size is strictly below its sequence's total size.
pub proof fn lemma_whens_size_elem(s: Seq<When>, i: int)
    requires
        0 <= i < s.len(),
    ensures
        nodes_size(s[i].3@) < whens_size(s),
    decreases i,
{
    if i > 0 {
        lemma_whens_size_elem(s.drop_first(), i - 1);
    }
}

/// Equivalence of optional names up to views.
pub open spec fn opt_chars_equiv(a: Option<Vec<char>>, b: Option<Vec<char>>) -> bool {
    match (a, b) {
        (Option::None, Option::None) => true,
        (Option::Some(x), Option::Some(y)) => x@ == y@,
        _ => false,
    }
}

/// Equivalence of path segments up to views.
pub open spec fn segs_equiv(a: Seq<Vec<char>>, b: Seq<Vec<char>>) -> bool {
    a.len() == b.len() && (forall|i: int| 0 <= i < a.len() ==> a[i]@ == b[i]@)
}

/// Structural equivalence of expressions, comparing text fields by view.
pub open spec fn expr_equiv(a: Expr, b: Expr) -> bool
    decreases a,
{
    match (a, b) {
        (Expr::NumLit(x), Expr::NumLit(y)) => x@ == y@,
        (Expr::StrLit(x), Expr::StrLit(y)) => x@ == y@,
        (Expr::Var(x), Expr::Var(y)) => x@ == y@,
        (Expr::Path(x), Expr::Path(y)) => segs_equiv(x@, y@),
        (Expr::Array(x), Expr::Array(y)) => exprs_equiv(x@, y@),
        (Expr::Attr(x, n), Expr::Attr(y, m)) => expr_equiv(*x, *y) && n@ == m@,
        (Expr::Filter(n, x), Expr::Filter(m, y)) => n@ == m@ && exprs_equiv(x@, y@),
        (Expr::Unary(o, x), Expr::Unary(p, y)) => o@ == p@ && expr_equiv(*x, *y),
        (Expr::BinOp(o, x1, x2), Expr::BinOp(p, y1, y2)) => o@ == p@ && expr_equiv(*x1, *y1)
            && expr_equiv(*x2, *y2),
        (Expr::Group(x), Expr::Group(y)) => expr_equiv(*x, *y),
        (Expr::MethodCall(x, n, xa), Expr::MethodCall(y, m, ya)) => expr_equiv(*x, *y) && n@ == m@
            && exprs_equiv(xa@, ya@),
        _ => false,
    }
}

/// Pointwise structural equivalence of expression sequences.
pub open spec fn exprs_equiv(a: Seq<Expr>, b: Seq<Expr>) -> bool
    decreases a,
{
    if a.len() != b.len() {
        false
    } else if a.len() == 0 {
        true
    } else {
        expr_equiv(a[0], b[0]) && exprs_equiv(a.drop_first(), b.drop_first())
    }
}

/// Structural equivalence of match variants.
pub open spec fn variant_equiv(a: MatchVariant, b: MatchVariant) -> bool {
    match (a, b) {
        (MatchVariant::Path(x), MatchVariant::Path(y)) => segs_equiv(x@, y@),
        (MatchVariant::Name(x), MatchVariant::Name(y)) => x@ == y@,
        (MatchVariant::NumLit(x), MatchVariant::NumLit(y)) => x@ == y@,
        (MatchVariant::StrLit(x), MatchVariant::StrLit(y)) => x@ == y@,
        _ => false,
    }
}

/// Structural equivalence of match parameters.
pub open spec fn param_equiv(a: MatchParameter, b: MatchParameter) -> bool {
    match (a, b) {
        (MatchParameter::Name(x), MatchParameter::Name(y)) => x@ == y@,
        (MatchParameter::NumLit(x), MatchParameter::NumLit(y)) => x@ == y@,
        (MatchParameter::StrLit(x), MatchParameter::StrLit(y)) => x@ == y@,
        _ => false,
    }
}

/// Structural equivalence of assignment targets.
pub open spec fn target_equiv(a: Target, b: Target) -> bool {
    match (a, b) {
        (Target::Name(x), Target::Name(y)) => x@ == y@,
    }
}

/// Structural equivalence of nodes, comparing text fields by view.
pub open spec fn node_equiv(a: Node, b: Node) -> bool
    decreases a,
{
    match (a, b) {
        (Node::Lit(l1, v1, r1), Node::Lit(l2, v2, r2)) => l1@ == l2@ && v1@ == v2@ && r1@ == r2@,
        (Node::Comment(w1), Node::Comment(w2)) => w1 == w2,
        (Node::Expr(w1, e1), Node::Expr(w2, e2)) => w1 == w2 && expr_equiv(e1, e2),
        (Node::Call(w1, s1, n1, a1), Node::Call(w2, s2, n2, a2)) => w1 == w2 && opt_chars_equiv(
            s1,
            s2,
        ) && n1@ == n2@ && exprs_equiv(a1@, a2@),
        (Node::LetDecl(w1, t1), Node::LetDecl(w2, t2)) => w1 == w2 && target_equiv(t1, t2),
        (Node::Let(w1, t1, e1), Node::Let(w2, t2, e2)) => w1 == w2 && target_equiv(t1, t2)
            && expr_equiv(e1, e2),
        (Node::Cond(a1, w1), Node::Cond(a2, w2)) => w1 == w2 && conds_equiv(a1@, a2@),
        (Node::Match(w1, e1, i1, a1, x1), Node::Match(w2, e2, i2, a2, x2)) => w1 == w2
            && expr_equiv(e1, e2) && opt_chars_equiv(i1, i2) && whens_equiv(a1@, a2@) && x1 == x2,
        (Node::Loop(w1, t1, e1, b1, x1), Node::Loop(w2, t2, e2, b2, x2)) => w1 == w2 && target_equiv(
            t1,
            t2,
        ) && expr_equiv(e1, e2) && nodes_equiv(b1@, b2@) && x1 == x2,
        (Node::Extends(e1), Node::Extends(e2)) => expr_equiv(e1, e2),
        (Node::BlockDef(w1, n1, b1, x1), Node::BlockDef(w2, n2, b2, x2)) => w1 == w2 && n1@ == n2@
            && nodes_equiv(b1@, b2@) && x1 == x2,
        (Node::Include(w1, p1), Node::Include(w2, p2)) => w1 == w2 && p1@ == p2@,
        (Node::Import(w1, p1, s1), Node::Import(w2, p2, s2)) => w1 == w2 && p1@ == p2@ && s1@
            == s2@,
        (Node::Macro(n1, m1), Node::Macro(n2, m2)) => n1@ == n2@ && macro_equiv(m1, m2),
        _ => false,
    }
}

/// Pointwise structural equivalence of node sequences.
pub open spec fn nodes_equiv(a: Seq<Node>, b: Seq<Node>) -> bool
    decreases a,
{
    if a.len() != b.len() {
        false
    } else if a.len() == 0 {
        true
    } else {
        node_equiv(a[0], b[0]) && nodes_equiv(a.drop_first(), b.drop_first())
    }
}

/// Pointwise structural equivalence of conditional arms.
pub open spec fn conds_equiv(a: Seq<Cond>, b: Seq<Cond>) -> bool
    decreases a,
{
    if a.len() != b.len() {
        false
    } else if a.len() == 0 {
        true
    } else {
        cond_equiv(a[0], b[0]) && conds_equiv(a.drop_first(), b.drop_first())
    }
}

/// Structural equivalence of one conditional arm.
pub open spec fn cond_equiv(a: Cond, b: Cond) -> bool
    decreases a,
{
    a.0 == b.0 && (match (a.1, b.1) {
        (Option::None, Option::None) => true,
        (Option::Some(x), Option::Some(y)) => expr_equiv(x, y),
        _ => false,
    }) && nodes_equiv(a.2@, b.2@)
}

/// Pointwise structural equivalence of match arms.
pub open spec fn whens_equiv(a: Seq<When>, b: Seq<When>) -> bool
    decreases a,
{
    if a.len() != b.len() {
        false
    } else if a.len() == 0 {
        true
    } else {
        when_equiv(a[0], b[0]) && whens_equiv(a.drop_first(), b.drop_first())
    }
}

/// Structural equivalence of one match arm.
pub open spec fn when_equiv(a: When, b: When) -> bool
    decreases a,
{
    a.0 == b.0 && (match (a.1, b.1) {
        (Option::None, Option::None) => true,
        (Option::Some(x), Option::Some(y)) => variant_equiv(x, y),
        _ => false,
    }) && a.2@.len() == b.2@.len() && (forall|i: int|
        0 <= i < a.2@.len() ==> #[trigger] param_equiv(a.2@[i], b.2@[i])) && nodes_equiv(
        a.3@,
        b.3@,
    )
}

/// Pointwise equivalence of every element yields sequence equivalence.
pub proof fn lemma_exprs_equiv_intro(a: Seq<Expr>, b: Seq<Expr>)
    requires
        a.len() == b.len(),
        forall|i: int| 0 <= i < a.len() ==> #[trigger] expr_equiv(a[i], b[i]),
    ensures
        exprs_equiv(a, b),
    decreases a.len(),
{
    if a.len() > 0 {
        assert forall|i: int|
            0 <= i < a.drop_first().len() implies #[trigger] expr_equiv(
            a.drop_first()[i],
            b.drop_first()[i],
        ) by {
            assert(a.drop_first()[i] == a[i + 1]);
            assert(b.drop_first()[i] == b[i + 1]);
            assert(expr_equiv(a[i + 1], b[i + 1]));
        }
        lemma_exprs_equiv_intro(a.drop_first(), b.drop_first());
        assert(expr_equiv(a[0], b[0]));
        assert(exprs_equiv(a, b));
    } else {
        assert(exprs_equiv(a, b));
    }
}

/// Pointwise equivalence of every element yields sequence equivalence.
pub proof fn lemma_nodes_equiv_intro(a: Seq<Node>, b: Seq<Node>)
    requires
        a.len() == b.len(),
        forall|i: int| 0 <= i < a.len() ==> #[trigger] node_equiv(a[i], b[i]),
    ensures
        nodes_equiv(a, b),
    decreases a.len(),
{
    if a.len() > 0 {
        assert forall|i: int|
            0 <= i < a.drop_first().len() implies #[trigger] node_equiv(
            a.drop_first()[i],
            b.drop_first()[i],
        ) by {
            assert(a.drop_first()[i] == a[i + 1]);
            assert(b.drop_first()[i] == b[i + 1]);
            assert(node_equiv(a[i + 1], b[i + 1]));
        }
        lemma_nodes_equiv_intro(a.drop_first(), b.drop_first());
        assert(node_equiv(a[0], b[0]));
        assert(nodes_equiv(a, b));
    } else {
        assert(nodes_equiv(a, b));
    }
}

/// Pointwise equivalence of every arm yields sequence equivalence.
pub proof fn lemma_conds_equiv_intro(a: Seq<Cond>, b: Seq<Cond>)
    requires
        a.len() == b.len(),
        forall|i: int| 0 <= i < a.len() ==> #[trigger] cond_equiv(a[i], b[i]),
    ensures
        conds_equiv(a, b),
    decreases a.len(),
{
    if a.len() > 0 {
        assert forall|i: int|
            0 <= i < a.drop_first().len() implies #[trigger] cond_equiv(
            a.drop_first()[i],
            b.drop_first()[i],
        ) by {
            assert(a.drop_first()[i] == a[i + 1]);
            assert(b.drop_first()[i] == b[i + 1]);
            assert(cond_equiv(a[i + 1], b[i + 1]));
        }
        lemma_conds_equiv_intro(a.drop_first(), b.drop_first());
        assert(cond_equiv(a[0], b[0]));
        assert(conds_equiv(a, b));
    } else {
        assert(conds_equiv(a, b));
    }
}

/// Pointwise equivalence of every arm yields sequence equivalence.
pub proof fn lemma_whens_equiv_intro(a: Seq<When>, b: Seq<When>)
    requires
        a.len() == b.len(),
        forall|i: int| 0 <= i < a.len() ==> #[trigger] when_equiv(a[i], b[i]),
    ensures
        whens_equiv(a, b),
    decreases a.len(),
{
    if a.len() > 0 {
        assert forall|i: int|
            0 <= i < a.drop_first().len() implies #[trigger] when_equiv(
            a.drop_first()[i],
            b.drop_first()[i],
        ) by {
            assert(a.drop_first()[i] == a[i + 1]);
            assert(b.drop_first()[i] == b[i + 1]);
            assert(when_equiv(a[i + 1], b[i + 1]));
        }
        lemma_whens_equiv_intro(a.drop_first(), b.drop_first());
        assert(when_equiv(a[0], b[0]));
        assert(whens_equiv(a, b));
    } else {
        assert(whens_equiv(a, b));
    }
}

/// Structural equivalence of macro bodies.
pub open spec fn macro_equiv(a: Macro, b: Macro) -> bool
    decreases a,
{
    a.ws1 == b.ws1 && segs_equiv(a.args@, b.args@) && nodes_equiv(a.nodes@, b.nodes@) && a.ws2
        == b.ws2
}

/// Conditional-arm sequence size distributes over concatenation.
pub proof fn lemma_conds_size_add(a: Seq<Cond>, b: Seq<Cond>)
    ensures
        conds_size(a + b) == conds_size(a) + conds_size(b),
    decreases a.len(),
{
    if a.len() == 0 {
        assert(a + b =~= b);
    } else {
        lemma_conds_size_add(a.drop_first(), b);
        assert((a + b).drop_first() =~= a.drop_first() + b);
        assert((a + b)[0] == a[0]);
    }
}

/// Conditional-arm sequence size of a sequence extended by one arm.
pub proof fn lemma_conds_size_push(s: Seq<Cond>, x: Cond)
    ensures
        conds_size(s.push(x)) == conds_size(s) + 1 + nodes_size(x.2@),
{
    lemma_conds_size_add(s, seq![x]);
    assert(s.push(x) =~= s + seq![x]);
    assert(seq![x].drop_first() =~= Seq::<Cond>::empty());
    assert(conds_size(seq![x]) == 1 + nodes_size(x.2@) + conds_size(seq![x].drop_first()));
    assert(conds_size(Seq::<Cond>::empty()) == 0);
}

/// Match-arm sequence size distributes over concatenation.
pub proof fn lemma_whens_size_add(a: Seq<When>, b: Seq<When>)
    ensures
        whens_size(a + b) == whens_size(a) + whens_size(b),
    decreases a.len(),
{
    if a.len() == 0 {
        assert(a + b =~= b);
    } else {
        lemma_whens_size_add(a.drop_first(), b);
        assert((a + b).drop_first() =~= a.drop_first() + b);
        assert((a + b)[0] == a[0]);
    }
}

/// Match-arm sequence size of a sequence extended by one arm.
pub proof fn lemma_whens_size_push(s: Seq<When>, x: When)
    ensures
        whens_size(s.push(x)) == whens_size(s) + 1 + nodes_size(x.3@),
{
    lemma_whens_size_add(s, seq![x]);
    assert(s.push(x) =~= s + seq![x]);
    assert(seq![x].drop_first() =~= Seq::<When>::empty());
    assert(whens_size(seq![x]) == 1 + nodes_size(x.3@) + whens_size(seq![x].drop_first()));
    assert(whens_size(Seq::<When>::empty()) == 0);
}

/// Copies a text fragment.
pub fn clone_chars(v: &Vec<char>) -> (r: Vec<char>)
    ensures
        r@ == v@,
{
    let r = copy_range(v, 0, v.len());
    proof {
        assert(v@.subrange(0, v@.len() as int) =~= v@);
    }
    r
}

/// Copies an optional text fragment.
pub fn clone_opt_chars(v: &Option<Vec<char>>) -> (r: Option<Vec<char>>)
    ensures
        opt_chars_equiv(*v, r),
{
    match v {
        Option::None => Option::None,
        Option::Some(x) => Option::Some(clone_chars(x)),
    }
}

/// Copies a list of path segments or parameter names.
pub fn clone_segs(v: &Vec<Vec<char>>) -> (r: Vec<Vec<char>>)
    ensures
        segs_equiv(v@, r@),
{
    let mut r: Vec<Vec<char>> = Vec::new();
    let mut i: usize = 0;
    while i < v.len()
        invariant
            i <= v.len(),
            r@.len() == i,
            forall|j: int| 0 <= j < i ==> r@[j]@ == v@[j]@,
        decreases v.len() - i,
    {
        r.push(clone_chars(&v[i]));
        i = i + 1;
    }
    r
}

/// Copies an expression tree.
pub fn clone_expr(e: &Expr) -> (r: Expr)
    ensures
        expr_equiv(*e, r),
    decreases *e,
{
    match e {
        Expr::NumLit(s) => Expr::NumLit(clone_chars(s)),
        Expr::StrLit(s) => Expr::StrLit(clone_chars(s)),
        Expr::Var(s) => Expr::Var(clone_chars(s)),
        Expr::Path(p) => Expr::Path(clone_segs(p)),
        Expr::Array(v) => Expr::Array(clone_exprs(v)),
        Expr::Attr(o, n) => Expr::Attr(Box::new(clone_expr(&**o)), clone_chars(n)),
        Expr::Filter(n, a) => Expr::Filter(clone_chars(n), clone_exprs(a)),
        Expr::Unary(o, x) => Expr::Unary(clone_chars(o), Box::new(clone_expr(&**x))),
        Expr::BinOp(o, l, x) => Expr::BinOp(
            clone_chars(o),
            Box::new(clone_expr(&**l)),
            Box::new(clone_expr(&**x)),
        ),
        Expr::Group(x) => Expr::Group(Box::new(clone_expr(&**x))),
        Expr::MethodCall(o, n, a) => Expr::MethodCall(
            Box::new(clone_expr(&**o)),
            clone_chars(n),
            clone_exprs(a),
        ),
    }
}

/// Copies a list of expressions.
pub fn clone_exprs(v: &Vec<Expr>) -> (r: Vec<Expr>)
    ensures
        exprs_equiv(v@, r@),
    decreases *v,
{
    let mut r: Vec<Expr> = Vec::new();
    let mut i: usize = 0;
    while i < v.len()
        invariant
            i <= v.len(),
            r@.len() == i,
            forall|j: int| 0 <= j < i ==> #[trigger] expr_equiv(v@[j], r@[j]),
        decreases v.len() - i,
    {
        r.push(clone_expr(&v[i]));
        i = i + 1;
    }
    proof {
        lemma_exprs_equiv_intro(v@, r@);
    }
    r
}

/// Copies an assignment target.
pub fn clone_target(t: &Target) -> (r: Target)
    ensures
        target_equiv(*t, r),
{
    match t {
        Target::Name(s) => Target::Name(clone_chars(s)),
    }
}

/// Copies a match variant.
pub fn clone_variant(v: &MatchVariant) -> (r: MatchVariant)
    ensures
        variant_equiv(*v, r),
{
    match v {
        MatchVariant::Path(p) => MatchVariant::Path(clone_segs(p)),
        MatchVariant::Name(s) => MatchVariant::Name(clone_chars(s)),
        MatchVariant::NumLit(s) => MatchVariant::NumLit(clone_chars(s)),
        MatchVariant::StrLit(s) => MatchVariant::StrLit(clone_chars(s)),
    }
}

/// Copies a match parameter.
pub fn clone_param(p: &MatchParameter) -> (r: MatchParameter)
    ensures
        param_equiv(*p, r),
{
    match p {
        MatchParameter::Name(s) => MatchParameter::Name(clone_chars(s)),
        MatchParameter::NumLit(s) => MatchParameter::NumLit(clone_chars(s)),
        MatchParameter::StrLit(s) => MatchParameter::StrLit(clone_chars(s)),
    }
}

/// Copies a list of match parameters.
pub fn clone_params(v: &Vec<MatchParameter>) -> (r: Vec<MatchParameter>)
    ensures
        r@.len() == v@.len(),
        forall|i: int| 0 <= i < v@.len() ==> #[trigger] param_equiv(v@[i], r@[i]),
{
    let mut r: Vec<MatchParameter> = Vec::new();
    let mut i: usize = 0;
    while i < v.len()
        invariant
            i <= v.len(),
            r@.len() == i,
            forall|j: int| 0 <= j < i ==> #[trigger] param_equiv(v@[j], r@[j]),
        decreases v.len() - i,
    {
        r.push(clone_param(&v[i]));
        i = i + 1;
    }
    r
}

/// Copies a node tree, preserving its size measure.
pub fn clone_node(n: &Node) -> (r: Node)
    ensures
        node_equiv(*n, r),
        node_size(r) == node_size(*n),
    decreases *n,
{
    match n {
        Node::Lit(a, b, c) => Node::Lit(clone_chars(a), clone_chars(b), clone_chars(c)),
        Node::Comment(ws) => Node::Comment(*ws),
        Node::Expr(ws, e) => Node::Expr(*ws, clone_expr(e)),
        Node::Call(ws, s, name, args) => Node::Call(
            *ws,
            clone_opt_chars(s),
            clone_chars(name),
            clone_exprs(args),
        ),
        Node::LetDecl(ws, t) => Node::LetDecl(*ws, clone_target(t)),
        Node::Let(ws, t, e) => Node::Let(*ws, clone_target(t), clone_expr(e)),
        Node::Cond(arms, ws) => Node::Cond(clone_conds(arms), *ws),
        Node::Match(ws, e, inter, arms, ws2) => Node::Match(
            *ws,
            clone_expr(e),
            clone_opt_chars(inter),
            clone_whens(arms),
            *ws2,
        ),
        Node::Loop(ws, t, e, body, ws2) => Node::Loop(
            *ws,
            clone_target(t),
            clone_expr(e),
            clone_nodes(body),
            *ws2,
        ),
        Node::Extends(e) => Node::Extends(clone_expr(e)),
        Node::BlockDef(ws, name, body, ws2) => Node::BlockDef(
            *ws,
            clone_chars(name),
            clone_nodes(body),
            *ws2,
        ),
        Node::Include(ws, p) => Node::Include(*ws, clone_chars(p)),
        Node::Import(ws, p, s) => Node::Import(*ws, clone_chars(p), clone_chars(s)),
        Node::Macro(name, m) => Node::Macro(clone_chars(name), clone_macro(m)),
    }
}

/// Copies a list of nodes, preserving its total size measure.
pub fn clone_nodes(v: &Vec<Node>) -> (r: Vec<Node>)
    ensures
        nodes_equiv(v@, r@),
        nodes_size(r@) == nodes_size(v@),
    decreases *v,
{
    let mut r: Vec<Node> = Vec::new();
    let mut i: usize = 0;
    while i < v.len()
        invariant
            i <= v.len(),
            r@.len() == i,
            forall|j: int| 0 <= j < i ==> #[trigger] node_equiv(v@[j], r@[j]),
            nodes_size(r@) == nodes_size(v@.take(i as int)),
        decreases v.len() - i,
    {
        let x = clone_node(&v[i]);
        proof {
            lemma_nodes_size_push(r@, x);
            lemma_nodes_size_push(v@.take(i as int), v@[i as int]);
            assert(v@.take(i as int).push(v@[i as int]) =~= v@.take(i + 1));
        }
        r.push(x);
        i = i + 1;
    }
    proof {
        assert(v@.take(v@.len() as int) =~= v@);
        lemma_nodes_equiv_intro(v@, r@);
    }
    r
}

/// Copies a list of conditional arms, preserving its total size measure.
pub fn clone_conds(v: &Vec<Cond>) -> (r: Vec<Cond>)
    ensures
        conds_equiv(v@, r@),
        conds_size(r@) == conds_size(v@),
    decreases *v,
{
    let mut r: Vec<Cond> = Vec::new();
    let mut i: usize = 0;
    while i < v.len()
        invariant
            i <= v.len(),
            r@.len() == i,
            forall|j: int| 0 <= j < i ==> #[trigger] cond_equiv(v@[j], r@[j]),
            conds_size(r@) == conds_size(v@.take(i as int)),
        decreases v.len() - i,
    {
        let arm = &v[i];
        let c: Option<Expr> = match &arm.1 {
            Option::None => Option::None,
            Option::Some(e) => Option::Some(clone_expr(e)),
        };
        let x: Cond = (arm.0, c, clone_nodes(&arm.2));
        proof {
            lemma_conds_size_push(r@, x);
            lemma_conds_size_push(v@.take(i as int), v@[i as int]);
            assert(v@.take(i as int).push(v@[i as int]) =~= v@.take(i + 1));
        }
        r.push(x);
        i = i + 1;
    }
    proof {
        assert(v@.take(v@.len() as int) =~= v@);
        lemma_conds_equiv_intro(v@, r@);
    }
    r
}

/// Copies a list of match arms, preserving its total size measure.
pub fn clone_whens(v: &Vec<When>) -> (r: Vec<When>)
    ensures
        whens_equiv(v@, r@),
        whens_size(r@) == whens_size(v@),
    decreases *v,
{
    let mut r: Vec<When> = Vec::new();
    let mut i: usize = 0;
    while i < v.len()
        invariant
            i <= v.len(),
            r@.len() == i,
            forall|j: int| 0 <= j < i ==> #[trigger] when_equiv(v@[j], r@[j]),
            whens_size(r@) == whens_size(v@.take(i as int)),
        decreases v.len() - i,
    {
        let arm = &v[i];
        let variant: Option<MatchVariant> = match &arm.1 {
            Option::None => Option::None,
            Option::Some(mv) => Option::Some(clone_variant(mv)),
        };
        let x: When = (arm.0, variant, clone_params(&arm.2), clone_nodes(&arm.3));
        proof {
            lemma_whens_size_push(r@, x);
            lemma_whens_size_push(v@.take(i as int), v@[i as int]);
            assert(v@.take(i as int).push(v@[i as int]) =~= v@.take(i + 1));
        }
        r.push(x);
        i = i + 1;
    }
    proof {
        assert(v@.take(v@.len() as int) =~= v@);
        lemma_whens_equiv_intro(v@, r@);
    }
    r
}

/// Copies a macro body, preserving the size measure of its node list.
pub fn clone_macro(m: &Macro) -> (r: Macro)
    ensures
        macro_equiv(*m, r),
        nodes_size(r.nodes@) == nodes_size(m.nodes@),
    decreases *m,
{
    Macro {
        ws1: m.ws1,
        args: clone_segs(&m.args),
        nodes: clone_nodes(&m.nodes),
        ws2: m.ws2,
    }
}

} // verus!
