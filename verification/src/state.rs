//! Per-template generation state: the parsed nodes, the flat list of block
//! definitions (top-level ones first, then nested ones found by a
//! breadth-first sweep), the macro table, and the synthesised trait name.
use vstd::prelude::*;

verus! {

use crate::ast::{
    clone_chars,
    clone_macro,
    clone_node,
    lemma_node_size_pos,
    lemma_nodes_size_add,
    lemma_nodes_size_push,
    macro_equiv,
    node_equiv,
    node_size,
    nodes_size,
    Expr,
    Macro,
    Node,
};
use crate::errors::GenError;
use crate::input::{loader_find, Loader, TemplateInput};
use crate::text::{chars_of, push_chars};

/// A lower-case hexadecimal digit.
pub open spec fn hex_digit(d: nat) -> char {
    if d == 0 {
        '0'
    } else if d == 1 {
        '1'
    } else if d == 2 {
        '2'
    } else if d == 3 {
        '3'
    } else if d == 4 {
        '4'
    } else if d == 5 {
        '5'
    } else if d == 6 {
        '6'
    } else if d == 7 {
        '7'
    } else if d == 8 {
        '8'
    } else if d == 9 {
        '9'
    } else if d == 10 {
        'a'
    } else if d == 11 {
        'b'
    } else if d == 12 {
        'c'
    } else if d == 13 {
        'd'
    } else if d == 14 {
        'e'
    } else {
        'f'
    }
}

/// The hexadecimal digits of `n`, most significant first, without leading
/// zeros (a single `0` for zero).
pub open spec fn hex_rep(n: nat) -> Seq<char>
    decreases n,
{
    if n < 16 {
        seq![hex_digit(n)]
    } else {
        hex_rep(n / 16).push(hex_digit(n % 16))
    }
}

/// The hexadecimal form of `n`, padded with leading zeros to at least four
/// digits.
pub open spec fn hex4(n: nat) -> Seq<char> {
    if hex_rep(n).len() >= 4 {
        hex_rep(n)
    } else {
        Seq::new((4 - hex_rep(n).len()) as nat, |i: int| '0') + hex_rep(n)
    }
}

/// An ASCII letter or digit.
pub open spec fn is_ascii_alnum(c: char) -> bool {
    ('a' <= c && c <= 'z') || ('A' <= c && c <= 'Z') || ('0' <= c && c <= '9')
}

/// The encoding of one path character: kept if alphanumeric, else the
/// hexadecimal form of its codepoint.
pub open spec fn enc1(c: char) -> Seq<char> {
    if is_ascii_alnum(c) {
        seq![c]
    } else {
        hex4((c as u32) as nat)
    }
}

/// The encoding of a whole path.
pub open spec fn trait_encode(s: Seq<char>) -> Seq<char>
    decreases s,
{
    if s.len() == 0 {
        Seq::empty()
    } else {
        enc1(s[0]) + trait_encode(s.drop_first())
    }
}

/// The trait identifier derived from a template path.
pub open spec fn trait_name_of(path: Seq<char>) -> Seq<char> {
    "TraitFrom"@ + trait_encode(path)
}

/// Path encoding distributes over extension by one character.
pub proof fn lemma_trait_encode_push(s: Seq<char>, x: char)
    ensures
        trait_encode(s.push(x)) == trait_encode(s) + enc1(x),
    decreases s.len(),
{
    if s.len() == 0 {
        assert(s.push(x).drop_first() =~= Seq::<char>::empty());
        assert(trait_encode(Seq::<char>::empty()) =~= Seq::<char>::empty());
        assert(enc1(s.push(x)[0]) + trait_encode(s.push(x).drop_first()) =~= enc1(x));
        assert(trait_encode(s) + enc1(x) =~= enc1(x));
    } else {
        lemma_trait_encode_push(s.drop_first(), x);
        assert(s.push(x).drop_first() =~= s.drop_first().push(x));
        assert(s.push(x)[0] == s[0]);
        assert(enc1(s[0]) + (trait_encode(s.drop_first()) + enc1(x)) =~= (enc1(s[0])
            + trait_encode(s.drop_first())) + enc1(x));
    }
}

/// Executable lower-case hexadecimal digit.
fn hex_digit_char(d: u32) -> (c: char)
    requires
        d < 16,
    ensures
        c == hex_digit(d as nat),
{
    if d == 0 {
        '0'
    } else if d == 1 {
        '1'
    } else if d == 2 {
        '2'
    } else if d == 3 {
        '3'
    } else if d == 4 {
        '4'
    } else if d == 5 {
        '5'
    } else if d == 6 {
        '6'
    } else if d == 7 {
        '7'
    } else if d == 8 {
        '8'
    } else if d == 9 {
        '9'
    } else if d == 10 {
        'a'
    } else if d == 11 {
        'b'
    } else if d == 12 {
        'c'
    } else if d == 13 {
        'd'
    } else if d == 14 {
        'e'
    } else {
        'f'
    }
}

/// Executable hexadecimal digits of `n`, most significant first.
fn hex_rep_vec(n: u32) -> (r: Vec<char>)
    ensures
        r@ == hex_rep(n as nat),
    decreases n,
{
    if n < 16 {
        let mut r: Vec<char> = Vec::new();
        r.push(hex_digit_char(n));
        proof {
            assert(r@ =~= hex_rep(n as nat));
        }
        r
    } else {
        let mut r = hex_rep_vec(n / 16);
        r.push(hex_digit_char(n % 16));
        r
    }
}

/// Executable hexadecimal form of `n`, padded to at least four digits.
fn hex4_of(n: u32) -> (r: Vec<char>)
    ensures
        r@ == hex4(n as nat),
{
    let core = hex_rep_vec(n);
    if core.len() >= 4 {
        return core;
    }
    let mut r: Vec<char> = Vec::new();
    let mut k: usize = core.len();
    while k < 4
        invariant
            core@.len() <= k <= 4,
            core@ == hex_rep(n as nat),
            r@ =~= Seq::new((k - core@.len()) as nat, |i: int| '0'),
        decreases 4 - k,
    {
        r.push('0');
        k = k + 1;
        proof {
            assert(r@ =~= Seq::new((k - core@.len()) as nat, |i: int| '0'));
        }
    }
    push_chars(&mut r, &core);
    r
}

/// Executable test matching `is_ascii_alnum`.
fn alnum_char(c: char) -> (r: bool)
    ensures
        r == is_ascii_alnum(c),
{
    ('a' <= c && c <= 'z') || ('A' <= c && c <= 'Z') || ('0' <= c && c <= '9')
}

/// Derives the trait identifier from a template path: a fixed prefix, then
/// the path with every non-alphanumeric character hex-escaped.
#[verifier::loop_isolation(false)]
pub fn trait_name_for_path(path: &Vec<char>) -> (r: Vec<char>)
    ensures
        r@ == trait_name_of(path@),
{
    let mut r = chars_of("TraitFrom");
    let mut i: usize = 0;
    proof {
        assert(path@.take(0) =~= Seq::<char>::empty());
    }
    while i < path.len()
        invariant
            i <= path@.len(),
            r@ == "TraitFrom"@ + trait_encode(path@.take(i as int)),
        decreases path@.len() - i,
    {
        let c = path[i];
        proof {
            lemma_trait_encode_push(path@.take(i as int), path@[i as int]);
            assert(path@.take(i as int).push(path@[i as int]) =~= path@.take(i + 1));
        }
        if alnum_char(c) {
            r.push(c);
            proof {
                assert(r@ =~= "TraitFrom"@ + trait_encode(path@.take(i + 1)));
            }
        } else {
            let h = hex4_of(c as u32);
            push_chars(&mut r, &h);
            proof {
                assert(r@ =~= "TraitFrom"@ + trait_encode(path@.take(i + 1)));
            }
        }
        i = i + 1;
    }
    proof {
        assert(path@.take(path@.len() as int) =~= path@);
    }
    r
}

/// The `extends` path of a node, when the node is an `extends` directive
/// whose expression is a string literal.
pub open spec fn ext_path_of(n: Node) -> Option<Vec<char>> {
    match n {
        Node::Extends(e) => match e {
            Expr::StrLit(p) => Option::Some(p),
            _ => Option::None,
        },
        _ => Option::None,
    }
}

/// The macro table entry a node contributes, when it is a macro definition.
pub open spec fn macro_entry_of(n: Node) -> Option<(Vec<char>, Macro)> {
    match n {
        Node::Macro(name, m) => Option::Some((name, m)),
        _ => Option::None,
    }
}

/// How many `extends` directives a node sequence holds.
pub open spec fn count_extends(s: Seq<Node>) -> nat
    decreases s,
{
    if s.len() == 0 {
        0
    } else {
        (if ext_path_of(s[0]) is Some {
            1nat
        } else {
            0nat
        }) + count_extends(s.drop_first())
    }
}

/// The path of the first `extends` directive in a node sequence.
pub open spec fn first_extends(s: Seq<Node>) -> Option<Vec<char>>
    decreases s,
{
    if s.len() == 0 {
        Option::None
    } else if ext_path_of(s[0]) is Some {
        ext_path_of(s[0])
    } else {
        first_extends(s.drop_first())
    }
}

/// The block definitions of a node sequence, in order.
pub open spec fn top_blocks(s: Seq<Node>) -> Seq<Node>
    decreases s,
{
    if s.len() == 0 {
        Seq::empty()
    } else if s[0] is BlockDef {
        seq![s[0]] + top_blocks(s.drop_first())
    } else {
        top_blocks(s.drop_first())
    }
}

/// Every block definition directly inside this block's body has an
/// equivalent entry in the flat block list.
pub open spec fn def_collected(n: Node, blocks: Seq<Node>) -> bool {
    match n {
        Node::BlockDef(_, _, body, _) => forall|k: int|
            0 <= k < body@.len() && (#[trigger] body@[k]) is BlockDef ==> exists|m: int|
                0 <= m < blocks.len() && node_equiv(body@[k], #[trigger] blocks[m]),
        _ => true,
    }
}

/// The macro definitions of a node sequence, in order, as table entries.
pub open spec fn local_macros(s: Seq<Node>) -> Seq<(Vec<char>, Macro)>
    decreases s,
{
    if s.len() == 0 {
        Seq::empty()
    } else {
        match macro_entry_of(s[0]) {
            Option::Some(e) => seq![e] + local_macros(s.drop_first()),
            Option::None => local_macros(s.drop_first()),
        }
    }
}

/// The node scans distribute over extension by one node.
pub proof fn lemma_scan_push(s: Seq<Node>, x: Node)
    ensures
        count_extends(s.push(x)) == count_extends(s) + (if ext_path_of(x) is Some {
            1nat
        } else {
            0nat
        }),
        first_extends(s.push(x)) == (if first_extends(s) is Some {
            first_extends(s)
        } else {
            ext_path_of(x)
        }),
        top_blocks(s.push(x)) == (if x is BlockDef {
            top_blocks(s).push(x)
        } else {
            top_blocks(s)
        }),
        local_macros(s.push(x)) == (match macro_entry_of(x) {
            Option::Some(e) => local_macros(s).push(e),
            Option::None => local_macros(s),
        }),
    decreases s.len(),
{
    if s.len() == 0 {
        assert(s.push(x)[0] == x);
        assert(s.push(x).drop_first() =~= Seq::<Node>::empty());
        assert(s =~= Seq::<Node>::empty());
        assert(count_extends(Seq::<Node>::empty()) == 0);
        assert(first_extends(Seq::<Node>::empty()) is None);
        assert(count_extends(s.push(x)) == (if ext_path_of(x) is Some {
            1nat
        } else {
            0nat
        }) + count_extends(s.push(x).drop_first()));
        if x is BlockDef {
            assert(seq![x] + top_blocks(Seq::<Node>::empty()) =~= top_blocks(s).push(x));
        }
        match macro_entry_of(x) {
            Option::Some(e) => {
                assert(seq![e] + local_macros(Seq::<Node>::empty()) =~= local_macros(s).push(e));
            },
            Option::None => {},
        }
    } else {
        lemma_scan_push(s.drop_first(), x);
        assert(s.push(x).drop_first() =~= s.drop_first().push(x));
        assert(s.push(x)[0] == s[0]);
        if s[0] is BlockDef {
            if x is BlockDef {
                assert(seq![s[0]] + top_blocks(s.drop_first()).push(x) =~= (seq![s[0]]
                    + top_blocks(s.drop_first())).push(x));
            }
        }
        match macro_entry_of(s[0]) {
            Option::Some(e0) => {
                match macro_entry_of(x) {
                    Option::Some(e) => {
                        assert(seq![e0] + local_macros(s.drop_first()).push(e) =~= (seq![e0]
                            + local_macros(s.drop_first())).push(e));
                    },
                    Option::None => {},
                }
            },
            Option::None => {},
        }
    }
}

/// Extends-counting distributes over concatenation.
pub proof fn lemma_count_extends_add(a: Seq<Node>, b: Seq<Node>)
    ensures
        count_extends(a + b) == count_extends(a) + count_extends(b),
    decreases a.len(),
{
    if a.len() == 0 {
        assert(a + b =~= b);
    } else {
        lemma_count_extends_add(a.drop_first(), b);
        assert((a + b).drop_first() =~= a.drop_first() + b);
        assert((a + b)[0] == a[0]);
    }
}

/// One template compilation's assembled state.
pub struct State {
    /// The host type description and configuration.
    pub input: TemplateInput,
    /// The parsed root node sequence.
    pub nodes: Vec<Node>,
    /// The flat list of block definitions: the template's own, then nested
    /// ones in breadth-first discovery order.
    pub blocks: Vec<Node>,
    /// The macro table: local macros (scope `None`), then imported ones.
    /// Lookups search from the end, so a later entry shadows an earlier one
    /// of the same key.
    pub macros: Vec<(Option<Vec<char>>, Vec<char>, Macro)>,
    /// The synthesised trait identifier.
    pub trait_name: Vec<char>,
    /// True iff the template extends another.
    pub derived: bool,
    /// The template loader table.
    pub loader: Loader,
    /// The names of the built-in filters.
    pub filters: Vec<Vec<char>>,
}

impl State {
    /// Assembles generation state from a parsed template: finds the single
    /// `extends` directive if any, collects block definitions (nested ones by
    /// a breadth-first sweep), fills the macro table with local then imported
    /// macros, and derives the trait name from the extended template's
    /// resolved path, or from the template's own path.
    #[verifier::loop_isolation(false)]
    pub fn new(
        input: TemplateInput,
        nodes: Vec<Node>,
        imported: Vec<(Option<Vec<char>>, Vec<char>, Macro)>,
        loader: Loader,
        filters: Vec<Vec<char>>,
    ) -> (r: Result<State, GenError>)
        ensures
            r == Err::<State, GenError>(GenError::MultipleExtends) <==> count_extends(nodes@) >= 2,
            r matches Ok(st) ==> {
                &&& st.nodes == nodes
                &&& st.input == input
                &&& st.loader == loader
                &&& st.filters == filters
                &&& st.derived == (count_extends(nodes@) == 1)
                &&& st.blocks@.len() >= top_blocks(nodes@).len()
                &&& (forall|j: int|
                    0 <= j < top_blocks(nodes@).len() ==> #[trigger] node_equiv(
                        top_blocks(nodes@)[j],
                        st.blocks@[j],
                    ))
                &&& (forall|j: int| 0 <= j < st.blocks@.len() ==> #[trigger] st.blocks@[j] is BlockDef)
                &&& (forall|j: int|
                    0 <= j < st.blocks@.len() ==> def_collected(
                        #[trigger] st.blocks@[j],
                        st.blocks@,
                    ))
                &&& st.macros@.len() == local_macros(nodes@).len() + imported@.len()
                &&& (forall|j: int|
                    0 <= j < local_macros(nodes@).len() ==> (#[trigger] st.macros@[j].0) is None
                        && st.macros@[j].1@ == local_macros(nodes@)[j].0@ && macro_equiv(
                        local_macros(nodes@)[j].1,
                        st.macros@[j].2,
                    ))
                &&& st.macros@.subrange(
                    local_macros(nodes@).len() as int,
                    st.macros@.len() as int,
                ) == imported@
                &&& (count_extends(nodes@) == 0 ==> st.trait_name@ == trait_name_of(
                    st.input.path@,
                ))
                &&& (count_extends(nodes@) == 1 ==> (first_extends(nodes@) matches Option::Some(p)
                    && loader_find(st.loader.entries@, p@) matches Option::Some(f)
                    && st.trait_name@ == trait_name_of(f.0@)))
            },
            r == Err::<State, GenError>(GenError::TemplateNotFound) <==> (count_extends(nodes@)
                == 1 && (first_extends(nodes@) matches Option::Some(p) && loader_find(
                loader.entries@,
                p@,
            ) is None)),
            r is Err ==> (r == Err::<State, GenError>(GenError::MultipleExtends) || r == Err::<
                State,
                GenError,
            >(GenError::TemplateNotFound)),
    {
        let mut base: Option<Vec<char>> = None;
        let mut blocks: Vec<Node> = Vec::new();
        let mut macros: Vec<(Option<Vec<char>>, Vec<char>, Macro)> = Vec::new();
        let mut i: usize = 0;
        proof {
            assert(nodes@.take(0) =~= Seq::<Node>::empty());
        }
        while i < nodes.len()
            invariant
                i <= nodes@.len(),
                count_extends(nodes@.take(i as int)) <= 1,
                base is Some <==> count_extends(nodes@.take(i as int)) == 1,
                match (base, first_extends(nodes@.take(i as int))) {
                    (Option::None, Option::None) => true,
                    (Option::Some(a), Option::Some(b)) => a@ == b@,
                    _ => false,
                },
                blocks@.len() == top_blocks(nodes@.take(i as int)).len(),
                forall|j: int|
                    0 <= j < blocks@.len() ==> #[trigger] node_equiv(
                        top_blocks(nodes@.take(i as int))[j],
                        blocks@[j],
                    ),
                forall|j: int| 0 <= j < blocks@.len() ==> #[trigger] blocks@[j] is BlockDef,
                macros@.len() == local_macros(nodes@.take(i as int)).len(),
                forall|j: int|
                    0 <= j < macros@.len() ==> (#[trigger] macros@[j].0) is None && macros@[j].1@
                        == local_macros(nodes@.take(i as int))[j].0@ && macro_equiv(
                        local_macros(nodes@.take(i as int))[j].1,
                        macros@[j].2,
                    ),
            decreases nodes@.len() - i,
        {
            proof {
                lemma_scan_push(nodes@.take(i as int), nodes@[i as int]);
                assert(nodes@.take(i as int).push(nodes@[i as int]) =~= nodes@.take(i + 1));
            }
            match &nodes[i] {
                Node::Extends(e) => {
                    match e {
                        Expr::StrLit(path) => {
                            if base.is_some() {
                                proof {
                                    assert(count_extends(nodes@.take(i + 1)) == 2);
                                    assert(nodes@.take(i + 1) + nodes@.skip(i + 1) =~= nodes@);
                                    lemma_count_extends_add(nodes@.take(i + 1), nodes@.skip(i + 1));
                                }
                                return Err(GenError::MultipleExtends);
                            }
                            base = Some(clone_chars(path));
                        },
                        _ => {},
                    }
                },
                Node::BlockDef(_, _, _, _) => {
                    let c = clone_node(&nodes[i]);
                    blocks.push(c);
                },
                Node::Macro(name, m) => {
                    macros.push((None, clone_chars(name), clone_macro(m)));
                },
                _ => {},
            }
            i = i + 1;
        }
        proof {
            assert(nodes@.take(nodes@.len() as int) =~= nodes@);
        }
        // the macro table: local macros first, then the imported ones
        let ghost n_local = macros@.len() as int;
        let mut imp = imported;
        macros.append(&mut imp);
        proof {
            assert(macros@.subrange(n_local, macros@.len() as int) =~= imported@);
        }
        // the trait name, from the extended template's resolved path when the
        // template is derived, else from its own path
        let derived = base.is_some();
        let trait_name: Vec<char> = match &base {
            Some(user_path) => {
                match loader.get(user_path) {
                    Some((resolved, _src)) => trait_name_for_path(&resolved),
                    None => {
                        return Err(GenError::TemplateNotFound);
                    },
                }
            },
            None => trait_name_for_path(&input.path),
        };
        // the breadth-first sweep hoisting nested block definitions into the
        // flat list
        let mut check: usize = 0;
        while check < blocks.len()
            invariant
                check <= blocks@.len(),
                blocks@.len() >= top_blocks(nodes@).len(),
                forall|j: int|
                    0 <= j < top_blocks(nodes@).len() ==> #[trigger] node_equiv(
                        top_blocks(nodes@)[j],
                        blocks@[j],
                    ),
                forall|j: int| 0 <= j < blocks@.len() ==> #[trigger] blocks@[j] is BlockDef,
                forall|j: int|
                    0 <= j < check ==> def_collected(#[trigger] blocks@[j], blocks@),
            decreases nodes_size(blocks@.subrange(check as int, blocks@.len() as int)),
        {
            let ghost old_blocks = blocks@;
            let ghost old_check = check as int;
            let mut nested: Vec<Node> = Vec::new();
            let ghost mut body_view: Seq<Node> = Seq::empty();
            match &blocks[check] {
                Node::BlockDef(_, _, body, _) => {
                    proof {
                        body_view = body@;
                    }
                    let mut j: usize = 0;
                    proof {
                        assert(body@.take(0) =~= Seq::<Node>::empty());
                    }
                    while j < body.len()
                        invariant
                            j <= body@.len(),
                            nodes_size(nested@) <= nodes_size(body@.take(j as int)),
                            forall|k: int|
                                0 <= k < nested@.len() ==> #[trigger] nested@[k] is BlockDef,
                            forall|k: int|
                                0 <= k < j && (#[trigger] body@[k]) is BlockDef ==> exists|m2: int|
                                    0 <= m2 < nested@.len() && node_equiv(
                                        body@[k],
                                        #[trigger] nested@[m2],
                                    ),
                        decreases body@.len() - j,
                    {
                        proof {
                            lemma_nodes_size_push(body@.take(j as int), body@[j as int]);
                            assert(body@.take(j as int).push(body@[j as int]) =~= body@.take(
                                j + 1,
                            ));
                            lemma_node_size_pos(body@[j as int]);
                        }
                        let ghost nested0 = nested@;
                        match &body[j] {
                            Node::BlockDef(_, _, _, _) => {
                                let c = clone_node(&body[j]);
                                proof {
                                    lemma_nodes_size_push(nested@, c);
                                }
                                nested.push(c);
                                proof {
                                    assert(nested@[nested@.len() - 1] == c);
                                    assert(node_equiv(body@[j as int], nested@[nested@.len() - 1]));
                                }
                            },
                            _ => {},
                        }
                        proof {
                            assert forall|k: int|
                                0 <= k < j + 1 && (#[trigger] body@[k]) is BlockDef implies exists|
                                m2: int,
                            |
                                0 <= m2 < nested@.len() && node_equiv(
                                    body@[k],
                                    #[trigger] nested@[m2],
                                ) by {
                                if k < j {
                                    let m2 = choose|m2: int|
                                        0 <= m2 < nested0.len() && node_equiv(
                                            body@[k],
                                            #[trigger] nested0[m2],
                                        );
                                    assert(nested@[m2] == nested0[m2]);
                                    assert(node_equiv(body@[k], nested@[m2]));
                                }
                            }
                        }
                        j = j + 1;
                    }
                    proof {
                        assert(body@.take(body@.len() as int) =~= body@);
                        assert(node_size(old_blocks[old_check]) == 1 + nodes_size(body@));
                        assert(nodes_size(nested@) < node_size(old_blocks[old_check]));
                    }
                },
                _ => {
                    proof {
                        assert(false);
                    }
                },
            }
            let ghost nested_view = nested@;
            blocks.append(&mut nested);
            check = check + 1;
            proof {
                let s_old = old_blocks.subrange(old_check, old_blocks.len() as int);
                let s_new = blocks@.subrange(check as int, blocks@.len() as int);
                assert(s_old[0] == old_blocks[old_check]);
                assert(s_old.drop_first() =~= old_blocks.subrange(
                    old_check + 1,
                    old_blocks.len() as int,
                ));
                assert(s_new =~= old_blocks.subrange(old_check + 1, old_blocks.len() as int)
                    + nested_view);
                lemma_nodes_size_add(
                    old_blocks.subrange(old_check + 1, old_blocks.len() as int),
                    nested_view,
                );
                // the processed block's nested definitions now stand in the
                // list, and earlier entries keep their witnesses
                assert forall|j: int|
                    0 <= j < check implies def_collected(#[trigger] blocks@[j], blocks@) by {
                    assert(blocks@[j] == old_blocks[j]);
                    if j < old_check {
                        match old_blocks[j] {
                            Node::BlockDef(_, _, bd, _) => {
                                assert forall|k: int|
                                    0 <= k < bd@.len() && (#[trigger] bd@[k]) is BlockDef implies
                                    exists|m: int|
                                        0 <= m < blocks@.len() && node_equiv(
                                            bd@[k],
                                            #[trigger] blocks@[m],
                                        ) by {
                                    assert(def_collected(old_blocks[j], old_blocks));
                                    let m = choose|m: int|
                                        0 <= m < old_blocks.len() && node_equiv(
                                            bd@[k],
                                            #[trigger] old_blocks[m],
                                        );
                                    assert(blocks@[m] == old_blocks[m]);
                                    assert(node_equiv(bd@[k], blocks@[m]));
                                }
                            },
                            _ => {},
                        }
                    } else {
                        match old_blocks[j] {
                            Node::BlockDef(_, _, bd, _) => {
                                assert(bd@ == body_view);
                                assert forall|k: int|
                                    0 <= k < bd@.len() && (#[trigger] bd@[k]) is BlockDef implies
                                    exists|m: int|
                                        0 <= m < blocks@.len() && node_equiv(
                                            bd@[k],
                                            #[trigger] blocks@[m],
                                        ) by {
                                    let m2 = choose|m2: int|
                                        0 <= m2 < nested_view.len() && node_equiv(
                                            body_view[k],
                                            #[trigger] nested_view[m2],
                                        );
                                    assert(blocks@[old_blocks.len() + m2] == nested_view[m2]);
                                    assert(node_equiv(bd@[k], blocks@[old_blocks.len() + m2]));
                                }
                            },
                            _ => {},
                        }
                    }
                }
            }
        }
        Ok(
            State {
                input,
                nodes,
                blocks,
                macros,
                trait_name,
                derived,
                loader,
                filters,
            },
        )
    }
}

} // verus!
