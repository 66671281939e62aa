//! The code generator: walks the parsed template and emits Rust source text
//! that renders the template into a caller-provided sink, with inheritance,
//! macros, includes, scoping, auto-escaping and whitespace control.
use vstd::prelude::*;

verus! {

use crate::ast::{
    clone_chars,
    conds_size,
    lemma_conds_size_elem,
    lemma_nodes_size_elem,
    lemma_whens_size_elem,
    nodes_size,
    whens_size,
    Cond,
    Expr,
    Macro,
    MatchParameter,
    MatchVariant,
    Node,
    Target,
    When,
    WS,
};
use crate::errors::GenError;
use crate::input::EscapeMode;
use crate::state::State;
use crate::text::{chars_of, contains_seq, push_chars, push_str};

/// One scope holds `name` iff some entry equals it.
pub open spec fn set_has(scope: Seq<Vec<char>>, name: Seq<char>) -> bool {
    exists|i: int| 0 <= i < scope.len() && #[trigger] scope[i]@ == name
}

/// A stack of name scopes with an optional flattened parent set, used for
/// template-local names: lookups walk the scopes and then the parent set,
/// insertions go to the topmost scope.
pub struct SetChain {
    /// All names visible from an enclosing chain, flattened.
    pub parent: Option<Vec<Vec<char>>>,
    /// The scope stack; the last entry is the innermost scope.
    pub scopes: Vec<Vec<Vec<char>>>,
}

impl SetChain {
    /// A chain always keeps at least one scope.
    pub open spec fn wf(&self) -> bool {
        self.scopes@.len() >= 1
    }

    /// The number of scopes on the stack.
    pub open spec fn depth(&self) -> nat {
        self.scopes@.len()
    }

    /// Membership: in some scope, or in the parent set.
    pub open spec fn spec_contains(&self, name: Seq<char>) -> bool {
        (exists|i: int|
            0 <= i < self.scopes@.len() && set_has(#[trigger] self.scopes@[i]@, name)) || (
        match self.parent {
            Option::Some(p) => set_has(p@, name),
            Option::None => false,
        })
    }

    /// A fresh chain with one empty scope and no parent.
    pub fn new() -> (r: SetChain)
        ensures
            r.wf(),
            r.depth() == 1,
            r.parent is None,
            forall|n: Seq<char>| !r.spec_contains(n),
    {
        let mut scopes: Vec<Vec<Vec<char>>> = Vec::new();
        scopes.push(Vec::new());
        SetChain { parent: None, scopes }
    }

    /// A fresh chain whose parent set holds exactly the names visible in
    /// `parent`, with one empty scope of its own.
    #[verifier::loop_isolation(false)]
    pub fn with_parent(parent: &SetChain) -> (r: SetChain)
        ensures
            r.wf(),
            r.depth() == 1,
            forall|n: Seq<char>| r.spec_contains(n) <==> parent.spec_contains(n),
    {
        let mut flat: Vec<Vec<char>> = Vec::new();
        let mut i: usize = 0;
        while i < parent.scopes.len()
            invariant
                i <= parent.scopes@.len(),
                forall|n: Seq<char>| #![trigger set_has(flat@, n)]
                    set_has(flat@, n) <==> exists|k: int|
                        0 <= k < i && set_has(#[trigger] parent.scopes@[k]@, n),
            decreases parent.scopes@.len() - i,
        {
            let scope = &parent.scopes[i];
            let ghost flat0 = flat@;
            let mut j: usize = 0;
            while j < scope.len()
                invariant
                    j <= scope@.len(),
                    forall|n: Seq<char>|
                        #![trigger set_has(flat@, n)]
                        #![trigger set_has(flat0, n)]
                        set_has(flat@, n) <==> set_has(flat0, n) || (exists|k: int|
                            0 <= k < j && #[trigger] scope@[k]@ == n),
                decreases scope@.len() - j,
            {
                let ghost before = flat@;
                flat.push(crate::ast::clone_chars(&scope[j]));
                proof {
                    assert forall|n: Seq<char>|
                        #![trigger set_has(flat@, n)]
                        #![trigger set_has(flat0, n)]
                        set_has(flat@, n) <==> set_has(flat0, n) || (exists|k: int|
                            0 <= k < j + 1 && #[trigger] scope@[k]@ == n) by {
                        if set_has(flat@, n) {
                            let w = choose|w: int| 0 <= w < flat@.len() && flat@[w]@ == n;
                            if w < before.len() {
                                assert(before[w]@ == n);
                                assert(set_has(before, n));
                                if !set_has(flat0, n) {
                                    let k = choose|k: int|
                                        0 <= k < j && #[trigger] scope@[k]@ == n;
                                    assert(0 <= k < j + 1 && scope@[k]@ == n);
                                }
                            } else {
                                assert(flat@[w]@ == scope@[j as int]@);
                                assert(0 <= j < j + 1 && scope@[j as int]@ == n);
                            }
                        }
                        if set_has(flat0, n) {
                            assert(set_has(before, n));
                            let w = choose|w: int| 0 <= w < before.len() && before[w]@ == n;
                            assert(flat@[w]@ == n);
                            assert(set_has(flat@, n));
                        }
                        if exists|k: int| 0 <= k < j + 1 && #[trigger] scope@[k]@ == n {
                            let k = choose|k: int| 0 <= k < j + 1 && #[trigger] scope@[k]@ == n;
                            if k < j {
                                assert(set_has(before, n));
                                let w = choose|w: int| 0 <= w < before.len() && before[w]@ == n;
                                assert(flat@[w]@ == n);
                            } else {
                                assert(flat@[flat@.len() - 1]@ == n);
                            }
                            assert(set_has(flat@, n));
                        }
                    }
                }
                j = j + 1;
            }
            proof {
                assert forall|n: Seq<char>|
                    set_has(flat@, n) <==> exists|k: int|
                        0 <= k < i + 1 && set_has(#[trigger] parent.scopes@[k]@, n) by {
                    if set_has(flat@, n) {
                        if set_has(flat0, n) {
                            let k = choose|k: int|
                                0 <= k < i && set_has(#[trigger] parent.scopes@[k]@, n);
                            assert(0 <= k < i + 1 && set_has(parent.scopes@[k]@, n));
                        } else {
                            let w = choose|w: int|
                                0 <= w < scope@.len() && #[trigger] scope@[w]@ == n;
                            assert(set_has(parent.scopes@[i as int]@, n));
                        }
                    }
                    if exists|k: int| 0 <= k < i + 1 && set_has(#[trigger] parent.scopes@[k]@, n) {
                        let k = choose|k: int|
                            0 <= k < i + 1 && set_has(#[trigger] parent.scopes@[k]@, n);
                        if k < i {
                            assert(set_has(flat0, n));
                            assert(set_has(flat@, n));
                        } else {
                            assert(k == i);
                            assert(scope@ == parent.scopes@[i as int]@);
                            assert(set_has(scope@, n));
                            let w = choose|w: int|
                                0 <= w < scope@.len() && #[trigger] scope@[w]@ == n;
                            assert(0 <= w < j && scope@[w]@ == n);
                            assert(set_has(flat@, n));
                        }
                    }
                }
            }
            i = i + 1;
        }
        let ghost g1 = flat@;
        proof {
            assert(forall|n: Seq<char>| #![trigger set_has(g1, n)]
                set_has(g1, n) <==> exists|k: int|
                    0 <= k < parent.scopes@.len() && set_has(#[trigger] parent.scopes@[k]@, n));
        }
        // the enclosing chain's own parent set is folded in as well
        match &parent.parent {
            Some(pp) => {
                let mut j: usize = 0;
                while j < pp.len()
                    invariant
                        j <= pp@.len(),
                        forall|n: Seq<char>|
                            #![trigger set_has(flat@, n)]
                            #![trigger set_has(g1, n)]
                            set_has(flat@, n) <==> set_has(g1, n) || (exists|k: int|
                                0 <= k < j && #[trigger] pp@[k]@ == n),
                    decreases pp@.len() - j,
                {
                    let ghost before = flat@;
                    flat.push(crate::ast::clone_chars(&pp[j]));
                    proof {
                        assert forall|n: Seq<char>|
                            #![trigger set_has(flat@, n)]
                            #![trigger set_has(g1, n)]
                            set_has(flat@, n) <==> set_has(g1, n) || (exists|k: int|
                                0 <= k < j + 1 && #[trigger] pp@[k]@ == n) by {
                            if set_has(flat@, n) {
                                let w = choose|w: int| 0 <= w < flat@.len() && flat@[w]@ == n;
                                if w < before.len() {
                                    assert(before[w]@ == n);
                                    assert(set_has(before, n));
                                    if !set_has(g1, n) {
                                        let k = choose|k: int|
                                            0 <= k < j && #[trigger] pp@[k]@ == n;
                                        assert(0 <= k < j + 1 && pp@[k]@ == n);
                                    }
                                } else {
                                    assert(flat@[w]@ == pp@[j as int]@);
                                    assert(0 <= j < j + 1 && pp@[j as int]@ == n);
                                }
                            }
                            if set_has(g1, n) {
                                assert(set_has(before, n));
                                let w = choose|w: int| 0 <= w < before.len() && before[w]@ == n;
                                assert(flat@[w]@ == n);
                                assert(set_has(flat@, n));
                            }
                            if exists|k: int| 0 <= k < j + 1 && #[trigger] pp@[k]@ == n {
                                let k = choose|k: int| 0 <= k < j + 1 && #[trigger] pp@[k]@ == n;
                                if k < j {
                                    assert(set_has(before, n));
                                    let w = choose|w: int|
                                        0 <= w < before.len() && before[w]@ == n;
                                    assert(flat@[w]@ == n);
                                } else {
                                    assert(flat@[flat@.len() - 1]@ == n);
                                }
                                assert(set_has(flat@, n));
                            }
                        }
                    }
                    j = j + 1;
                }
                proof {
                    assert forall|n: Seq<char>|
                        set_has(flat@, n) <==> parent.spec_contains(n) by {
                        if parent.spec_contains(n) {
                            if exists|i: int|
                                0 <= i < parent.scopes@.len() && set_has(
                                    #[trigger] parent.scopes@[i]@,
                                    n,
                                ) {
                                assert(set_has(g1, n));
                            } else {
                                let w = choose|w: int|
                                    0 <= w < pp@.len() && #[trigger] pp@[w]@ == n;
                                assert(0 <= w < pp@.len() && pp@[w]@ == n);
                                assert(exists|k: int|
                                    0 <= k < pp@.len() && #[trigger] pp@[k]@ == n);
                            }
                        }
                        if set_has(flat@, n) {
                            if !set_has(g1, n) {
                                let w = choose|k: int|
                                    0 <= k < pp@.len() && #[trigger] pp@[k]@ == n;
                                assert(set_has(pp@, n));
                            }
                        }
                    }
                }
            },
            None => {
                proof {
                    assert forall|n: Seq<char>|
                        set_has(flat@, n) <==> parent.spec_contains(n) by {
                    }
                }
            },
        }
        let ghost gf = flat@;
        let mut scopes: Vec<Vec<Vec<char>>> = Vec::new();
        scopes.push(Vec::new());
        let r = SetChain { parent: Some(flat), scopes };
        proof {
            assert forall|n: Seq<char>| r.spec_contains(n) <==> parent.spec_contains(n) by {
                assert(r.scopes@.len() == 1);
                assert(r.scopes@[0]@.len() == 0);
                if exists|i: int| 0 <= i < r.scopes@.len() && set_has(#[trigger] r.scopes@[i]@, n) {
                    let i = choose|i: int|
                        0 <= i < r.scopes@.len() && set_has(#[trigger] r.scopes@[i]@, n);
                    let w = choose|w: int|
                        0 <= w < r.scopes@[i]@.len() && #[trigger] r.scopes@[i]@[w]@ == n;
                    assert(false);
                }
                assert(r.parent->Some_0@ == gf);
                assert(set_has(gf, n) <==> parent.spec_contains(n));
            }
        }
        r
    }

    /// True iff `val` is visible in the chain.
    pub fn contains(&self, val: &Vec<char>) -> (r: bool)
        ensures
            r == self.spec_contains(val@),
    {
        let mut i: usize = 0;
        while i < self.scopes.len()
            invariant
                i <= self.scopes@.len(),
                forall|k: int| 0 <= k < i ==> !set_has(#[trigger] self.scopes@[k]@, val@),
            decreases self.scopes@.len() - i,
        {
            if Self::scope_has(&self.scopes[i], val) {
                return true;
            }
            i = i + 1;
        }
        match &self.parent {
            Some(p) => Self::scope_has(p, val),
            None => false,
        }
    }

    /// True iff one scope holds `val`.
    fn scope_has(scope: &Vec<Vec<char>>, val: &Vec<char>) -> (r: bool)
        ensures
            r == set_has(scope@, val@),
    {
        let mut j: usize = 0;
        while j < scope.len()
            invariant
                j <= scope@.len(),
                forall|k: int| 0 <= k < j ==> #[trigger] scope@[k]@ != val@,
            decreases scope@.len() - j,
        {
            if crate::text::chars_eq(&scope[j], val) {
                return true;
            }
            j = j + 1;
        }
        false
    }

    /// Adds `val` to the topmost scope.
    pub fn insert(&mut self, val: Vec<char>)
        requires
            old(self).wf(),
        ensures
            final(self).wf(),
            final(self).parent == old(self).parent,
            final(self).depth() == old(self).depth(),
            final(self).scopes@.len() == old(self).scopes@.len(),
            forall|k: int|
                0 <= k < old(self).scopes@.len() - 1 ==> final(self).scopes@[k] == old(
                    self,
                ).scopes@[k],
            final(self).scopes@.last()@ == old(self).scopes@.last()@.push(val),
            forall|n: Seq<char>|
                final(self).spec_contains(n) <==> old(self).spec_contains(n) || n == val@,
    {
        let ghost old_chain = *self;
        let mut top = match self.scopes.pop() {
            Some(t) => t,
            None => {
                proof {
                    assert(false);
                }
                Vec::new()
            },
        };
        top.push(val);
        self.scopes.push(top);
        proof {
            assert(final(self).scopes@.last()@ =~= old_chain.scopes@.last()@.push(val));
            assert forall|n: Seq<char>|
                final(self).spec_contains(n) <==> old_chain.spec_contains(n) || n == val@ by {
                let s_new = final(self).scopes@;
                let s_old = old_chain.scopes@;
                let last = s_old.len() - 1;
                if final(self).spec_contains(n) {
                    if exists|i: int| 0 <= i < s_new.len() && set_has(#[trigger] s_new[i]@, n) {
                        let i = choose|i: int|
                            0 <= i < s_new.len() && set_has(#[trigger] s_new[i]@, n);
                        if i < last {
                            assert(set_has(s_old[i]@, n));
                        } else {
                            let w = choose|w: int|
                                0 <= w < s_new[last]@.len() && #[trigger] s_new[last]@[w]@ == n;
                            if w < s_old[last]@.len() {
                                assert(s_old[last]@[w]@ == n);
                                assert(set_has(s_old[last]@, n));
                            } else {
                                assert(n == val@);
                            }
                        }
                    }
                }
                if old_chain.spec_contains(n) {
                    if exists|i: int| 0 <= i < s_old.len() && set_has(#[trigger] s_old[i]@, n) {
                        let i = choose|i: int|
                            0 <= i < s_old.len() && set_has(#[trigger] s_old[i]@, n);
                        if i < last {
                            assert(set_has(s_new[i]@, n));
                        } else {
                            let w = choose|w: int|
                                0 <= w < s_old[last]@.len() && #[trigger] s_old[last]@[w]@ == n;
                            assert(s_new[last]@[w]@ == n);
                            assert(set_has(s_new[last]@, n));
                        }
                    }
                }
                if n == val@ {
                    assert(s_new[last]@[s_new[last]@.len() - 1]@ == n);
                    assert(set_has(s_new[last]@, n));
                }
            }
        }
    }

    /// Opens a fresh scope.
    pub fn push(&mut self)
        ensures
            final(self).wf(),
            final(self).parent == old(self).parent,
            final(self).depth() == old(self).depth() + 1,
            final(self).scopes@.drop_last() == old(self).scopes@,
            final(self).scopes@.last()@.len() == 0,
    {
        self.scopes.push(Vec::new());
        proof {
            assert(final(self).scopes@.drop_last() =~= old(self).scopes@);
        }
    }

    /// Closes the topmost scope; at least one scope must remain.
    pub fn pop(&mut self)
        requires
            old(self).depth() >= 2,
        ensures
            final(self).wf(),
            final(self).parent == old(self).parent,
            final(self).scopes@ == old(self).scopes@.drop_last(),
    {
        let _ = self.scopes.pop();
        proof {
            assert(final(self).scopes@ =~= old(self).scopes@.drop_last());
        }
    }
}

/// Whether a compiled expression value is already safe for direct output.
#[derive(Clone, Copy, PartialEq, Eq, Structural, Debug)]
pub enum DisplayWrap {
    Wrapped,
    Unwrapped,
}

/// Where in the template tree emission currently stands.
#[derive(Clone, Copy, PartialEq, Eq, Structural, Debug)]
pub enum AstLevel {
    Top,
    Block,
    Nested,
}

/// `n` spaces.
pub open spec fn spaces(n: nat) -> Seq<char> {
    Seq::new(n, |i: int| ' ')
}

/// One emitted line: indentation if at line start, the text, a newline.
pub open spec fn wline(start: bool, ind: nat, s: Seq<char>) -> Seq<char> {
    (if start {
        spaces(4 * ind)
    } else {
        Seq::empty()
    }) + s + seq!['\n']
}

/// The escape of one character inside an emitted string literal.
pub open spec fn esc1(c: char) -> Seq<char> {
    if c == '"' {
        seq!['\\', '"']
    } else if c == '\\' {
        seq!['\\', '\\']
    } else if c == '\t' {
        seq!['\\', 't']
    } else if c == '\r' {
        seq!['\\', 'r']
    } else if c == '\n' {
        seq!['\\', 'n']
    } else {
        seq![c]
    }
}

/// The escape of a whole text inside an emitted string literal.
pub open spec fn escaped(s: Seq<char>) -> Seq<char>
    decreases s,
{
    if s.len() == 0 {
        Seq::empty()
    } else {
        esc1(s[0]) + escaped(s.drop_first())
    }
}

/// Escaping distributes over extension by one character.
pub proof fn lemma_escaped_push(s: Seq<char>, x: char)
    ensures
        escaped(s.push(x)) == escaped(s) + esc1(x),
    decreases s.len(),
{
    if s.len() == 0 {
        assert(s.push(x).drop_first() =~= Seq::<char>::empty());
        assert(escaped(Seq::<char>::empty()) =~= Seq::<char>::empty());
        assert(esc1(s.push(x)[0]) + escaped(s.push(x).drop_first()) =~= esc1(x));
        assert(escaped(s) + esc1(x) =~= esc1(x));
    } else {
        lemma_escaped_push(s.drop_first(), x);
        assert(s.push(x).drop_first() =~= s.drop_first().push(x));
        assert(s.push(x)[0] == s[0]);
        assert(esc1(s[0]) + (escaped(s.drop_first()) + esc1(x)) =~= (esc1(s[0]) + escaped(
            s.drop_first(),
        )) + esc1(x));
    }
}

/// The emitted sink-write statement for a literal text.
pub open spec fn write_str_line(v: Seq<char>) -> Seq<char> {
    "writer.write_str(\""@ + escaped(v) + "\")?;"@
}

/// Executable escape of a text for an emitted string literal.
fn escape_chars(s: &Vec<char>) -> (r: Vec<char>)
    ensures
        r@ == escaped(s@),
{
    let mut r: Vec<char> = Vec::new();
    let mut i: usize = 0;
    proof {
        assert(s@.take(0) =~= Seq::<char>::empty());
        assert(escaped(Seq::<char>::empty()) =~= Seq::<char>::empty());
    }
    while i < s.len()
        invariant
            i <= s@.len(),
            r@ == escaped(s@.take(i as int)),
        decreases s@.len() - i,
    {
        let c = s[i];
        proof {
            lemma_escaped_push(s@.take(i as int), s@[i as int]);
            assert(s@.take(i as int).push(s@[i as int]) =~= s@.take(i + 1));
        }
        if c == '"' {
            r.push('\\');
            r.push('"');
        } else if c == '\\' {
            r.push('\\');
            r.push('\\');
        } else if c == '\t' {
            r.push('\\');
            r.push('t');
        } else if c == '\r' {
            r.push('\\');
            r.push('r');
        } else if c == '\n' {
            r.push('\\');
            r.push('n');
        } else {
            r.push(c);
        }
        proof {
            assert(r@ =~= escaped(s@.take(i + 1)));
        }
        i = i + 1;
    }
    proof {
        assert(s@.take(s@.len() as int) =~= s@);
    }
    r
}

/// The generator's mutable emission state.
pub struct Generator {
    /// The emitted target source.
    pub buf: Vec<char>,
    /// The current indentation depth of the emitted source.
    pub indent: u8,
    /// True iff emission stands at the start of a line.
    pub start: bool,
    /// The template-local names currently in scope.
    pub locals: SetChain,
    /// A pending literal-trailing whitespace run not yet committed.
    pub next_ws: Option<Vec<char>>,
    /// True iff the next literal's leading whitespace must be dropped.
    pub skip_ws: bool,
    /// The counter for fresh lifted-argument names.
    pub vars: usize,
    /// True while emitting inside the trait's combined renderer, where block
    /// render calls go through the effective-implementation parameter.
    pub impl_blocks: bool,
}

impl Generator {
    /// A generator over the given name chain, starting at the given
    /// indentation.
    pub fn new(locals: SetChain, indent: u8) -> (r: Generator)
        ensures
            r.buf@.len() == 0,
            r.indent == indent,
            r.start == true,
            r.locals == locals,
            r.next_ws is None,
            r.skip_ws == false,
            r.vars == 0,
            r.impl_blocks == false,
    {
        Generator {
            buf: Vec::new(),
            indent,
            start: true,
            locals,
            next_ws: None,
            skip_ws: false,
            vars: 0,
            impl_blocks: false,
        }
    }

    /// A generator with a fresh name chain at indentation zero.
    pub fn default() -> (r: Generator)
        ensures
            r.buf@.len() == 0,
            r.indent == 0,
            r.start == true,
            r.locals.wf(),
            r.locals.depth() == 1,
            forall|n: Seq<char>| !r.locals.spec_contains(n),
            r.next_ws is None,
            r.skip_ws == false,
            r.vars == 0,
            r.impl_blocks == false,
    {
        Self::new(SetChain::new(), 0)
    }

    /// A child generator for an included template: its name chain sees the
    /// caller's names, its buffer is its own.
    pub fn child(&self) -> (r: Generator)
        ensures
            r.buf@.len() == 0,
            r.indent == self.indent,
            r.start == true,
            r.locals.wf(),
            r.locals.depth() == 1,
            forall|n: Seq<char>| r.locals.spec_contains(n) <==> self.locals.spec_contains(n),
            r.next_ws is None,
            r.skip_ws == false,
            r.vars == 0,
            r.impl_blocks == false,
    {
        let locals = SetChain::with_parent(&self.locals);
        Self::new(locals, self.indent)
    }

    /// Appends text to the buffer, emitting indentation first when at the
    /// start of a line.
    pub fn write_chars(&mut self, s: &Vec<char>)
        ensures
            final(self).buf@ == old(self).buf@ + (if old(self).start {
                spaces(4 * old(self).indent as nat)
            } else {
                Seq::<char>::empty()
            }) + s@,
            final(self).start == false,
            final(self).indent == old(self).indent,
            final(self).locals == old(self).locals,
            final(self).next_ws == old(self).next_ws,
            final(self).skip_ws == old(self).skip_ws,
            final(self).vars == old(self).vars,
            final(self).impl_blocks == old(self).impl_blocks,
    {
        if self.start {
            let n: usize = (self.indent as usize) * 4;
            let mut k: usize = 0;
            while k < n
                invariant
                    k <= n,
                    n == 4 * old(self).indent,
                    self.buf@ == old(self).buf@ + spaces(k as nat),
                    self.start == old(self).start,
                    self.indent == old(self).indent,
                    self.locals == old(self).locals,
                    self.next_ws == old(self).next_ws,
                    self.skip_ws == old(self).skip_ws,
                    self.vars == old(self).vars,
                    self.impl_blocks == old(self).impl_blocks,
                decreases n - k,
            {
                self.buf.push(' ');
                k = k + 1;
                proof {
                    assert(self.buf@ =~= old(self).buf@ + spaces(k as nat));
                }
            }
            self.start = false;
        } else {
            proof {
                assert(self.buf@ =~= old(self).buf@ + Seq::<char>::empty());
            }
        }
        push_chars(&mut self.buf, s);
    }

    /// `write_chars` for a string slice.
    pub fn write(&mut self, s: &str)
        ensures
            final(self).buf@ == old(self).buf@ + (if old(self).start {
                spaces(4 * old(self).indent as nat)
            } else {
                Seq::<char>::empty()
            }) + s@,
            final(self).start == false,
            final(self).indent == old(self).indent,
            final(self).locals == old(self).locals,
            final(self).next_ws == old(self).next_ws,
            final(self).skip_ws == old(self).skip_ws,
            final(self).vars == old(self).vars,
            final(self).impl_blocks == old(self).impl_blocks,
    {
        let v = chars_of(s);
        self.write_chars(&v);
    }

    /// Raises the indentation depth of the emitted source.
    pub fn indent(&mut self) -> (r: Result<(), GenError>)
        ensures
            r is Err <==> old(self).indent == 255,
            r is Err ==> *final(self) == *old(self),
            r is Ok ==> final(self).indent == old(self).indent + 1 && final(self).buf == old(self).buf && final(self).start == old(self).start && final(self).locals == old(self).locals && final(self).next_ws == old(self).next_ws && final(self).skip_ws == old(self).skip_ws && final(self).vars == old(self).vars && final(self).impl_blocks == old(self).impl_blocks,
    {
        if self.indent == 255 {
            return Err(GenError::IndentOverflow);
        }
        self.indent = self.indent + 1;
        Ok(())
    }

    /// Lowers the indentation depth; indentation below zero is a generator
    /// fault, surfaced as an error.
    pub fn dedent(&mut self) -> (r: Result<(), GenError>)
        ensures
            r is Err <==> old(self).indent == 0,
            r is Err ==> *final(self) == *old(self),
            r is Ok ==> final(self).indent == old(self).indent - 1 && final(self).buf == old(self).buf && final(self).start == old(self).start && final(self).locals == old(self).locals && final(self).next_ws == old(self).next_ws && final(self).skip_ws == old(self).skip_ws && final(self).vars == old(self).vars && final(self).impl_blocks == old(self).impl_blocks,
    {
        if self.indent == 0 {
            return Err(GenError::IndentUnderflow);
        }
        self.indent = self.indent - 1;
        Ok(())
    }

    /// Writes one line: nothing for empty text; a lone `}` dedents before the
    /// line; a line ending in `{` indents after it.
    pub fn writeln_chars(&mut self, s: &Vec<char>) -> (r: Result<(), GenError>)
        ensures
            r is Err <==> (s@.len() > 0 && ((s@ == "}"@ && old(self).indent == 0) || (s@ != "}"@
                && s@[s@.len() - 1] == '{' && old(self).indent == 255))),
            r is Err ==> *final(self) == *old(self),
            final(self).locals == old(self).locals,
            final(self).next_ws == old(self).next_ws,
            final(self).skip_ws == old(self).skip_ws,
            final(self).vars == old(self).vars,
            final(self).impl_blocks == old(self).impl_blocks,
            r is Ok && s@.len() == 0 ==> *final(self) == *old(self),
            r is Ok && s@.len() > 0 ==> {
                let ind2 = (if s@ == "}"@ {
                    old(self).indent - 1
                } else {
                    old(self).indent as int
                });
                &&& final(self).buf@ == old(self).buf@ + wline(old(self).start, ind2 as nat, s@)
                &&& final(self).start == true
                &&& final(self).indent == ind2 + (if s@ != "}"@ && s@[s@.len() - 1] == '{' {
                    1int
                } else {
                    0int
                })
            },
    {
        proof {
            reveal_strlit("}");
        }
        if s.len() == 0 {
            return Ok(());
        }
        let is_closer = s.len() == 1 && s[0] == '}';
        proof {
            assert(is_closer <==> s@ =~= "}"@);
        }
        let is_opener = !is_closer && s[s.len() - 1] == '{';
        if is_closer && self.indent == 0 {
            return Err(GenError::IndentUnderflow);
        }
        if is_opener && self.indent == 255 {
            return Err(GenError::IndentOverflow);
        }
        if is_closer {
            self.indent = self.indent - 1;
        }
        self.write_chars(s);
        if is_opener {
            self.indent = self.indent + 1;
        }
        self.buf.push('\n');
        self.start = true;
        proof {
            if is_closer {
                assert(final(self).buf@ =~= old(self).buf@ + wline(
                    old(self).start,
                    (old(self).indent - 1) as nat,
                    s@,
                ));
            } else {
                assert(final(self).buf@ =~= old(self).buf@ + wline(
                    old(self).start,
                    old(self).indent as nat,
                    s@,
                ));
            }
        }
        Ok(())
    }

    /// `writeln_chars` for a string slice.
    pub fn writeln(&mut self, s: &str) -> (r: Result<(), GenError>)
        ensures
            r is Err <==> (s@.len() > 0 && ((s@ == "}"@ && old(self).indent == 0) || (s@ != "}"@
                && s@[s@.len() - 1] == '{' && old(self).indent == 255))),
            final(self).locals == old(self).locals,
            final(self).next_ws == old(self).next_ws,
            final(self).skip_ws == old(self).skip_ws,
            final(self).vars == old(self).vars,
            final(self).impl_blocks == old(self).impl_blocks,
            r is Err ==> *final(self) == *old(self),
            r is Ok && s@.len() == 0 ==> *final(self) == *old(self),
            r is Ok && s@.len() > 0 ==> {
                let ind2 = (if s@ == "}"@ {
                    old(self).indent - 1
                } else {
                    old(self).indent as int
                });
                &&& final(self).buf@ == old(self).buf@ + wline(old(self).start, ind2 as nat, s@)
                &&& final(self).start == true
                &&& final(self).indent == ind2 + (if s@ != "}"@ && s@[s@.len() - 1] == '{' {
                    1int
                } else {
                    0int
                })
            },
    {
        let v = chars_of(s);
        self.writeln_chars(&v)
    }

    /// Flushes the pending trailing whitespace of the preceding literal,
    /// unless the directive's leading sigil suppresses it; the pending run is
    /// cleared either way.
    pub fn flush_ws(&mut self, ws: &WS)
        ensures
            final(self).next_ws is None,
            final(self).skip_ws == old(self).skip_ws,
            final(self).locals == old(self).locals,
            final(self).vars == old(self).vars,
            final(self).impl_blocks == old(self).impl_blocks,
            (match old(self).next_ws {
                Option::Some(v) => !ws.0 && v@.len() > 0,
                Option::None => false,
            }) ==> {
                let v = old(self).next_ws->Some_0;
                &&& final(self).buf@ == old(self).buf@ + wline(
                    old(self).start,
                    old(self).indent as nat,
                    write_str_line(v@),
                )
                &&& final(self).start == true
                &&& final(self).indent == old(self).indent
            },
            !(match old(self).next_ws {
                Option::Some(v) => !ws.0 && v@.len() > 0,
                Option::None => false,
            }) ==> final(self).buf@ == old(self).buf@ && final(self).start == old(self).start
                && final(self).indent == old(self).indent,
    {
        proof {
            reveal_strlit("writer.write_str(\"");
            reveal_strlit("\")?;");
            reveal_strlit("}");
        }
        let emit: Option<Vec<char>> = if !ws.0 {
            match &self.next_ws {
                Some(v) => {
                    if v.len() > 0 {
                        let mut line = chars_of("writer.write_str(\"");
                        let esc = escape_chars(v);
                        push_chars(&mut line, &esc);
                        let tail = chars_of("\")?;");
                        push_chars(&mut line, &tail);
                        Some(line)
                    } else {
                        None
                    }
                },
                None => None,
            }
        } else {
            None
        };
        match emit {
            Some(line) => {
                proof {
                    assert(line@ == write_str_line(old(self).next_ws->Some_0@));
                    assert(line@.len() > 0);
                    assert(line@[line@.len() - 1] == ';');
                    assert(line@ != "}"@);
                }
                let res = self.writeln_chars(&line);
                proof {
                    assert(res is Ok);
                }
            },
            None => {},
        }
        self.next_ws = None;
    }

    /// Records whether the next literal's leading whitespace is suppressed,
    /// from the directive's trailing sigil.
    pub fn prepare_ws(&mut self, ws: &WS)
        ensures
            final(self).skip_ws == ws.1 && final(self).buf == old(self).buf && final(self).start == old(self).start && final(self).indent == old(self).indent && final(self).locals == old(self).locals && final(self).next_ws == old(self).next_ws && final(self).vars == old(self).vars && final(self).impl_blocks == old(self).impl_blocks,
    {
        self.skip_ws = ws.1;
    }

    /// `flush_ws` then `prepare_ws`: handles both the pending whitespace
    /// before a directive and the suppression after it.
    pub fn handle_ws(&mut self, ws: &WS)
        ensures
            final(self).next_ws is None,
            final(self).skip_ws == ws.1,
            final(self).locals == old(self).locals,
            final(self).vars == old(self).vars,
            final(self).impl_blocks == old(self).impl_blocks,
            final(self).indent == old(self).indent,
            (match old(self).next_ws {
                Option::Some(v) => !ws.0 && v@.len() > 0,
                Option::None => false,
            }) ==> final(self).buf@ == old(self).buf@ + wline(
                old(self).start,
                old(self).indent as nat,
                write_str_line(old(self).next_ws->Some_0@),
            ) && final(self).start == true,
            !(match old(self).next_ws {
                Option::Some(v) => !ws.0 && v@.len() > 0,
                Option::None => false,
            }) ==> final(self).buf@ == old(self).buf@ && final(self).start == old(self).start,
    {
        self.flush_ws(ws);
        self.prepare_ws(ws);
    }

    /// Emits a split literal: the leading whitespace is dropped when
    /// suppressed, staged when the body is empty, else written; the body is
    /// written; the trailing whitespace is staged as pending.
    pub fn write_lit(&mut self, lws: &Vec<char>, val: &Vec<char>, rws: &Vec<char>) -> (r: Result<
        (),
        GenError,
    >)
        ensures
            r is Err <==> (old(self).next_ws is Some || (lws@.len() > 0 && !old(self).skip_ws
                && val@.len() == 0 && rws@.len() > 0)),
            r is Err ==> *final(self) == *old(self),
            r is Ok ==> {
                let emit1 = (if lws@.len() > 0 && !old(self).skip_ws && val@.len() > 0 {
                    wline(old(self).start, old(self).indent as nat, write_str_line(lws@))
                } else {
                    Seq::<char>::empty()
                });
                let start1 = (if lws@.len() > 0 && !old(self).skip_ws && val@.len() > 0 {
                    true
                } else {
                    old(self).start
                });
                let emit2 = (if val@.len() > 0 {
                    wline(start1, old(self).indent as nat, write_str_line(val@))
                } else {
                    Seq::<char>::empty()
                });
                &&& final(self).buf@ == old(self).buf@ + emit1 + emit2
                &&& final(self).start == (if val@.len() > 0 {
                    true
                } else {
                    start1
                })
                &&& final(self).indent == old(self).indent
                &&& final(self).skip_ws == (if lws@.len() > 0 {
                    false
                } else {
                    old(self).skip_ws
                })
                &&& (match final(self).next_ws {
                    Option::Some(v) => (rws@.len() > 0 && v@ == rws@) || (rws@.len() == 0
                        && lws@.len() > 0 && !old(self).skip_ws && val@.len() == 0 && v@ == lws@),
                    Option::None => rws@.len() == 0 && !(lws@.len() > 0 && !old(self).skip_ws
                        && val@.len() == 0),
                })
                &&& final(self).locals == old(self).locals
                &&& final(self).vars == old(self).vars
                &&& final(self).impl_blocks == old(self).impl_blocks
            },
    {
        proof {
            reveal_strlit("writer.write_str(\"");
            reveal_strlit("\")?;");
            reveal_strlit("}");
        }
        if self.next_ws.is_some() {
            return Err(GenError::PendingWhitespace);
        }
        if lws.len() > 0 {
            if self.skip_ws {
                self.skip_ws = false;
            } else if val.len() == 0 {
                if rws.len() > 0 {
                    return Err(GenError::MalformedLiteral);
                }
                self.next_ws = Some(crate::ast::clone_chars(lws));
            } else {
                let line = Self::write_str_stmt(lws);
                proof {
                    assert(line@[line@.len() - 1] == ';');
                    assert(line@ != "}"@);
                }
                let res = self.writeln_chars(&line);
                proof {
                    assert(res is Ok);
                }
            }
        }
        if val.len() > 0 {
            let line = Self::write_str_stmt(val);
            proof {
                assert(line@[line@.len() - 1] == ';');
                assert(line@ != "}"@);
            }
            let res = self.writeln_chars(&line);
            proof {
                assert(res is Ok);
            }
        }
        if rws.len() > 0 {
            self.next_ws = Some(crate::ast::clone_chars(rws));
        }
        Ok(())
    }

    /// Builds the sink-write statement text for a literal.
    fn write_str_stmt(v: &Vec<char>) -> (r: Vec<char>)
        ensures
            r@ == write_str_line(v@),
            r@.len() > 0,
            r@[r@.len() - 1] == ';',
    {
        proof {
            reveal_strlit("writer.write_str(\"");
            reveal_strlit("\")?;");
        }
        let mut line = chars_of("writer.write_str(\"");
        let esc = escape_chars(v);
        push_chars(&mut line, &esc);
        let tail = chars_of("\")?;");
        push_chars(&mut line, &tail);
        line
    }

    /// Emits the pattern of a match-arm head; variants other than string
    /// literals are written behind a reference sigil.
    pub fn visit_match_variant(&mut self, param: &MatchVariant) -> (w: DisplayWrap)
        ensures
            final(self).buf@ == old(self).buf@ + (if old(self).start {
                spaces(4 * old(self).indent as nat)
            } else {
                Seq::<char>::empty()
            }) + variant_text(*param),
            final(self).start == false,
            final(self).indent == old(self).indent,
            final(self).locals == old(self).locals,
            final(self).next_ws == old(self).next_ws,
            final(self).skip_ws == old(self).skip_ws,
            final(self).vars == old(self).vars,
            final(self).impl_blocks == old(self).impl_blocks,
            w == DisplayWrap::Unwrapped,
    {
        let mut code: Vec<char> = Vec::new();
        match param {
            MatchVariant::StrLit(s) => {
                code.push('"');
                push_chars(&mut code, s);
                code.push('"');
                proof {
                    assert(code@ =~= variant_text(*param));
                }
            },
            MatchVariant::NumLit(s) => {
                code.push('&');
                push_chars(&mut code, s);
                proof {
                    assert(code@ =~= variant_text(*param));
                }
            },
            MatchVariant::Name(s) => {
                code.push('&');
                push_chars(&mut code, s);
                proof {
                    assert(code@ =~= variant_text(*param));
                }
            },
            MatchVariant::Path(p) => {
                code.push('&');
                let joined = join_path(p);
                push_chars(&mut code, &joined);
                proof {
                    assert(code@ =~= variant_text(*param));
                }
            },
        }
        self.write_chars(&code);
        DisplayWrap::Unwrapped
    }

    /// Emits the pattern of one match parameter; a name becomes a
    /// by-reference binding.
    pub fn visit_match_param(&mut self, param: &MatchParameter) -> (w: DisplayWrap)
        ensures
            final(self).buf@ == old(self).buf@ + (if old(self).start {
                spaces(4 * old(self).indent as nat)
            } else {
                Seq::<char>::empty()
            }) + param_text(*param),
            final(self).start == false,
            final(self).indent == old(self).indent,
            final(self).locals == old(self).locals,
            final(self).next_ws == old(self).next_ws,
            final(self).skip_ws == old(self).skip_ws,
            final(self).vars == old(self).vars,
            final(self).impl_blocks == old(self).impl_blocks,
            w == DisplayWrap::Unwrapped,
    {
        proof {
            reveal_strlit("ref ");
        }
        let mut code: Vec<char> = Vec::new();
        match param {
            MatchParameter::NumLit(s) => {
                push_chars(&mut code, s);
                proof {
                    assert(code@ =~= param_text(*param));
                }
            },
            MatchParameter::StrLit(s) => {
                code.push('"');
                push_chars(&mut code, s);
                code.push('"');
                proof {
                    assert(code@ =~= param_text(*param));
                }
            },
            MatchParameter::Name(s) => {
                push_str(&mut code, "ref ");
                push_chars(&mut code, s);
                proof {
                    assert(code@ =~= param_text(*param));
                }
            },
        }
        self.write_chars(&code);
        DisplayWrap::Unwrapped
    }

    /// A comment only settles the whitespace on its two sides.
    pub fn write_comment(&mut self, ws: &WS)
        ensures
            final(self).next_ws is None,
            final(self).skip_ws == ws.1,
            final(self).locals == old(self).locals,
            final(self).vars == old(self).vars,
            final(self).impl_blocks == old(self).impl_blocks,
            final(self).indent == old(self).indent,
            old(self).buf@.is_prefix_of(final(self).buf@),
    {
        self.handle_ws(ws);
        proof {
            match old(self).next_ws {
                Option::Some(v) => {
                    if !ws.0 && v@.len() > 0 {
                        crate::text::lemma_prefix_concat(
                            old(self).buf@,
                            wline(
                                old(self).start,
                                old(self).indent as nat,
                                write_str_line(v@),
                            ),
                        );
                    } else {
                        crate::text::lemma_prefix_refl(old(self).buf@);
                    }
                },
                Option::None => {
                    crate::text::lemma_prefix_refl(old(self).buf@);
                },
            }
        }
    }
}

/// The emitted text of a path expression: the segments joined by `::`.
pub open spec fn path_text(s: Seq<Vec<char>>) -> Seq<char>
    decreases s,
{
    if s.len() == 0 {
        Seq::empty()
    } else if s.len() == 1 {
        s[0]@
    } else {
        s[0]@ + "::"@ + path_text(s.drop_first())
    }
}

/// Path joining distributes over extension by one segment.
pub proof fn lemma_path_text_push(s: Seq<Vec<char>>, x: Vec<char>)
    ensures
        path_text(s.push(x)) == (if s.len() == 0 {
            x@
        } else {
            path_text(s) + "::"@ + x@
        }),
    decreases s.len(),
{
    if s.len() == 0 {
        assert(s.push(x)[0] == x);
    } else {
        lemma_path_text_push(s.drop_first(), x);
        assert(s.push(x).drop_first() =~= s.drop_first().push(x));
        assert(s.push(x)[0] == s[0]);
        if s.len() == 1 {
            assert(s.drop_first().len() == 0);
            assert(path_text(s.push(x)) =~= s[0]@ + "::"@ + x@);
            assert(path_text(s) + "::"@ + x@ =~= s[0]@ + "::"@ + x@);
        } else {
            assert(s[0]@ + "::"@ + (path_text(s.drop_first()) + "::"@ + x@) =~= (s[0]@ + "::"@
                + path_text(s.drop_first())) + "::"@ + x@);
        }
    }
}

/// Joins path segments with `::`.
#[verifier::loop_isolation(false)]
pub fn join_path(p: &Vec<Vec<char>>) -> (r: Vec<char>)
    ensures
        r@ == path_text(p@),
{
    let mut r: Vec<char> = Vec::new();
    let mut i: usize = 0;
    proof {
        assert(p@.take(0) =~= Seq::<Vec<char>>::empty());
    }
    while i < p.len()
        invariant
            i <= p@.len(),
            r@ == path_text(p@.take(i as int)),
        decreases p@.len() - i,
    {
        proof {
            lemma_path_text_push(p@.take(i as int), p@[i as int]);
            assert(p@.take(i as int).push(p@[i as int]) =~= p@.take(i + 1));
        }
        if i > 0 {
            push_str(&mut r, "::");
        }
        push_chars(&mut r, &p[i]);
        i = i + 1;
    }
    proof {
        assert(p@.take(p@.len() as int) =~= p@);
    }
    r
}

/// The emitted pattern text of a match-arm head.
pub open spec fn variant_text(v: MatchVariant) -> Seq<char> {
    match v {
        MatchVariant::StrLit(s) => seq!['"'] + s@ + seq!['"'],
        MatchVariant::NumLit(s) => seq!['&'] + s@,
        MatchVariant::Name(s) => seq!['&'] + s@,
        MatchVariant::Path(p) => seq!['&'] + path_text(p@),
    }
}

/// The emitted pattern text of one match parameter.
pub open spec fn param_text(p: MatchParameter) -> Seq<char> {
    match p {
        MatchParameter::NumLit(s) => s@,
        MatchParameter::StrLit(s) => seq!['"'] + s@ + seq!['"'],
        MatchParameter::Name(s) => "ref "@ + s@,
    }
}

/// The filter catalogue holds the name.
pub open spec fn in_catalogue(filters: Seq<Vec<char>>, name: Seq<char>) -> bool {
    exists|j: int| 0 <= j < filters.len() && #[trigger] filters[j]@ == name
}

/// The filter names whose output needs no further HTML escaping.
pub open spec fn wrapped_name(n: Seq<char>) -> bool {
    n == "safe"@ || n == "escape"@ || n == "e"@ || n == "json"@
}

/// The output classification of a compiled expression: only a filter from
/// the safe set yields a wrapped value.
pub open spec fn wrap_of(e: Expr) -> DisplayWrap {
    match e {
        Expr::Filter(name, _) => if wrapped_name(name@) {
            DisplayWrap::Wrapped
        } else {
            DisplayWrap::Unwrapped
        },
        _ => DisplayWrap::Unwrapped,
    }
}

/// Arguments of these shapes are hoisted into fresh temporaries.
pub open spec fn is_lifted(e: Expr) -> bool {
    e is Filter || e is MethodCall
}

/// The expression is the bare `self` variable.
pub open spec fn is_self_expr(e: Expr) -> bool {
    match e {
        Expr::Var(n) => n@ == "self"@,
        _ => false,
    }
}

/// The expression reads an attribute of the loop variable.
pub open spec fn is_loop_var(e: Expr) -> bool {
    match e {
        Expr::Var(n) => n@ == "loop"@,
        _ => false,
    }
}

/// A decimal digit.
pub open spec fn dec_digit(d: nat) -> char {
    if d == 0 {
        '0'
    } else if d == 1 {
        '1'
    } else if d == 2 {
        '2'
    } else if d == 3 {
        '3'
    } else if d == 4 {
        '4'
    } else if d == 5 {
        '5'
    } else if d == 6 {
        '6'
    } else if d == 7 {
        '7'
    } else if d == 8 {
        '8'
    } else {
        '9'
    }
}

/// The decimal digits of `n`, most significant first.
pub open spec fn dec_rep(n: nat) -> Seq<char>
    decreases n,
{
    if n < 10 {
        seq![dec_digit(n)]
    } else {
        dec_rep(n / 10).push(dec_digit(n % 10))
    }
}

/// Executable decimal digit.
fn dec_digit_char(d: usize) -> (c: char)
    requires
        d < 10,
    ensures
        c == dec_digit(d as nat),
{
    if d == 0 {
        '0'
    } else if d == 1 {
        '1'
    } else if d == 2 {
        '2'
    } else if d == 3 {
        '3'
    } else if d == 4 {
        '4'
    } else if d == 5 {
        '5'
    } else if d == 6 {
        '6'
    } else if d == 7 {
        '7'
    } else if d == 8 {
        '8'
    } else {
        '9'
    }
}

/// Executable decimal form of `n`.
fn dec_vec(n: usize) -> (r: Vec<char>)
    ensures
        r@ == dec_rep(n as nat),
    decreases n,
{
    if n < 10 {
        let mut r: Vec<char> = Vec::new();
        r.push(dec_digit_char(n));
        proof {
            assert(r@ =~= dec_rep(n as nat));
        }
        r
    } else {
        let mut r = dec_vec(n / 10);
        r.push(dec_digit_char(n % 10));
        r
    }
}

/// The parts of the generator's state an expression visitor may not change,
/// and those it may only grow.
pub open spec fn visit_frame(a: Generator, b: Generator) -> bool {
    &&& b.locals == a.locals
    &&& b.next_ws == a.next_ws
    &&& b.skip_ws == a.skip_ws
    &&& b.impl_blocks == a.impl_blocks
    &&& b.indent == a.indent
    &&& a.vars <= b.vars
    &&& a.buf@.is_prefix_of(b.buf@)
}

/// Frame preservation composes.
pub proof fn lemma_visit_frame_trans(a: Generator, b: Generator, c: Generator)
    requires
        visit_frame(a, b),
        visit_frame(b, c),
    ensures
        visit_frame(a, c),
{
    crate::text::lemma_prefix_trans(a.buf@, b.buf@, c.buf@);
}

impl Generator {
    /// Compiles a number literal: its text passes through verbatim.
    pub fn visit_num_lit(&mut self, s: &Vec<char>, code: &mut Vec<char>) -> (w: DisplayWrap)
        ensures
            *final(self) == *old(self),
            final(code)@ == old(code)@ + s@,
            w == DisplayWrap::Unwrapped,
            visit_frame(*old(self), *final(self)),
            old(code)@.is_prefix_of(final(code)@),
    {
        push_chars(code, s);
        proof {
            crate::text::lemma_prefix_refl(old(self).buf@);
            crate::text::lemma_prefix_concat(old(code)@, s@);
        }
        DisplayWrap::Unwrapped
    }

    /// Compiles a string literal: the raw contents are quoted, escape
    /// sequences are forwarded for the target compiler to interpret.
    pub fn visit_str_lit(&mut self, s: &Vec<char>, code: &mut Vec<char>) -> (w: DisplayWrap)
        ensures
            *final(self) == *old(self),
            final(code)@ == old(code)@ + seq!['"'] + s@ + seq!['"'],
            w == DisplayWrap::Unwrapped,
            visit_frame(*old(self), *final(self)),
            old(code)@.is_prefix_of(final(code)@),
    {
        code.push('"');
        push_chars(code, s);
        code.push('"');
        proof {
            assert(final(code)@ =~= old(code)@ + seq!['"'] + s@ + seq!['"']);
            assert(final(code)@ =~= old(code)@ + (seq!['"'] + s@ + seq!['"']));
            crate::text::lemma_prefix_refl(old(self).buf@);
            crate::text::lemma_prefix_concat(old(code)@, seq!['"'] + s@ + seq!['"']);
        }
        DisplayWrap::Unwrapped
    }

    /// Compiles a bare variable: a name in scope stays itself, any other name
    /// becomes an access to the host's field.
    pub fn visit_var(&mut self, s: &Vec<char>, code: &mut Vec<char>) -> (w: DisplayWrap)
        ensures
            *final(self) == *old(self),
            final(code)@ == old(code)@ + (if old(self).locals.spec_contains(s@) {
                s@
            } else {
                "self."@ + s@
            }),
            w == DisplayWrap::Unwrapped,
            visit_frame(*old(self), *final(self)),
            old(code)@.is_prefix_of(final(code)@),
    {
        if self.locals.contains(s) {
            push_chars(code, s);
            proof {
                crate::text::lemma_prefix_concat(old(code)@, s@);
            }
        } else {
            push_str(code, "self.");
            push_chars(code, s);
            proof {
                assert(final(code)@ =~= old(code)@ + ("self."@ + s@));
                crate::text::lemma_prefix_concat(old(code)@, "self."@ + s@);
            }
        }
        proof {
            crate::text::lemma_prefix_refl(old(self).buf@);
        }
        DisplayWrap::Unwrapped
    }

    /// Compiles a path expression: the segments joined by `::`.
    pub fn visit_path(&mut self, p: &Vec<Vec<char>>, code: &mut Vec<char>) -> (w: DisplayWrap)
        ensures
            *final(self) == *old(self),
            final(code)@ == old(code)@ + path_text(p@),
            w == DisplayWrap::Unwrapped,
            visit_frame(*old(self), *final(self)),
            old(code)@.is_prefix_of(final(code)@),
    {
        let joined = join_path(p);
        push_chars(code, &joined);
        proof {
            crate::text::lemma_prefix_refl(old(self).buf@);
            crate::text::lemma_prefix_concat(old(code)@, path_text(p@));
        }
        DisplayWrap::Unwrapped
    }

    /// The names an assignment target binds: a single name.
    pub fn visit_target_single(&mut self, name: &Vec<char>) -> (r: Vec<Vec<char>>)
        ensures
            *final(self) == *old(self),
            r@.len() == 1,
            r@[0]@ == name@,
    {
        let mut r: Vec<Vec<char>> = Vec::new();
        r.push(crate::ast::clone_chars(name));
        r
    }

    /// The names an assignment target binds.
    pub fn visit_target(&mut self, target: &Target) -> (r: Vec<Vec<char>>)
        ensures
            *final(self) == *old(self),
            r@.len() == 1,
            (match *target {
                Target::Name(n) => r@[0]@ == n@,
            }),
    {
        match target {
            Target::Name(s) => self.visit_target_single(s),
        }
    }

    /// Compiles an expression into `code` and classifies its output. Only a
    /// filter from the safe set yields a wrapped value.
    pub fn visit_expr(&mut self, state: &State, expr: &Expr, code: &mut Vec<char>) -> (r: Result<
        DisplayWrap,
        GenError,
    >)
        ensures
            visit_frame(*old(self), *final(self)),
            old(code)@.is_prefix_of(final(code)@),
            r matches Err(e) ==> (e == GenError::UnknownLoopAttribute || e
                == GenError::TooManyTemporaries),
            r matches Ok(w) ==> w == wrap_of(*expr),
            r is Ok ==> (match *expr {
                Expr::Var(nm) => final(code)@ == old(code)@ + (if old(
                    self,
                ).locals.spec_contains(nm@) {
                    nm@
                } else {
                    "self."@ + nm@
                }),
                _ => true,
            }),
        decreases crate::ast::expr_size(*expr), 0int,
    {
        match expr {
            Expr::NumLit(s) => Ok(self.visit_num_lit(s, code)),
            Expr::StrLit(s) => Ok(self.visit_str_lit(s, code)),
            Expr::Var(s) => Ok(self.visit_var(s, code)),
            Expr::Path(p) => Ok(self.visit_path(p, code)),
            Expr::Array(els) => self.visit_array(state, els, code),
            Expr::Attr(o, n) => {
                match self.visit_attr(state, &**o, n, code) {
                    Ok(w) => Ok(w),
                    Err(e) => Err(e),
                }
            },
            Expr::Filter(n, a) => self.visit_filter(state, n, a, code),
            Expr::Unary(op, inner) => self.visit_unary(state, op, &**inner, code),
            Expr::BinOp(op, l, x) => self.visit_binop(state, op, &**l, &**x, code),
            Expr::Group(inner) => self.visit_group(state, &**inner, code),
            Expr::MethodCall(o, m, a) => self.visit_method_call(state, &**o, m, a, code),
        }
    }

    /// Compiles an expression into a fresh text.
    pub fn visit_expr_root(&mut self, state: &State, expr: &Expr) -> (r: Result<
        Vec<char>,
        GenError,
    >)
        ensures
            visit_frame(*old(self), *final(self)),
            r matches Err(e) ==> (e == GenError::UnknownLoopAttribute || e
                == GenError::TooManyTemporaries),
    {
        let mut code: Vec<char> = Vec::new();
        match self.visit_expr(state, expr, &mut code) {
            Ok(_) => Ok(code),
            Err(e) => Err(e),
        }
    }

    /// Compiles an attribute access. `loop.index` lowers to the one-based
    /// index `_loop_index + 1`, `loop.index0` to `_loop_index`; any other
    /// attribute of the loop variable is rejected.
    #[verifier::rlimit(60)]
    pub fn visit_attr(&mut self, state: &State, obj: &Expr, attr: &Vec<char>, code: &mut Vec<
        char,
    >) -> (r: Result<DisplayWrap, GenError>)
        ensures
            visit_frame(*old(self), *final(self)),
            old(code)@.is_prefix_of(final(code)@),
            r matches Err(e) ==> (e == GenError::UnknownLoopAttribute || e
                == GenError::TooManyTemporaries),
            r matches Ok(w) ==> w == DisplayWrap::Unwrapped,
            is_loop_var(*obj) && attr@ == "index"@ ==> r is Ok && final(code)@ == old(code)@
                + "_loop_index + 1"@,
            is_loop_var(*obj) && attr@ == "index0"@ ==> r is Ok && final(code)@ == old(code)@
                + "_loop_index"@,
            is_loop_var(*obj) && attr@ != "index"@ && attr@ != "index0"@ ==> r == Err::<
                DisplayWrap,
                GenError,
            >(GenError::UnknownLoopAttribute),
        decreases crate::ast::expr_size(*obj), 2int,
    {
        proof {
            reveal_strlit("loop");
            reveal_strlit("index");
            reveal_strlit("index0");
            reveal_strlit("_loop_index");
            reveal_strlit(" + 1");
            reveal_strlit(".");
        }
        let is_loop = match obj {
            Expr::Var(name) => crate::text::chars_eq_str(name, "loop"),
            _ => false,
        };
        if is_loop {
            push_str(code, "_loop_index");
            proof {
                crate::text::lemma_prefix_refl(old(self).buf@);
            }
            if crate::text::chars_eq_str(attr, "index") {
                push_str(code, " + 1");
                proof {
                    reveal_strlit("index");
                    reveal_strlit("index0");
                    reveal_strlit("_loop_index");
                    reveal_strlit(" + 1");
                    reveal_strlit("_loop_index + 1");
                    assert(attr@ == "index"@);
                    assert("index"@.len() == 5);
                    assert("index0"@.len() == 6);
                    assert("index"@ != "index0"@);
                    assert(attr@ != "index0"@);
                    assert(code@ =~= old(code)@ + "_loop_index + 1"@);
                    crate::text::lemma_prefix_concat(old(code)@, "_loop_index + 1"@);
                }
                return Ok(DisplayWrap::Unwrapped);
            } else if crate::text::chars_eq_str(attr, "index0") {
                proof {
                    reveal_strlit("index");
                    reveal_strlit("index0");
                    assert(attr@ != "index"@);
                    crate::text::lemma_prefix_concat(old(code)@, "_loop_index"@);
                }
                return Ok(DisplayWrap::Unwrapped);
            } else {
                proof {
                    crate::text::lemma_prefix_concat(old(code)@, "_loop_index"@);
                }
                return Err(GenError::UnknownLoopAttribute);
            }
        }
        match self.visit_expr(state, obj, code) {
            Ok(_) => {},
            Err(e) => {
                return Err(e);
            },
        }
        let ghost s2 = *self;
        let ghost c2 = code@;
        push_str(code, ".");
        push_chars(code, attr);
        proof {
            assert(code@ =~= c2 + ("."@ + attr@));
            crate::text::lemma_prefix_concat(c2, "."@ + attr@);
            crate::text::lemma_prefix_trans(old(code)@, c2, code@);
        }
        Ok(DisplayWrap::Unwrapped)
    }

    /// Compiles a unary operation: the operator text, then the operand.
    pub fn visit_unary(&mut self, state: &State, op: &Vec<char>, inner: &Expr, code: &mut Vec<
        char,
    >) -> (r: Result<DisplayWrap, GenError>)
        ensures
            visit_frame(*old(self), *final(self)),
            old(code)@.is_prefix_of(final(code)@),
            r matches Err(e) ==> (e == GenError::UnknownLoopAttribute || e
                == GenError::TooManyTemporaries),
            r matches Ok(w) ==> w == DisplayWrap::Unwrapped,
            (old(code)@ + op@).is_prefix_of(final(code)@),
        decreases crate::ast::expr_size(*inner), 2int,
    {
        push_chars(code, op);
        let ghost c1 = code@;
        proof {
            crate::text::lemma_prefix_concat(old(code)@, op@);
            crate::text::lemma_prefix_refl(c1);
        }
        match self.visit_expr(state, inner, code) {
            Ok(_) => {
                proof {
                    crate::text::lemma_prefix_trans(old(code)@, c1, final(code)@);
                }
                Ok(DisplayWrap::Unwrapped)
            },
            Err(e) => {
                proof {
                    crate::text::lemma_prefix_trans(old(code)@, c1, final(code)@);
                }
                Err(e)
            },
        }
    }

    /// Compiles a binary operation: left operand, the operator text between
    /// spaces, right operand.
    pub fn visit_binop(
        &mut self,
        state: &State,
        op: &Vec<char>,
        left: &Expr,
        right: &Expr,
        code: &mut Vec<char>,
    ) -> (r: Result<DisplayWrap, GenError>)
        ensures
            visit_frame(*old(self), *final(self)),
            old(code)@.is_prefix_of(final(code)@),
            r matches Err(e) ==> (e == GenError::UnknownLoopAttribute || e
                == GenError::TooManyTemporaries),
            r matches Ok(w) ==> w == DisplayWrap::Unwrapped,
            r is Ok ==> contains_seq(final(code)@, seq![' '] + op@ + seq![' ']),
        decreases crate::ast::expr_size(*left) + crate::ast::expr_size(*right), 2int,
    {
        match self.visit_expr(state, left, code) {
            Ok(_) => {},
            Err(e) => {
                return Err(e);
            },
        }
        let ghost s1 = *self;
        let ghost c1 = code@;
        code.push(' ');
        push_chars(code, op);
        code.push(' ');
        let ghost c2 = code@;
        proof {
            assert(c2 =~= c1 + (seq![' '] + op@ + seq![' ']));
            crate::text::lemma_prefix_concat(c1, seq![' '] + op@ + seq![' ']);
            crate::text::lemma_prefix_trans(old(code)@, c1, c2);
            // the spaced operator stands in the text
            assert(c2 =~= c1 + (seq![' '] + op@ + seq![' ']) + Seq::<char>::empty());
            crate::text::lemma_contains_intro(
                c1,
                seq![' '] + op@ + seq![' '],
                Seq::<char>::empty(),
            );
        }
        match self.visit_expr(state, right, code) {
            Ok(_) => {
                proof {
                    lemma_visit_frame_trans(*old(self), s1, *final(self));
                    crate::text::lemma_prefix_trans(old(code)@, c2, final(code)@);
                    crate::text::lemma_contains_prefix_extend(
                        c2,
                        final(code)@,
                        seq![' '] + op@ + seq![' '],
                    );
                }
                Ok(DisplayWrap::Unwrapped)
            },
            Err(e) => {
                proof {
                    lemma_visit_frame_trans(*old(self), s1, *final(self));
                    crate::text::lemma_prefix_trans(old(code)@, c2, final(code)@);
                }
                Err(e)
            },
        }
    }

    /// Compiles a parenthesised group.
    pub fn visit_group(&mut self, state: &State, inner: &Expr, code: &mut Vec<char>) -> (r: Result<
        DisplayWrap,
        GenError,
    >)
        ensures
            visit_frame(*old(self), *final(self)),
            old(code)@.is_prefix_of(final(code)@),
            r matches Err(e) ==> (e == GenError::UnknownLoopAttribute || e
                == GenError::TooManyTemporaries),
            r matches Ok(w) ==> w == DisplayWrap::Unwrapped,
            r is Ok ==> (old(code)@ + "("@).is_prefix_of(final(code)@) && crate::text::ends_with(
                final(code)@,
                ")"@,
            ),
        decreases crate::ast::expr_size(*inner), 2int,
    {
        proof {
            reveal_strlit("(");
            reveal_strlit(")");
            assert("("@.len() == 1);
            assert("("@[0int] == '(');
            assert(")"@.len() == 1);
            assert(")"@[0int] == ')');
        }
        code.push('(');
        let ghost c1 = code@;
        proof {
            assert(c1 =~= old(code)@ + seq!['(']);
            assert(c1 =~= old(code)@ + "("@);
            crate::text::lemma_prefix_concat(old(code)@, seq!['(']);
            crate::text::lemma_prefix_refl(c1);
        }
        match self.visit_expr(state, inner, code) {
            Ok(_) => {},
            Err(e) => {
                proof {
                    crate::text::lemma_prefix_trans(old(code)@, c1, final(code)@);
                }
                return Err(e);
            },
        }
        let ghost c2 = code@;
        code.push(')');
        proof {
            assert(code@ =~= c2 + seq![')']);
            assert(code@ =~= c2 + ")"@);
            crate::text::lemma_prefix_concat(c2, seq![')']);
            crate::text::lemma_prefix_trans(old(code)@, c1, c2);
            crate::text::lemma_prefix_trans(old(code)@, c2, code@);
            crate::text::lemma_prefix_trans(c1, c2, code@);
            crate::text::lemma_ends_with_concat(c2, ")"@);
        }
        Ok(DisplayWrap::Unwrapped)
    }

    /// Compiles an array literal.
    pub fn visit_array(&mut self, state: &State, elements: &Vec<Expr>, code: &mut Vec<char>) -> (r:
        Result<DisplayWrap, GenError>)
        ensures
            visit_frame(*old(self), *final(self)),
            old(code)@.is_prefix_of(final(code)@),
            r matches Err(e) ==> (e == GenError::UnknownLoopAttribute || e
                == GenError::TooManyTemporaries),
            r matches Ok(w) ==> w == DisplayWrap::Unwrapped,
            r is Ok ==> (old(code)@ + "["@).is_prefix_of(final(code)@) && crate::text::ends_with(
                final(code)@,
                "]"@,
            ),
        decreases crate::ast::exprs_size(elements@), 2int,
    {
        proof {
            reveal_strlit("[");
            reveal_strlit("]");
            assert("["@.len() == 1);
            assert("["@[0int] == '[');
            assert("]"@.len() == 1);
            assert("]"@[0int] == ']');
        }
        code.push('[');
        let ghost ch = code@;
        proof {
            assert(code@ =~= old(code)@ + seq!['[']);
            assert(ch =~= old(code)@ + "["@);
            crate::text::lemma_prefix_concat(old(code)@, seq!['[']);
            crate::text::lemma_prefix_refl(old(self).buf@);
            crate::text::lemma_prefix_refl(ch);
        }
        let mut i: usize = 0;
        while i < elements.len()
            invariant
                i <= elements@.len(),
                visit_frame(*old(self), *self),
                old(code)@.is_prefix_of(code@),
                ch.is_prefix_of(code@),
            decreases elements@.len() - i,
        {
            let ghost s1 = *self;
            let ghost c1 = code@;
            if i > 0 {
                push_str(code, ", ");
                proof {
                    crate::text::lemma_prefix_concat(c1, ", "@);
                    crate::text::lemma_prefix_trans(old(code)@, c1, code@);
                    crate::text::lemma_prefix_trans(ch, c1, code@);
                }
            }
            let ghost c2 = code@;
            proof {
                crate::ast::lemma_exprs_size_elem(elements@, i as int);
            }
            match self.visit_expr(state, &elements[i], code) {
                Ok(_) => {},
                Err(e) => {
                    proof {
                        lemma_visit_frame_trans(*old(self), s1, *final(self));
                        crate::text::lemma_prefix_trans(old(code)@, c2, final(code)@);
                    }
                    return Err(e);
                },
            }
            proof {
                lemma_visit_frame_trans(*old(self), s1, *self);
                crate::text::lemma_prefix_trans(old(code)@, c2, code@);
                crate::text::lemma_prefix_trans(ch, c2, code@);
            }
            i = i + 1;
        }
        let ghost c3 = code@;
        code.push(']');
        proof {
            assert(code@ =~= c3 + seq![']']);
            assert(code@ =~= c3 + "]"@);
            crate::text::lemma_prefix_concat(c3, seq![']']);
            crate::text::lemma_prefix_trans(old(code)@, c3, code@);
            crate::text::lemma_prefix_trans(ch, c3, code@);
            crate::text::lemma_ends_with_concat(c3, "]"@);
        }
        Ok(DisplayWrap::Unwrapped)
    }

    /// Hoists one argument into a fresh temporary: the compiled expression is
    /// bound on its own emitted line and the temporary's name goes into the
    /// argument list text.
    fn lift_one(&mut self, state: &State, arg: &Expr, code: &mut Vec<char>) -> (r: Result<
        (),
        GenError,
    >)
        ensures
            visit_frame(*old(self), *final(self)),
            old(code)@.is_prefix_of(final(code)@),
            r matches Err(e) ==> (e == GenError::UnknownLoopAttribute || e
                == GenError::TooManyTemporaries),
            r is Ok ==> (exists|idx: nat|
                {
                    &&& final(code)@ == old(code)@ + "var"@ + #[trigger] dec_rep(idx)
                    &&& contains_seq(final(self).buf@, "let var"@ + dec_rep(idx) + " = "@)
                    &&& old(self).vars <= idx < final(self).vars
                }),
        decreases crate::ast::expr_size(*arg), 1int,
    {
        proof {
            crate::text::lemma_prefix_refl(old(code)@);
        }
        let offset = code.len();
        match self.visit_expr(state, arg, code) {
            Ok(_) => {},
            Err(e) => {
                return Err(e);
            },
        }
        if self.vars == usize::MAX {
            return Err(GenError::TooManyTemporaries);
        }
        let ghost s1 = *self;
        let idx = self.vars;
        self.vars = self.vars + 1;
        let compiled = crate::text::copy_range(code, offset, code.len());
        let shrunk = crate::text::copy_range(code, 0, offset);
        proof {
            assert(shrunk@ =~= old(code)@);
        }
        *code = shrunk;
        let num = dec_vec(idx);
        let mut line = chars_of("let var");
        push_chars(&mut line, &num);
        push_str(&mut line, " = ");
        let ghost needle_end = line@.len() as int;
        push_chars(&mut line, &compiled);
        line.push(';');
        proof {
            reveal_strlit("}");
            assert(line@[line@.len() - 1] == ';');
            assert(line@ != "}"@);
        }
        let ghost buf1 = self.buf@;
        let ghost start1 = self.start;
        let ghost ind1 = self.indent;
        let res = self.writeln_chars(&line);
        proof {
            assert(res is Ok);
            // the binding line holds the needle `let var<idx> = `
            let needle = "let var"@ + dec_rep(idx as nat) + " = "@;
            let pad = (if start1 {
                spaces(4 * ind1 as nat)
            } else {
                Seq::<char>::empty()
            });
            assert(line@.subrange(0, needle_end) =~= needle);
            assert(self.buf@ =~= (buf1 + pad) + needle + (line@.subrange(
                needle_end,
                line@.len() as int,
            ) + seq!['\n']));
            crate::text::lemma_contains_intro(
                buf1 + pad,
                needle,
                line@.subrange(needle_end, line@.len() as int) + seq!['\n'],
            );
            assert(self.buf@ =~= buf1 + (pad + line@ + seq!['\n']));
            crate::text::lemma_prefix_concat(buf1, pad + line@ + seq!['\n']);
            lemma_visit_frame_trans(*old(self), s1, *self);
        }
        push_str(code, "var");
        push_chars(code, &num);
        proof {
            assert(code@ =~= old(code)@ + "var"@ + dec_rep(idx as nat));
            assert(code@ =~= old(code)@ + ("var"@ + dec_rep(idx as nat)));
            crate::text::lemma_prefix_concat(old(code)@, "var"@ + dec_rep(idx as nat));
            assert(old(self).vars <= idx < self.vars);
            assert(contains_seq(self.buf@, "let var"@ + dec_rep(idx as nat) + " = "@));
        }
        Ok(())
    }

    /// Compiles a call-style argument list. An argument that is itself a
    /// filter or a method call is hoisted into a fresh temporary bound on a
    /// preceding line, and the temporary's name stands in the list.
    #[verifier::rlimit(60)]
    pub fn _visit_args(&mut self, state: &State, args: &Vec<Expr>, code: &mut Vec<char>) -> (r:
        Result<(), GenError>)
        ensures
            visit_frame(*old(self), *final(self)),
            old(code)@.is_prefix_of(final(code)@),
            r matches Err(e) ==> (e == GenError::UnknownLoopAttribute || e
                == GenError::TooManyTemporaries),
            r is Ok && args@.len() == 1 && is_lifted(args@[0]) ==> (exists|idx: nat|
                {
                    &&& final(code)@ == old(code)@ + "var"@ + #[trigger] dec_rep(idx)
                    &&& contains_seq(final(self).buf@, "let var"@ + dec_rep(idx) + " = "@)
                    &&& old(self).vars <= idx < final(self).vars
                }),
        decreases crate::ast::exprs_size(args@), 2int,
    {
        proof {
            crate::text::lemma_prefix_refl(old(self).buf@);
            crate::text::lemma_prefix_refl(old(code)@);
        }
        if args.len() == 1 {
            let intercept = match &args[0] {
                Expr::Filter(_, _) => true,
                Expr::MethodCall(_, _, _) => true,
                _ => false,
            };
            proof {
                assert(intercept == is_lifted(args@[0]));
                crate::ast::lemma_exprs_size_elem(args@, 0);
            }
            if intercept {
                return self.lift_one(state, &args[0], code);
            }
            match self.visit_expr(state, &args[0], code) {
                Ok(_) => {
                    return Ok(());
                },
                Err(e) => {
                    return Err(e);
                },
            }
        }
        let mut i: usize = 0;
        while i < args.len()
            invariant
                i <= args@.len(),
                visit_frame(*old(self), *self),
                old(code)@.is_prefix_of(code@),
            decreases args@.len() - i,
        {
            let ghost s1 = *self;
            let ghost c1 = code@;
            if i > 0 {
                push_str(code, ", &");
                proof {
                    crate::text::lemma_prefix_concat(c1, ", &"@);
                    crate::text::lemma_prefix_trans(old(code)@, c1, code@);
                }
            }
            let ghost c2 = code@;
            let intercept = match &args[i] {
                Expr::Filter(_, _) => true,
                Expr::MethodCall(_, _, _) => true,
                _ => false,
            };
            proof {
                crate::ast::lemma_exprs_size_elem(args@, i as int);
            }
            let step = if intercept {
                self.lift_one(state, &args[i], code)
            } else {
                match self.visit_expr(state, &args[i], code) {
                    Ok(_) => Ok(()),
                    Err(e) => Err(e),
                }
            };
            match step {
                Ok(_) => {},
                Err(e) => {
                    proof {
                        lemma_visit_frame_trans(*old(self), s1, *final(self));
                        crate::text::lemma_prefix_trans(old(code)@, c2, final(code)@);
                    }
                    return Err(e);
                },
            }
            proof {
                lemma_visit_frame_trans(*old(self), s1, *self);
                crate::text::lemma_prefix_trans(old(code)@, c2, code@);
            }
            i = i + 1;
        }
        Ok(())
    }

    /// Compiles the `format` filter: its arguments become the arguments of a
    /// format macro invocation in the emitted source.
    pub fn _visit_format_filter(&mut self, state: &State, args: &Vec<Expr>, code: &mut Vec<
        char,
    >) -> (r: Result<(), GenError>)
        ensures
            visit_frame(*old(self), *final(self)),
            old(code)@.is_prefix_of(final(code)@),
            r matches Err(e) ==> (e == GenError::UnknownLoopAttribute || e
                == GenError::TooManyTemporaries),
        decreases crate::ast::exprs_size(args@), 3int,
    {
        push_str(code, "format!(");
        let ghost c1 = code@;
        proof {
            crate::text::lemma_prefix_concat(old(code)@, "format!("@);
            crate::text::lemma_prefix_refl(old(self).buf@);
        }
        match self._visit_args(state, args, code) {
            Ok(_) => {},
            Err(e) => {
                proof {
                    crate::text::lemma_prefix_trans(old(code)@, c1, final(code)@);
                }
                return Err(e);
            },
        }
        let ghost c2 = code@;
        code.push(')');
        proof {
            assert(code@ =~= c2 + seq![')']);
            crate::text::lemma_prefix_concat(c2, seq![')']);
            crate::text::lemma_prefix_trans(old(code)@, c1, c2);
            crate::text::lemma_prefix_trans(old(code)@, c2, code@);
        }
        Ok(())
    }

    /// Compiles the `join` filter; the subject is coerced into an iterator in
    /// the emitted source.
    pub fn _visit_join_filter(&mut self, state: &State, args: &Vec<Expr>, code: &mut Vec<
        char,
    >) -> (r: Result<(), GenError>)
        ensures
            visit_frame(*old(self), *final(self)),
            old(code)@.is_prefix_of(final(code)@),
            r matches Err(e) ==> (e == GenError::UnknownLoopAttribute || e
                == GenError::TooManyTemporaries),
            r is Ok ==> (old(code)@ + "::askama::filters::join((&"@).is_prefix_of(final(code)@)
                && crate::text::ends_with(final(code)@, ")?"@),
            (r is Ok && args@.len() > 0) ==> contains_seq(final(code)@, ").into_iter()"@),
        decreases crate::ast::exprs_size(args@), 3int,
    {
        push_str(code, "::askama::filters::join((&");
        let ghost ch = code@;
        proof {
            crate::text::lemma_prefix_concat(old(code)@, "::askama::filters::join((&"@);
            crate::text::lemma_prefix_refl(old(self).buf@);
            crate::text::lemma_prefix_refl(ch);
        }
        let mut i: usize = 0;
        while i < args.len()
            invariant
                i <= args@.len(),
                visit_frame(*old(self), *self),
                old(code)@.is_prefix_of(code@),
                ch.is_prefix_of(code@),
                i > 0 ==> contains_seq(code@, ").into_iter()"@),
            decreases args@.len() - i,
        {
            let ghost s1 = *self;
            let ghost c1 = code@;
            if i > 0 {
                push_str(code, ", &");
                proof {
                    crate::text::lemma_prefix_concat(c1, ", &"@);
                    crate::text::lemma_prefix_trans(old(code)@, c1, code@);
                    crate::text::lemma_prefix_trans(ch, c1, code@);
                    crate::text::lemma_contains_prefix_extend(c1, code@, ").into_iter()"@);
                }
            }
            let ghost c2 = code@;
            proof {
                crate::ast::lemma_exprs_size_elem(args@, i as int);
            }
            match self.visit_expr(state, &args[i], code) {
                Ok(_) => {},
                Err(e) => {
                    proof {
                        lemma_visit_frame_trans(*old(self), s1, *final(self));
                        crate::text::lemma_prefix_trans(old(code)@, c2, final(code)@);
                    }
                    return Err(e);
                },
            }
            proof {
                lemma_visit_frame_trans(*old(self), s1, *self);
                crate::text::lemma_prefix_trans(old(code)@, c2, code@);
                crate::text::lemma_prefix_trans(ch, c2, code@);
                if i > 0 {
                    crate::text::lemma_contains_prefix_extend(c2, code@, ").into_iter()"@);
                }
            }
            let ghost c3 = code@;
            if i == 0 {
                push_str(code, ").into_iter()");
                proof {
                    crate::text::lemma_prefix_concat(c3, ").into_iter()"@);
                    crate::text::lemma_prefix_trans(old(code)@, c3, code@);
                    crate::text::lemma_prefix_trans(ch, c3, code@);
                    assert(code@ =~= c3 + ").into_iter()"@ + Seq::<char>::empty());
                    crate::text::lemma_contains_intro(c3, ").into_iter()"@, Seq::<char>::empty());
                }
            }
            i = i + 1;
        }
        let ghost c4 = code@;
        push_str(code, ")?");
        proof {
            crate::text::lemma_prefix_concat(c4, ")?"@);
            crate::text::lemma_prefix_trans(old(code)@, c4, final(code)@);
            crate::text::lemma_prefix_trans(ch, c4, final(code)@);
            assert(final(code)@ =~= c4 + ")?"@);
            crate::text::lemma_ends_with_concat(c4, ")?"@);
            if args@.len() > 0 {
                crate::text::lemma_contains_prefix_extend(c4, final(code)@, ").into_iter()"@);
            }
        }
        Ok(())
    }

    /// True iff the catalogue of built-in filters holds `name`.
    fn built_in(state: &State, name: &Vec<char>) -> (r: bool)
        ensures
            r == in_catalogue(state.filters@, name@),
    {
        let mut i: usize = 0;
        while i < state.filters.len()
            invariant
                i <= state.filters@.len(),
                forall|j: int| 0 <= j < i ==> #[trigger] state.filters@[j]@ != name@,
            decreases state.filters@.len() - i,
        {
            if crate::text::chars_eq(&state.filters[i], name) {
                return true;
            }
            i = i + 1;
        }
        false
    }

    /// Compiles a filter application. `format` and `join` have special
    /// emission; names in the catalogue call the built-in namespace, other
    /// names the user namespace. Only the safe set yields a wrapped value.
    #[verifier::rlimit(60)]
    pub fn visit_filter(&mut self, state: &State, name: &Vec<char>, args: &Vec<Expr>, code: &mut Vec<
        char,
    >) -> (r: Result<DisplayWrap, GenError>)
        ensures
            visit_frame(*old(self), *final(self)),
            old(code)@.is_prefix_of(final(code)@),
            r matches Err(e) ==> (e == GenError::UnknownLoopAttribute || e
                == GenError::TooManyTemporaries),
            r matches Ok(w) ==> w == (if wrapped_name(name@) {
                DisplayWrap::Wrapped
            } else {
                DisplayWrap::Unwrapped
            }),
            (r is Ok && name@ != "format"@ && name@ != "join"@) ==> ((old(code)@ + (if
            in_catalogue(state.filters@, name@) {
                "::askama::filters::"@
            } else {
                "filters::"@
            }) + name@ + "(&"@).is_prefix_of(final(code)@) && crate::text::ends_with(
                final(code)@,
                ")?"@,
            )),
        decreases crate::ast::exprs_size(args@), 4int,
    {
        proof {
            reveal_strlit("format");
            reveal_strlit("join");
            reveal_strlit("safe");
            reveal_strlit("escape");
            reveal_strlit("e");
            reveal_strlit("json");
        }
        if crate::text::chars_eq_str(name, "format") {
            proof {
                reveal_strlit("format");
                reveal_strlit("safe");
                reveal_strlit("escape");
                reveal_strlit("e");
                reveal_strlit("json");
                assert("format"@.len() == 6);
                assert("safe"@.len() == 4);
                assert("e"@.len() == 1);
                assert("json"@.len() == 4);
                assert("format"@[0] == 'f' && "escape"@[0] == 'e');
                assert(!wrapped_name(name@));
            }
            match self._visit_format_filter(state, args, code) {
                Ok(_) => {
                    return Ok(DisplayWrap::Unwrapped);
                },
                Err(e) => {
                    return Err(e);
                },
            }
        }
        if crate::text::chars_eq_str(name, "join") {
            proof {
                reveal_strlit("join");
                reveal_strlit("safe");
                reveal_strlit("escape");
                reveal_strlit("e");
                reveal_strlit("json");
                assert("join"@.len() == 4);
                assert("escape"@.len() == 6);
                assert("e"@.len() == 1);
                assert("join"@[0] == 'j' && "safe"@[0] == 's');
                assert("join"@[1] == 'o' && "json"@[1] == 's');
                assert(!wrapped_name(name@));
            }
            match self._visit_join_filter(state, args, code) {
                Ok(_) => {
                    return Ok(DisplayWrap::Unwrapped);
                },
                Err(e) => {
                    return Err(e);
                },
            }
        }
        let wrapped = crate::text::chars_eq_str(name, "safe") || crate::text::chars_eq_str(
            name,
            "escape",
        ) || crate::text::chars_eq_str(name, "e") || crate::text::chars_eq_str(name, "json");
        if Self::built_in(state, name) {
            push_str(code, "::askama::filters::");
        } else {
            push_str(code, "filters::");
        }
        let ghost c0 = code@;
        proof {
            crate::text::lemma_prefix_refl(old(self).buf@);
            crate::text::lemma_prefix_concat(old(code)@, "::askama::filters::"@);
            crate::text::lemma_prefix_concat(old(code)@, "filters::"@);
        }
        push_chars(code, name);
        push_str(code, "(&");
        let ghost c1 = code@;
        proof {
            assert(c1 =~= c0 + (name@ + "(&"@));
            crate::text::lemma_prefix_concat(c0, name@ + "(&"@);
            crate::text::lemma_prefix_trans(old(code)@, c0, c1);
            // the routed call head is a prefix of everything that follows
            assert(c1 =~= old(code)@ + (if in_catalogue(state.filters@, name@) {
                "::askama::filters::"@
            } else {
                "filters::"@
            }) + name@ + "(&"@);
            crate::text::lemma_prefix_refl(c1);
        }
        match self._visit_args(state, args, code) {
            Ok(_) => {},
            Err(e) => {
                proof {
                    crate::text::lemma_prefix_trans(old(code)@, c1, final(code)@);
                }
                return Err(e);
            },
        }
        let ghost c2 = code@;
        push_str(code, ")?");
        proof {
            crate::text::lemma_prefix_concat(c2, ")?"@);
            crate::text::lemma_prefix_trans(old(code)@, c1, c2);
            crate::text::lemma_prefix_trans(old(code)@, c2, final(code)@);
            crate::text::lemma_prefix_trans(c1, c2, final(code)@);
            assert(final(code)@ =~= c2 + ")?"@);
            crate::text::lemma_ends_with_concat(c2, ")?"@);
        }
        if wrapped {
            Ok(DisplayWrap::Wrapped)
        } else {
            Ok(DisplayWrap::Unwrapped)
        }
    }

    /// Compiles a method call; a call on the bare `self` variable stays a
    /// call on the host itself.
    pub fn visit_method_call(
        &mut self,
        state: &State,
        obj: &Expr,
        method: &Vec<char>,
        args: &Vec<Expr>,
        code: &mut Vec<char>,
    ) -> (r: Result<DisplayWrap, GenError>)
        ensures
            visit_frame(*old(self), *final(self)),
            old(code)@.is_prefix_of(final(code)@),
            r matches Err(e) ==> (e == GenError::UnknownLoopAttribute || e
                == GenError::TooManyTemporaries),
            r matches Ok(w) ==> w == DisplayWrap::Unwrapped,
            r is Ok ==> contains_seq(final(code)@, "."@ + method@ + "("@)
                && crate::text::ends_with(final(code)@, ")"@),
            (r is Ok && is_self_expr(*obj)) ==> (old(code)@ + "self."@ + method@
                + "("@).is_prefix_of(final(code)@),
        decreases crate::ast::expr_size(*obj) + crate::ast::exprs_size(args@), 3int,
    {
        proof {
            reveal_strlit("self");
            reveal_strlit(".");
            reveal_strlit("(");
            reveal_strlit(")");
            reveal_strlit("self.");
            assert("self"@.len() == 4);
            assert("."@.len() == 1);
            assert("("@.len() == 1);
            assert(")"@.len() == 1);
            assert("self."@.len() == 5);
            assert("self"@ + "."@ =~= "self."@);
        }
        let on_self = match obj {
            Expr::Var(name) => crate::text::chars_eq_str(name, "self"),
            _ => false,
        };
        if on_self {
            push_str(code, "self");
            proof {
                crate::text::lemma_prefix_concat(old(code)@, "self"@);
                crate::text::lemma_prefix_refl(old(self).buf@);
            }
        } else {
            match self.visit_expr(state, obj, code) {
                Ok(_) => {},
                Err(e) => {
                    return Err(e);
                },
            }
        }
        let ghost s1 = *self;
        let ghost c1 = code@;
        code.push('.');
        push_chars(code, method);
        code.push('(');
        let ghost c2 = code@;
        proof {
            assert(c2 =~= c1 + (seq!['.'] + method@ + seq!['(']));
            crate::text::lemma_prefix_concat(c1, seq!['.'] + method@ + seq!['(']);
            crate::text::lemma_prefix_trans(old(code)@, c1, c2);
            // the call head `.method(` stands in the text
            assert(c2 =~= c1 + ("."@ + method@ + "("@) + Seq::<char>::empty());
            crate::text::lemma_contains_intro(c1, "."@ + method@ + "("@, Seq::<char>::empty());
            if is_self_expr(*obj) {
                assert(c1 =~= old(code)@ + "self"@);
                assert(c2 =~= (old(code)@ + "self."@ + method@ + "("@));
                crate::text::lemma_prefix_refl(c2);
            }
        }
        match self._visit_args(state, args, code) {
            Ok(_) => {},
            Err(e) => {
                proof {
                    lemma_visit_frame_trans(*old(self), s1, *final(self));
                    crate::text::lemma_prefix_trans(old(code)@, c2, final(code)@);
                }
                return Err(e);
            },
        }
        proof {
            lemma_visit_frame_trans(*old(self), s1, *self);
            crate::text::lemma_prefix_trans(old(code)@, c2, code@);
        }
        let ghost c3 = code@;
        code.push(')');
        proof {
            assert(code@ =~= c3 + seq![')']);
            assert(code@ =~= c3 + ")"@);
            crate::text::lemma_prefix_concat(c3, seq![')']);
            crate::text::lemma_prefix_trans(old(code)@, c3, code@);
            crate::text::lemma_ends_with_concat(c3, ")"@);
            crate::text::lemma_prefix_trans(c2, c3, code@);
            crate::text::lemma_contains_prefix_extend(c2, code@, "."@ + method@ + "("@);
        }
        Ok(DisplayWrap::Unwrapped)
    }
}

/// What every emission step preserves or only grows, even when it fails:
/// the parent name set, the fresh-name counter, and the buffer as a prefix.
pub open spec fn gen_mono(a: Generator, b: Generator) -> bool {
    &&& b.locals.parent == a.locals.parent
    &&& a.vars <= b.vars
    &&& a.buf@.is_prefix_of(b.buf@)
}

/// What a balanced emission step preserves on success: indentation, the whole
/// scope stack, and the trait-emission flag.
pub open spec fn emit_frame(a: Generator, b: Generator) -> bool {
    &&& gen_mono(a, b)
    &&& b.indent == a.indent
    &&& b.locals.scopes@ == a.locals.scopes@
    &&& b.impl_blocks == a.impl_blocks
}

/// What a node-sequence walk preserves on success: indentation, the scope
/// depth, and every scope below the topmost (`let` bindings may extend the
/// topmost scope).
pub open spec fn handle_frame(a: Generator, b: Generator) -> bool {
    &&& gen_mono(a, b)
    &&& b.indent == a.indent
    &&& b.locals.depth() == a.locals.depth()
    &&& (forall|k: int|
        0 <= k < a.locals.scopes@.len() - 1 ==> b.locals.scopes@[k] == a.locals.scopes@[k])
    &&& b.impl_blocks == a.impl_blocks
}

/// A match arm's emitted head: a variant head's pattern text stands in the
/// buffer; a parameterless catch-all arm leaves its wildcard arrow.
pub open spec fn arm_head_written(w: When, buf: Seq<char>) -> bool {
    match w.1 {
        Option::Some(v) => contains_seq(buf, variant_text(v)),
        Option::None => w.2@.len() == 0 ==> contains_seq(buf, "_ => {"@),
    }
}

/// A conditional arm's emitted opener: `if` for the first arm, `} else if`
/// for a later arm with a condition, `} else {` for the terminal arm.
pub open spec fn cond_arm_written(i: int, c: Cond, buf: Seq<char>) -> bool {
    match c.1 {
        Option::Some(_) => if i == 0 {
            contains_seq(buf, "if "@)
        } else {
            contains_seq(buf, "} else if "@)
        },
        Option::None => contains_seq(buf, "} else {"@),
    }
}

/// A block definition's emitted renderer: its signature names the block.
pub open spec fn block_sig_written(n: Node, buf: Seq<char>) -> bool {
    match n {
        Node::BlockDef(_, name, _, _) => contains_seq(buf, "fn render_block_"@ + name@),
        _ => true,
    }
}

/// Structurally equivalent block definitions share their renderer signature.
pub proof fn lemma_block_sig_equiv(a: Node, b: Node, buf: Seq<char>)
    requires
        crate::ast::node_equiv(a, b),
        block_sig_written(b, buf),
    ensures
        block_sig_written(a, buf),
{
    match a {
        Node::BlockDef(_, name_a, _, _) => {
            match b {
                Node::BlockDef(_, name_b, _, _) => {
                    assert(name_a@ == name_b@);
                },
                _ => {},
            }
        },
        _ => {},
    }
}

/// Emitted block signatures stay in the buffer as it grows.
pub proof fn lemma_block_sigs_extend(blocks: Seq<Node>, b1: Seq<char>, b2: Seq<char>)
    requires
        b1.is_prefix_of(b2),
        forall|i: int| 0 <= i < blocks.len() ==> block_sig_written(#[trigger] blocks[i], b1),
    ensures
        forall|i: int| 0 <= i < blocks.len() ==> block_sig_written(#[trigger] blocks[i], b2),
{
    assert forall|i: int|
        0 <= i < blocks.len() implies block_sig_written(#[trigger] blocks[i], b2) by {
        match blocks[i] {
            Node::BlockDef(_, name, _, _) => {
                crate::text::lemma_contains_prefix_extend(b1, b2, "fn render_block_"@ + name@);
            },
            _ => {},
        }
    }
}

/// The node sequence an optional template body carries; empty when absent.
pub open spec fn opt_nodes_view(nodes: Option<&Vec<Node>>) -> Seq<Node> {
    match nodes {
        Option::Some(b) => b@,
        Option::None => Seq::empty(),
    }
}

/// The emitted write tail of an expression output: the chosen form of the
/// bound temporary — wrapped in the HTML markup adaptor exactly when escaping
/// is HTML and no filter already marked the value safe — closing the format
/// write.
pub open spec fn expr_write_tail(e: Expr, esc: EscapeMode) -> Seq<char> {
    (if wrap_of(e) is Unwrapped && esc == EscapeMode::Html {
        "&::askama::MarkupDisplay::from(askama_expr)"@
    } else {
        "askama_expr"@
    }) + "))?;"@
}

/// The landmarks a node's emission leaves in the buffer: literal bodies as
/// sink writes, expression writes ending in the escaping-correct form, `let`
/// bindings, loop headers over the enumerated iterator, arm openers and
/// heads, and block render calls — recursively through the bodies of
/// conditionals, matches and loops.
pub open spec fn node_marked(n: Node, esc: EscapeMode, buf: Seq<char>) -> bool
    decreases n,
{
    match n {
        Node::Lit(_, b, _) => b@.len() > 0 ==> contains_seq(buf, write_str_line(b@)),
        Node::Expr(_, e) => contains_seq(buf, expr_write_tail(e, esc)),
        Node::LetDecl(_, t) => (match t {
            Target::Name(nm) => contains_seq(buf, "let "@ + nm@ + ";"@),
        }),
        Node::Let(_, t, _) => (match t {
            Target::Name(nm) => contains_seq(buf, nm@ + " = "@),
        }),
        Node::Cond(arms, _) => conds_marked(0, arms@, esc, buf),
        Node::Match(_, _, _, arms, _) => contains_seq(buf, ").deref() {"@) && whens_marked(
            arms@,
            esc,
            buf,
        ),
        Node::Loop(_, t, _, body, _) => (match t {
            Target::Name(nm) => contains_seq(buf, "for (_loop_index, "@ + nm@),
        }) && contains_seq(buf, ").into_iter().enumerate() {"@) && nodes_marked(body@, esc, buf),
        Node::BlockDef(_, name, _, _) => contains_seq(
            buf,
            ".render_block_"@ + name@ + "_into(writer)?;"@,
        ),
        _ => true,
    }
}

/// Every node of the sequence left its landmarks.
pub open spec fn nodes_marked(s: Seq<Node>, esc: EscapeMode, buf: Seq<char>) -> bool
    decreases s,
{
    s.len() == 0 || (node_marked(s[0], esc, buf) && nodes_marked(s.drop_first(), esc, buf))
}

/// Every arm of a conditional chain, starting at arm index `k`, left its
/// opener and its body's landmarks.
pub open spec fn conds_marked(k: int, s: Seq<Cond>, esc: EscapeMode, buf: Seq<char>) -> bool
    decreases s,
{
    s.len() == 0 || (cond_arm_written(k, s[0], buf) && nodes_marked(s[0].2@, esc, buf)
        && conds_marked(k + 1, s.drop_first(), esc, buf))
}

/// Every match arm left its head and its body's landmarks.
pub open spec fn whens_marked(s: Seq<When>, esc: EscapeMode, buf: Seq<char>) -> bool
    decreases s,
{
    s.len() == 0 || (arm_head_written(s[0], buf) && nodes_marked(s[0].3@, esc, buf)
        && whens_marked(s.drop_first(), esc, buf))
}

/// Landmarks survive growth of the buffer.
pub proof fn lemma_node_marked_extend(n: Node, esc: EscapeMode, b1: Seq<char>, b2: Seq<char>)
    requires
        b1.is_prefix_of(b2),
        node_marked(n, esc, b1),
    ensures
        node_marked(n, esc, b2),
    decreases n,
{
    match n {
        Node::Lit(_, b, _) => {
            if b@.len() > 0 {
                crate::text::lemma_contains_prefix_extend(b1, b2, write_str_line(b@));
            }
        },
        Node::Expr(_, e) => {
            crate::text::lemma_contains_prefix_extend(b1, b2, expr_write_tail(e, esc));
        },
        Node::LetDecl(_, t) => {
            match t {
                Target::Name(nm) => {
                    crate::text::lemma_contains_prefix_extend(b1, b2, "let "@ + nm@ + ";"@);
                },
            }
        },
        Node::Let(_, t, _) => {
            match t {
                Target::Name(nm) => {
                    crate::text::lemma_contains_prefix_extend(b1, b2, nm@ + " = "@);
                },
            }
        },
        Node::Cond(arms, _) => {
            lemma_conds_marked_extend(0, arms@, esc, b1, b2);
        },
        Node::Match(_, _, _, arms, _) => {
            crate::text::lemma_contains_prefix_extend(b1, b2, ").deref() {"@);
            lemma_whens_marked_extend(arms@, esc, b1, b2);
        },
        Node::Loop(_, t, _, body, _) => {
            match t {
                Target::Name(nm) => {
                    crate::text::lemma_contains_prefix_extend(
                        b1,
                        b2,
                        "for (_loop_index, "@ + nm@,
                    );
                },
            }
            crate::text::lemma_contains_prefix_extend(b1, b2, ").into_iter().enumerate() {"@);
            lemma_nodes_marked_extend(body@, esc, b1, b2);
        },
        Node::BlockDef(_, name, _, _) => {
            crate::text::lemma_contains_prefix_extend(
                b1,
                b2,
                ".render_block_"@ + name@ + "_into(writer)?;"@,
            );
        },
        _ => {},
    }
}

/// Landmarks of a node sequence survive growth of the buffer.
pub proof fn lemma_nodes_marked_extend(s: Seq<Node>, esc: EscapeMode, b1: Seq<char>, b2: Seq<char>)
    requires
        b1.is_prefix_of(b2),
        nodes_marked(s, esc, b1),
    ensures
        nodes_marked(s, esc, b2),
    decreases s,
{
    if s.len() > 0 {
        lemma_node_marked_extend(s[0], esc, b1, b2);
        lemma_nodes_marked_extend(s.drop_first(), esc, b1, b2);
    }
}

/// Landmarks of a conditional chain survive growth of the buffer.
pub proof fn lemma_conds_marked_extend(
    k: int,
    s: Seq<Cond>,
    esc: EscapeMode,
    b1: Seq<char>,
    b2: Seq<char>,
)
    requires
        b1.is_prefix_of(b2),
        conds_marked(k, s, esc, b1),
    ensures
        conds_marked(k, s, esc, b2),
    decreases s,
{
    if s.len() > 0 {
        match s[0].1 {
            Option::Some(_) => {
                if k == 0 {
                    crate::text::lemma_contains_prefix_extend(b1, b2, "if "@);
                } else {
                    crate::text::lemma_contains_prefix_extend(b1, b2, "} else if "@);
                }
            },
            Option::None => {
                crate::text::lemma_contains_prefix_extend(b1, b2, "} else {"@);
            },
        }
        lemma_nodes_marked_extend(s[0].2@, esc, b1, b2);
        lemma_conds_marked_extend(k + 1, s.drop_first(), esc, b1, b2);
    }
}

/// Landmarks of the match arms survive growth of the buffer.
pub proof fn lemma_whens_marked_extend(s: Seq<When>, esc: EscapeMode, b1: Seq<char>, b2: Seq<char>)
    requires
        b1.is_prefix_of(b2),
        whens_marked(s, esc, b1),
    ensures
        whens_marked(s, esc, b2),
    decreases s,
{
    if s.len() > 0 {
        match s[0].1 {
            Option::Some(v) => {
                crate::text::lemma_contains_prefix_extend(b1, b2, variant_text(v));
            },
            Option::None => {
                if s[0].2@.len() == 0 {
                    crate::text::lemma_contains_prefix_extend(b1, b2, "_ => {"@);
                }
            },
        }
        lemma_nodes_marked_extend(s[0].3@, esc, b1, b2);
        lemma_whens_marked_extend(s.drop_first(), esc, b1, b2);
    }
}

/// Pointwise landmarks of every node yield the sequence's landmarks.
pub proof fn lemma_nodes_marked_intro(s: Seq<Node>, esc: EscapeMode, buf: Seq<char>)
    requires
        forall|i: int| 0 <= i < s.len() ==> node_marked(#[trigger] s[i], esc, buf),
    ensures
        nodes_marked(s, esc, buf),
    decreases s.len(),
{
    if s.len() > 0 {
        assert forall|i: int|
            0 <= i < s.drop_first().len() implies node_marked(
            #[trigger] s.drop_first()[i],
            esc,
            buf,
        ) by {
            assert(s.drop_first()[i] == s[i + 1]);
            assert(node_marked(s[i + 1], esc, buf));
        }
        lemma_nodes_marked_intro(s.drop_first(), esc, buf);
        assert(node_marked(s[0], esc, buf));
        assert(nodes_marked(s, esc, buf));
    } else {
        assert(nodes_marked(s, esc, buf));
    }
}

/// Pointwise landmarks of every arm yield the chain's landmarks.
pub proof fn lemma_conds_marked_intro(k: int, s: Seq<Cond>, esc: EscapeMode, buf: Seq<char>)
    requires
        forall|i: int|
            0 <= i < s.len() ==> cond_arm_written(k + i, #[trigger] s[i], buf) && nodes_marked(
                s[i].2@,
                esc,
                buf,
            ),
    ensures
        conds_marked(k, s, esc, buf),
    decreases s.len(),
{
    if s.len() > 0 {
        assert forall|i: int|
            0 <= i < s.drop_first().len() implies cond_arm_written(
            k + 1 + i,
            #[trigger] s.drop_first()[i],
            buf,
        ) && nodes_marked(s.drop_first()[i].2@, esc, buf) by {
            assert(s.drop_first()[i] == s[i + 1]);
            assert(cond_arm_written(k + (i + 1), s[i + 1], buf));
            assert(nodes_marked(s[i + 1].2@, esc, buf));
        }
        lemma_conds_marked_intro(k + 1, s.drop_first(), esc, buf);
        assert(cond_arm_written(k + 0, s[0], buf));
        assert(nodes_marked(s[0].2@, esc, buf));
        assert(conds_marked(k, s, esc, buf));
    } else {
        assert(conds_marked(k, s, esc, buf));
    }
}

/// Pointwise landmarks of every arm yield the match's landmarks.
pub proof fn lemma_whens_marked_intro(s: Seq<When>, esc: EscapeMode, buf: Seq<char>)
    requires
        forall|i: int|
            0 <= i < s.len() ==> arm_head_written(#[trigger] s[i], buf) && nodes_marked(
                s[i].3@,
                esc,
                buf,
            ),
    ensures
        whens_marked(s, esc, buf),
    decreases s.len(),
{
    if s.len() > 0 {
        assert forall|i: int|
            0 <= i < s.drop_first().len() implies arm_head_written(
            #[trigger] s.drop_first()[i],
            buf,
        ) && nodes_marked(s.drop_first()[i].3@, esc, buf) by {
            assert(s.drop_first()[i] == s[i + 1]);
            assert(arm_head_written(s[i + 1], buf));
            assert(nodes_marked(s[i + 1].3@, esc, buf));
        }
        lemma_whens_marked_intro(s.drop_first(), esc, buf);
        assert(arm_head_written(s[0], buf));
        assert(nodes_marked(s[0].3@, esc, buf));
        assert(whens_marked(s, esc, buf));
    } else {
        assert(whens_marked(s, esc, buf));
    }
}

/// Pointwise conditional-arm landmarks survive growth of the buffer.
pub proof fn lemma_cond_arm_pointwise_extend(
    s: Seq<Cond>,
    esc: EscapeMode,
    b1: Seq<char>,
    b2: Seq<char>,
)
    requires
        b1.is_prefix_of(b2),
        forall|j: int|
            0 <= j < s.len() ==> cond_arm_written(j, #[trigger] s[j], b1) && nodes_marked(
                s[j].2@,
                esc,
                b1,
            ),
    ensures
        forall|j: int|
            0 <= j < s.len() ==> cond_arm_written(j, #[trigger] s[j], b2) && nodes_marked(
                s[j].2@,
                esc,
                b2,
            ),
{
    assert forall|j: int|
        0 <= j < s.len() implies cond_arm_written(j, #[trigger] s[j], b2) && nodes_marked(
        s[j].2@,
        esc,
        b2,
    ) by {
        match s[j].1 {
            Option::Some(_) => {
                if j == 0 {
                    crate::text::lemma_contains_prefix_extend(b1, b2, "if "@);
                } else {
                    crate::text::lemma_contains_prefix_extend(b1, b2, "} else if "@);
                }
            },
            Option::None => {
                crate::text::lemma_contains_prefix_extend(b1, b2, "} else {"@);
            },
        }
        lemma_nodes_marked_extend(s[j].2@, esc, b1, b2);
    }
}

/// Pointwise match-arm landmarks survive growth of the buffer.
pub proof fn lemma_when_pointwise_extend(
    s: Seq<When>,
    esc: EscapeMode,
    b1: Seq<char>,
    b2: Seq<char>,
)
    requires
        b1.is_prefix_of(b2),
        forall|j: int|
            0 <= j < s.len() ==> arm_head_written(#[trigger] s[j], b1) && nodes_marked(
                s[j].3@,
                esc,
                b1,
            ),
    ensures
        forall|j: int|
            0 <= j < s.len() ==> arm_head_written(#[trigger] s[j], b2) && nodes_marked(
                s[j].3@,
                esc,
                b2,
            ),
{
    assert forall|j: int|
        0 <= j < s.len() implies arm_head_written(#[trigger] s[j], b2) && nodes_marked(
        s[j].3@,
        esc,
        b2,
    ) by {
        match s[j].1 {
            Option::Some(v) => {
                crate::text::lemma_contains_prefix_extend(b1, b2, variant_text(v));
            },
            Option::None => {
                if s[j].2@.len() == 0 {
                    crate::text::lemma_contains_prefix_extend(b1, b2, "_ => {"@);
                }
            },
        }
        lemma_nodes_marked_extend(s[j].3@, esc, b1, b2);
    }
}

/// Emitted macro-parameter bindings survive growth of the buffer.
pub proof fn lemma_bindings_extend(args: Seq<Vec<char>>, b1: Seq<char>, b2: Seq<char>)
    requires
        b1.is_prefix_of(b2),
        forall|k: int|
            0 <= k < args.len() ==> contains_seq(b1, "let "@ + #[trigger] args[k]@ + " = &"@),
    ensures
        forall|k: int|
            0 <= k < args.len() ==> contains_seq(b2, "let "@ + #[trigger] args[k]@ + " = &"@),
{
    assert forall|k: int|
        0 <= k < args.len() implies contains_seq(b2, "let "@ + #[trigger] args[k]@ + " = &"@) by {
        crate::text::lemma_contains_prefix_extend(b1, b2, "let "@ + args[k]@ + " = &"@);
    }
}

/// A block render call of the shape `ctx.render_block_<name>_into(writer)?;`
/// on its own line leaves both the full call and its receiver-independent
/// part in the buffer.
pub proof fn lemma_block_call_contained(
    pre: Seq<char>,
    ctx: Seq<char>,
    name: Seq<char>,
    buf: Seq<char>,
)
    requires
        buf == pre + (ctx + ".render_block_"@ + name + "_into(writer)?;"@) + seq!['\n'],
    ensures
        contains_seq(buf, ctx + ".render_block_"@ + name + "_into(writer)?;"@),
        contains_seq(buf, ".render_block_"@ + name + "_into(writer)?;"@),
{
    crate::text::lemma_contains_intro(
        pre,
        ctx + ".render_block_"@ + name + "_into(writer)?;"@,
        seq!['\n'],
    );
    assert(buf =~= (pre + ctx) + (".render_block_"@ + name + "_into(writer)?;"@) + seq!['\n']);
    crate::text::lemma_contains_intro(
        pre + ctx,
        ".render_block_"@ + name + "_into(writer)?;"@,
        seq!['\n'],
    );
}

/// The constructs legal only at the top level of a template or of a block.
pub open spec fn top_level_only(n: Node) -> bool {
    n is BlockDef || n is Macro || n is Import || n is Extends
}

/// Monotone emission composes.
pub proof fn lemma_gen_mono_trans(a: Generator, b: Generator, c: Generator)
    requires
        gen_mono(a, b),
        gen_mono(b, c),
    ensures
        gen_mono(a, c),
{
    crate::text::lemma_prefix_trans(a.buf@, b.buf@, c.buf@);
}

/// Balanced emission composes.
pub proof fn lemma_emit_frame_trans(a: Generator, b: Generator, c: Generator)
    requires
        emit_frame(a, b),
        emit_frame(b, c),
    ensures
        emit_frame(a, c),
{
    lemma_gen_mono_trans(a, b, c);
}

/// Node-walk framing composes.
pub proof fn lemma_handle_frame_trans(a: Generator, b: Generator, c: Generator)
    requires
        handle_frame(a, b),
        handle_frame(b, c),
    ensures
        handle_frame(a, c),
{
    lemma_gen_mono_trans(a, b, c);
}

/// A visitor step is a balanced emission step.
pub proof fn lemma_visit_to_emit(a: Generator, b: Generator)
    requires
        visit_frame(a, b),
    ensures
        emit_frame(a, b),
{
}

impl Generator {
    /// Emits an expression output: the expression is compiled, bound to a
    /// temporary, and written through a format call. With HTML escaping, a
    /// value not already marked safe is wrapped in the HTML markup adaptor;
    /// the emitted write ends with the chosen form of the temporary.
    #[verifier::rlimit(100)]
    #[verifier::spinoff_prover]
    pub fn write_expr(&mut self, state: &State, ws: &WS, s: &Expr) -> (r: Result<(), GenError>)
        ensures
            gen_mono(*old(self), *final(self)),
            r is Ok ==> emit_frame(*old(self), *final(self)),
            r is Ok ==> crate::text::ends_with(
                final(self).buf@,
                (if wrap_of(*s) is Unwrapped && state.input.escaping == EscapeMode::Html {
                    "&::askama::MarkupDisplay::from(askama_expr)"@
                } else {
                    "askama_expr"@
                }) + "))?;"@ + seq!['\n'],
            ),
            r is Ok ==> contains_seq(final(self).buf@, "let askama_expr = &"@),
            r is Ok ==> contains_seq(final(self).buf@, expr_write_tail(*s, state.input.escaping)),
            r is Ok ==> (match *s {
                Expr::Var(nm) => !old(self).locals.spec_contains(nm@) ==> contains_seq(
                    final(self).buf@,
                    "let askama_expr = &self."@ + nm@ + ";"@,
                ),
                _ => true,
            }),
            r matches Err(e) ==> (e == GenError::UnknownLoopAttribute || e
                == GenError::TooManyTemporaries),
    {
        proof {
            crate::text::lemma_prefix_refl(old(self).buf@);
        }
        self.handle_ws(ws);
        let ghost s0 = *self;
        let mut code: Vec<char> = Vec::new();
        let wrapped = match self.visit_expr(state, s, &mut code) {
            Ok(w) => w,
            Err(e) => {
                proof {
                    lemma_gen_mono_trans(*old(self), s0, *final(self));
                }
                return Err(e);
            },
        };
        let ghost s1 = *self;
        proof {
            lemma_visit_to_emit(s0, s1);
        }
        let mut line = chars_of("let askama_expr = &");
        push_chars(&mut line, &code);
        line.push(';');
        proof {
            reveal_strlit("}");
            assert(line@[line@.len() - 1] == ';');
            assert(line@ != "}"@);
        }
        let res1 = self.writeln_chars(&line);
        proof {
            assert(res1 is Ok);
            let pad1 = (if s1.start {
                spaces(4 * s1.indent as nat)
            } else {
                Seq::<char>::empty()
            });
            crate::text::lemma_prefix_concat(s1.buf@, pad1 + line@ + seq!['\n']);
            assert(self.buf@ =~= s1.buf@ + (pad1 + line@ + seq!['\n']));
            // the binding line stands in the buffer
            assert(self.buf@ =~= (s1.buf@ + pad1) + "let askama_expr = &"@ + (code@ + seq![';']
                + seq!['\n']));
            crate::text::lemma_contains_intro(
                s1.buf@ + pad1,
                "let askama_expr = &"@,
                code@ + seq![';'] + seq!['\n'],
            );
            // a bare host-field variable's binding is emitted exactly
            match s {
                Expr::Var(nm) => {
                    if !old(self).locals.spec_contains(nm@) {
                        assert(code@ =~= "self."@ + nm@);
                        reveal_strlit(";");
                        assert(";"@.len() == 1);
                        assert(";"@[0int] == ';');
                        assert(self.buf@ =~= (s1.buf@ + pad1) + ("let askama_expr = &"@
                            + ("self."@ + nm@) + ";"@) + seq!['\n']);
                        assert("let askama_expr = &"@ + ("self."@ + nm@) + ";"@
                            =~= "let askama_expr = &self."@ + nm@ + ";"@) by {
                            reveal_strlit("let askama_expr = &");
                            reveal_strlit("self.");
                            reveal_strlit("let askama_expr = &self.");
                        }
                        crate::text::lemma_contains_intro(
                            s1.buf@ + pad1,
                            "let askama_expr = &self."@ + nm@ + ";"@,
                            seq!['\n'],
                        );
                    }
                },
                _ => {},
            }
        }
        let ghost s2 = *self;
        self.write("writer.write_fmt(format_args!(\"{}\", ");
        let use_markup = match (wrapped, &state.input.escaping) {
            (DisplayWrap::Unwrapped, EscapeMode::Html) => true,
            _ => false,
        };
        if use_markup {
            self.write("&::askama::MarkupDisplay::from(askama_expr)");
        } else {
            self.write("askama_expr");
        }
        let ghost s3 = *self;
        let res2 = self.writeln("))?;");
        proof {
            reveal_strlit("))?;");
            reveal_strlit("}");
            assert("))?;"@.len() == 4);
            assert("))?;"@[3int] == ';');
            assert("))?;"@ != "}"@);
            assert(res2 is Ok);
            // the buffer ends with the chosen temporary form, the closing
            // text, and the newline
            let choice = (if use_markup {
                "&::askama::MarkupDisplay::from(askama_expr)"@
            } else {
                "askama_expr"@
            });
            assert(s3.start == false);
            assert(self.buf@ =~= (s3.buf@.subrange(0, s3.buf@.len() - choice.len())) + (choice
                + "))?;"@ + seq!['\n'])) by {
                assert(s3.buf@.subrange(s3.buf@.len() - choice.len(), s3.buf@.len() as int)
                    =~= choice);
            }
            crate::text::lemma_ends_with_concat(
                s3.buf@.subrange(0, s3.buf@.len() - choice.len()),
                choice + "))?;"@ + seq!['\n'],
            );
            // framing across the steps
            lemma_emit_frame_trans(*old(self), s1, s2);
            crate::text::lemma_prefix_concat(
                s2.buf@,
                (if s2.start {
                    spaces(4 * s2.indent as nat)
                } else {
                    Seq::<char>::empty()
                }) + "writer.write_fmt(format_args!(\"{}\", "@ + choice,
            );
            assert(s3.buf@ =~= s2.buf@ + ((if s2.start {
                spaces(4 * s2.indent as nat)
            } else {
                Seq::<char>::empty()
            }) + "writer.write_fmt(format_args!(\"{}\", "@ + choice));
            lemma_emit_frame_trans(*old(self), s2, s3);
            crate::text::lemma_prefix_concat(s3.buf@, "))?;"@ + seq!['\n']);
            assert(self.buf@ =~= s3.buf@ + ("))?;"@ + seq!['\n']));
            lemma_emit_frame_trans(*old(self), s3, *self);
            crate::text::lemma_contains_prefix_extend(s2.buf@, s3.buf@, "let askama_expr = &"@);
            crate::text::lemma_contains_prefix_extend(s3.buf@, self.buf@, "let askama_expr = &"@);
            // the write ends in the escaping-correct form, so that form is
            // also contained
            assert(wrapped == wrap_of(*s));
            assert(self.buf@ =~= (s3.buf@.subrange(0, s3.buf@.len() - choice.len())) + (choice
                + "))?;"@) + seq!['\n']);
            crate::text::lemma_contains_intro(
                s3.buf@.subrange(0, s3.buf@.len() - choice.len()),
                choice + "))?;"@,
                seq!['\n'],
            );
            match s {
                Expr::Var(nm) => {
                    if !old(self).locals.spec_contains(nm@) {
                        crate::text::lemma_contains_prefix_extend(
                            s2.buf@,
                            s3.buf@,
                            "let askama_expr = &self."@ + nm@ + ";"@,
                        );
                        crate::text::lemma_contains_prefix_extend(
                            s3.buf@,
                            self.buf@,
                            "let askama_expr = &self."@ + nm@ + ";"@,
                        );
                    }
                },
                _ => {},
            }
        }
        Ok(())
    }

    /// Emits a binding declaration for `let x` and records the name in the
    /// current scope.
    pub fn write_let_decl(&mut self, ws: &WS, var: &Target)
        requires
            old(self).locals.wf(),
        ensures
            gen_mono(*old(self), *final(self)),
            final(self).indent == old(self).indent,
            final(self).impl_blocks == old(self).impl_blocks,
            final(self).locals.wf(),
            final(self).locals.depth() == old(self).locals.depth(),
            forall|k: int|
                0 <= k < old(self).locals.scopes@.len() - 1 ==> final(self).locals.scopes@[k]
                    == old(self).locals.scopes@[k],
            (match *var {
                Target::Name(n) => {
                    &&& (forall|m: Seq<char>|
                        final(self).locals.spec_contains(m) <==> old(self).locals.spec_contains(m)
                            || m == n@)
                    &&& contains_seq(final(self).buf@, "let "@ + n@ + ";"@)
                },
            }),
    {
        proof {
            crate::text::lemma_prefix_refl(old(self).buf@);
        }
        self.handle_ws(ws);
        let ghost s0 = *self;
        self.write("let ");
        let ghost s1 = *self;
        match var {
            Target::Name(name) => {
                self.locals.insert(clone_chars(name));
                self.write_chars(name);
            },
        }
        let ghost s2 = *self;
        let res = self.writeln(";");
        proof {
            reveal_strlit(";");
            reveal_strlit("}");
            assert(";"@.len() == 1);
            assert(";"@[0int] == ';');
            assert(";"@ != "}"@);
            assert(res is Ok);
            crate::text::lemma_prefix_concat(old(self).buf@, s1.buf@.subrange(
                old(self).buf@.len() as int,
                s1.buf@.len() as int,
            ));
            assert(s1.buf@ =~= old(self).buf@ + s1.buf@.subrange(
                old(self).buf@.len() as int,
                s1.buf@.len() as int,
            ));
            crate::text::lemma_prefix_concat(s1.buf@, s2.buf@.subrange(
                s1.buf@.len() as int,
                s2.buf@.len() as int,
            ));
            assert(s2.buf@ =~= s1.buf@ + s2.buf@.subrange(s1.buf@.len() as int, s2.buf@.len() as int));
            crate::text::lemma_prefix_trans(old(self).buf@, s1.buf@, s2.buf@);
            crate::text::lemma_prefix_concat(s2.buf@, self.buf@.subrange(
                s2.buf@.len() as int,
                self.buf@.len() as int,
            ));
            assert(self.buf@ =~= s2.buf@ + self.buf@.subrange(s2.buf@.len() as int, self.buf@.len() as int));
            crate::text::lemma_prefix_trans(old(self).buf@, s2.buf@, self.buf@);
            // the declaration line stands in the buffer: the write of
            // `let `, the name, and the closing `;` are contiguous
            match var {
                Target::Name(n) => {
                    let pad0 = (if s0.start {
                        spaces(4 * s0.indent as nat)
                    } else {
                        Seq::<char>::empty()
                    });
                    assert(self.buf@ =~= (s0.buf@ + pad0) + ("let "@ + n@ + ";"@) + seq!['\n']);
                    crate::text::lemma_contains_intro(
                        s0.buf@ + pad0,
                        "let "@ + n@ + ";"@,
                        seq!['\n'],
                    );
                },
            }
        }
    }

    /// Emits `let x = e;` when `x` is not yet in scope (recording it), else an
    /// assignment `x = e;` to the existing binding.
    pub fn write_let(&mut self, state: &State, ws: &WS, var: &Target, val: &Expr) -> (r: Result<
        (),
        GenError,
    >)
        requires
            old(self).locals.wf(),
        ensures
            gen_mono(*old(self), *final(self)),
            final(self).indent == old(self).indent,
            final(self).impl_blocks == old(self).impl_blocks,
            r is Ok ==> final(self).locals.wf() && final(self).locals.depth() == old(
                self,
            ).locals.depth() && (forall|k: int|
                0 <= k < old(self).locals.scopes@.len() - 1 ==> final(self).locals.scopes@[k]
                    == old(self).locals.scopes@[k]),
            r is Err ==> final(self).locals == old(self).locals,
            r is Ok ==> (match *var {
                Target::Name(n) => {
                    &&& (forall|m: Seq<char>|
                        final(self).locals.spec_contains(m) <==> old(self).locals.spec_contains(m)
                            || m == n@)
                    &&& contains_seq(final(self).buf@, n@ + " = "@)
                    &&& (!old(self).locals.spec_contains(n@) ==> contains_seq(
                        final(self).buf@,
                        "let "@ + n@ + " = "@,
                    ))
                },
            }),
            r matches Err(e) ==> (e == GenError::UnknownLoopAttribute || e
                == GenError::TooManyTemporaries),
    {
        proof {
            crate::text::lemma_prefix_refl(old(self).buf@);
        }
        self.handle_ws(ws);
        let ghost s0 = *self;
        let code = match self.visit_expr_root(state, val) {
            Ok(c) => c,
            Err(e) => {
                proof {
                    lemma_gen_mono_trans(*old(self), s0, *final(self));
                }
                return Err(e);
            },
        };
        let ghost s1 = *self;
        match var {
            Target::Name(name) => {
                if !self.locals.contains(name) {
                    self.write("let ");
                    self.locals.insert(clone_chars(name));
                }
                self.write_chars(name);
            },
        }
        let ghost s2 = *self;
        self.write(" = ");
        self.write_chars(&code);
        self.write(";");
        proof {
            let s_fin = *self;
            crate::text::lemma_prefix_concat(s1.buf@, s_fin.buf@.subrange(
                s1.buf@.len() as int,
                s_fin.buf@.len() as int,
            ));
            assert(s_fin.buf@ =~= s1.buf@ + s_fin.buf@.subrange(
                s1.buf@.len() as int,
                s_fin.buf@.len() as int,
            ));
            crate::text::lemma_prefix_trans(old(self).buf@, s1.buf@, s_fin.buf@);
            // the assignment to the name stands in the buffer: the name's
            // write and the ` = ` write are contiguous
            match var {
                Target::Name(n) => {
                    assert(s_fin.buf@ =~= (s2.buf@.subrange(0, s2.buf@.len() - n@.len() as int))
                        + (n@ + " = "@) + (code@ + ";"@)) by {
                        assert(s2.buf@.subrange(s2.buf@.len() - n@.len() as int, s2.buf@.len() as int)
                            =~= n@);
                    }
                    crate::text::lemma_contains_intro(
                        s2.buf@.subrange(0, s2.buf@.len() - n@.len() as int),
                        n@ + " = "@,
                        code@ + ";"@,
                    );
                    // a fresh name is declared: `let `, the name and ` = `
                    // are contiguous
                    if !old(self).locals.spec_contains(n@) {
                        let pad1 = (if s1.start {
                            spaces(4 * s1.indent as nat)
                        } else {
                            Seq::<char>::empty()
                        });
                        assert(s_fin.buf@ =~= (s1.buf@ + pad1) + ("let "@ + n@ + " = "@) + (code@
                            + ";"@));
                        crate::text::lemma_contains_intro(
                            s1.buf@ + pad1,
                            "let "@ + n@ + " = "@,
                            code@ + ";"@,
                        );
                    }
                },
            }
        }
        Ok(())
    }

    /// Emits the render call of a named block: through the host itself, or
    /// through the effective-implementation parameter inside the trait's
    /// combined renderer.
    #[verifier::rlimit(100)]
    #[verifier::spinoff_prover]
    pub fn write_block(&mut self, ws1: &WS, name: &Vec<char>, ws2: &WS)
        ensures
            emit_frame(*old(self), *final(self)),
            contains_seq(
                final(self).buf@,
                (if old(self).impl_blocks {
                    "timpl"@
                } else {
                    "self"@
                }) + ".render_block_"@ + name@ + "_into(writer)?;"@,
            ),
            contains_seq(final(self).buf@, ".render_block_"@ + name@ + "_into(writer)?;"@),
            final(self).next_ws is None,
            final(self).skip_ws == ws2.1,
    {
        proof {
            crate::text::lemma_prefix_refl(old(self).buf@);
        }
        self.flush_ws(ws1);
        let ghost s1 = *self;
        let mut line = if self.impl_blocks {
            chars_of("timpl")
        } else {
            chars_of("self")
        };
        let ghost ctxv = line@;
        push_str(&mut line, ".render_block_");
        push_chars(&mut line, name);
        push_str(&mut line, "_into(writer)?;");
        proof {
            reveal_strlit("}");
            reveal_strlit("_into(writer)?;");
            assert("_into(writer)?;"@.len() == 15);
            assert("_into(writer)?;"@[14int] == ';');
            assert(line@[line@.len() - 1] == ';');
            assert(line@ != "}"@);
        }
        let res = self.writeln_chars(&line);
        proof {
            assert(res is Ok);
            let pad = (if s1.start {
                spaces(4 * s1.indent as nat)
            } else {
                Seq::<char>::empty()
            });
            crate::text::lemma_prefix_concat(s1.buf@, pad + line@ + seq!['\n']);
            assert(self.buf@ =~= s1.buf@ + (pad + line@ + seq!['\n']));
            crate::text::lemma_prefix_trans(old(self).buf@, s1.buf@, self.buf@);
            assert(self.buf@ =~= (s1.buf@ + pad) + (ctxv + ".render_block_"@ + name@
                + "_into(writer)?;"@) + seq!['\n']);
            lemma_block_call_contained(s1.buf@ + pad, ctxv, name@, self.buf@);
        }
        self.prepare_ws(ws2);
    }
}

impl Generator {
    /// Flushes pending whitespace against the first sigil and prepares
    /// suppression from the second, as directives consumed during state
    /// assembly do.
    fn flush_prepare(&mut self, ws1: &WS, ws2: &WS)
        ensures
            emit_frame(*old(self), *final(self)),
            final(self).next_ws is None,
            final(self).skip_ws == ws2.1,
    {
        self.flush_ws(ws1);
        self.prepare_ws(ws2);
        proof {
            assert(old(self).buf@.is_prefix_of(self.buf@)) by {
                assert(self.buf@.take(old(self).buf@.len() as int) =~= old(self).buf@);
            }
        }
    }

    /// Walks a run of nodes and emits each one. Block, macro, import and
    /// extends directives are rejected below the top level of a template or
    /// of a block. On success the scope depth, every scope below the topmost,
    /// and the indentation are as before.
    #[verifier::loop_isolation(false)]
    pub fn handle(&mut self, state: &State, nodes: &Vec<Node>, level: AstLevel, depth: u64) -> (r:
        Result<(), GenError>)
        requires
            old(self).locals.wf(),
        ensures
            gen_mono(*old(self), *final(self)),
            r is Ok ==> handle_frame(*old(self), *final(self)),
            r is Ok ==> nodes_marked(nodes@, state.input.escaping, final(self).buf@),
            r is Ok && level is Nested ==> (forall|i: int|
                0 <= i < nodes@.len() ==> !top_level_only(#[trigger] nodes@[i])),
            level is Nested && nodes@.len() > 0 && nodes@[0] is BlockDef ==> r == Err::<
                (),
                GenError,
            >(GenError::NestedBlockDef),
            level is Nested && nodes@.len() > 0 && nodes@[0] is Macro ==> r == Err::<
                (),
                GenError,
            >(GenError::NestedMacro),
            level is Nested && nodes@.len() > 0 && nodes@[0] is Import ==> r == Err::<
                (),
                GenError,
            >(GenError::NestedImport),
            level is Nested && nodes@.len() > 0 && nodes@[0] is Extends ==> r == Err::<
                (),
                GenError,
            >(GenError::NestedExtends),
        decreases depth, nodes_size(nodes@), 1int,
    {
        proof {
            crate::text::lemma_prefix_refl(old(self).buf@);
        }
        let mut i: usize = 0;
        while i < nodes.len()
            invariant
                i <= nodes@.len(),
                handle_frame(*old(self), *self),
                self.locals.wf(),
                forall|j: int|
                    0 <= j < i ==> node_marked(
                        #[trigger] nodes@[j],
                        state.input.escaping,
                        self.buf@,
                    ),
                level is Nested ==> (forall|j: int|
                    0 <= j < i ==> !top_level_only(#[trigger] nodes@[j])),
            decreases nodes@.len() - i,
        {
            let ghost s1 = *self;
            proof {
                lemma_nodes_size_elem(nodes@, i as int);
            }
            let step: Result<(), GenError> = match &nodes[i] {
                Node::Lit(l, v, r2) => {
                    let res = self.write_lit(l, v, r2);
                    proof {
                        if res is Ok {
                            assert(s1.buf@.is_prefix_of(self.buf@)) by {
                                assert(self.buf@.take(s1.buf@.len() as int) =~= s1.buf@);
                            }
                            if v@.len() > 0 {
                                // the body's sink-write statement stands in
                                // the extended buffer
                                let emit1 = (if l@.len() > 0 && !s1.skip_ws && v@.len() > 0 {
                                    wline(s1.start, s1.indent as nat, write_str_line(l@))
                                } else {
                                    Seq::<char>::empty()
                                });
                                let start1 = (if l@.len() > 0 && !s1.skip_ws && v@.len() > 0 {
                                    true
                                } else {
                                    s1.start
                                });
                                let pad1 = (if start1 {
                                    spaces(4 * s1.indent as nat)
                                } else {
                                    Seq::<char>::empty()
                                });
                                assert(self.buf@ =~= ((s1.buf@ + emit1) + pad1) + write_str_line(
                                    v@,
                                ) + seq!['\n']);
                                crate::text::lemma_contains_intro(
                                    (s1.buf@ + emit1) + pad1,
                                    write_str_line(v@),
                                    seq!['\n'],
                                );
                            }
                        }
                    }
                    res
                },
                Node::Comment(ws) => {
                    self.write_comment(ws);
                    Ok(())
                },
                Node::Expr(ws, val) => self.write_expr(state, ws, val),
                Node::LetDecl(ws, var) => {
                    self.write_let_decl(ws, var);
                    Ok(())
                },
                Node::Let(ws, var, val) => self.write_let(state, ws, var, val),
                Node::Cond(conds, ws) => self.write_cond(state, conds, ws, depth),
                Node::Match(ws1, expr, inter, arms, ws2) => self.write_match(
                    state,
                    ws1,
                    expr,
                    inter,
                    arms,
                    ws2,
                    depth,
                ),
                Node::Loop(ws1, var, iter, body, ws2) => self.write_loop(
                    state,
                    ws1,
                    var,
                    iter,
                    body,
                    ws2,
                    depth,
                ),
                Node::BlockDef(ws1, name, _, ws2) => {
                    match level {
                        AstLevel::Nested => Err(GenError::NestedBlockDef),
                        _ => {
                            self.write_block(ws1, name, ws2);
                            Ok(())
                        },
                    }
                },
                Node::Include(ws, path) => self.handle_include(state, ws, path, depth),
                Node::Call(ws, scope, name, args) => self.write_call(
                    state,
                    ws,
                    scope,
                    name,
                    args,
                    depth,
                ),
                Node::Macro(_, m) => {
                    match level {
                        AstLevel::Nested => Err(GenError::NestedMacro),
                        _ => {
                            self.flush_prepare(&m.ws1, &m.ws2);
                            Ok(())
                        },
                    }
                },
                Node::Import(ws, _, _) => {
                    match level {
                        AstLevel::Nested => Err(GenError::NestedImport),
                        _ => {
                            self.flush_prepare(ws, ws);
                            Ok(())
                        },
                    }
                },
                Node::Extends(_) => {
                    match level {
                        AstLevel::Nested => Err(GenError::NestedExtends),
                        _ => {
                            proof {
                                crate::text::lemma_prefix_refl(self.buf@);
                            }
                            Ok(())
                        },
                    }
                },
            };
            match step {
                Ok(_) => {},
                Err(e) => {
                    proof {
                        lemma_gen_mono_trans(*old(self), s1, *final(self));
                    }
                    return Err(e);
                },
            }
            proof {
                lemma_handle_frame_trans(*old(self), s1, *self);
                assert forall|j: int|
                    0 <= j < i + 1 implies node_marked(
                    #[trigger] nodes@[j],
                    state.input.escaping,
                    self.buf@,
                ) by {
                    if j < i {
                        lemma_node_marked_extend(
                            nodes@[j],
                            state.input.escaping,
                            s1.buf@,
                            self.buf@,
                        );
                    }
                }
            }
            i = i + 1;
        }
        proof {
            lemma_nodes_marked_intro(nodes@, state.input.escaping, self.buf@);
        }
        Ok(())
    }

    /// Emits an `if`/`else if`/`else` chain. Each arm settles its whitespace,
    /// opens a fresh scope for its body, and closes it again; the chain must
    /// have at least one arm and the first arm must carry a condition.
    #[verifier::loop_isolation(false)]
    #[verifier::rlimit(100)]
    #[verifier::spinoff_prover]
    pub fn write_cond(&mut self, state: &State, conds: &Vec<Cond>, ws: &WS, depth: u64) -> (r:
        Result<(), GenError>)
        requires
            old(self).locals.wf(),
        ensures
            gen_mono(*old(self), *final(self)),
            r is Ok ==> emit_frame(*old(self), *final(self)),
            r is Ok ==> conds_marked(0, conds@, state.input.escaping, final(self).buf@),
        decreases depth, conds_size(conds@), 2int,
    {
        proof {
            crate::text::lemma_prefix_refl(old(self).buf@);
        }
        if conds.len() == 0 {
            return Err(GenError::MalformedConditional);
        }
        let mut i: usize = 0;
        while i < conds.len()
            invariant
                i <= conds@.len(),
                conds@.len() >= 1,
                gen_mono(*old(self), *self),
                self.locals.wf(),
                self.locals.scopes@ == old(self).locals.scopes@,
                self.impl_blocks == old(self).impl_blocks,
                i == 0 ==> self.indent == old(self).indent,
                i > 0 ==> self.indent == old(self).indent + 1,
                forall|j: int|
                    0 <= j < i ==> cond_arm_written(j, #[trigger] conds@[j], self.buf@)
                        && nodes_marked(conds@[j].2@, state.input.escaping, self.buf@),
            decreases conds@.len() - i,
        {
            let ghost s1 = *self;
            let arm = &conds[i];
            self.handle_ws(&arm.0);
            let ghost s2 = *self;
            proof {
                crate::text::lemma_prefix_refl(s1.buf@);
                if s2.buf@ != s1.buf@ {
                    assert(s1.buf@.is_prefix_of(s2.buf@)) by {
                        assert(s2.buf@.take(s1.buf@.len() as int) =~= s1.buf@);
                    }
                }
                assert(s1.buf@.is_prefix_of(s2.buf@)) by {
                    assert(s2.buf@.take(s1.buf@.len() as int) =~= s1.buf@);
                }
                lemma_gen_mono_trans(*old(self), s1, s2);
            }
            match &arm.1 {
                Some(expr) => {
                    let ghost s3 = *self;
                    let code = match self.visit_expr_root(state, expr) {
                        Ok(c) => c,
                        Err(e) => {
                            proof {
                                lemma_gen_mono_trans(*old(self), s3, *final(self));
                            }
                            return Err(e);
                        },
                    };
                    let ghost sb = *self;
                    if i == 0 {
                        self.write("if ");
                    } else {
                        let d = self.dedent();
                        proof {
                            assert(d is Ok);
                        }
                        self.write("} else if ");
                    }
                    let ghost so = *self;
                    proof {
                        // the arm opener stands in the buffer; the write uses
                        // the indentation after the dedent of a later arm
                        let indb = (if i == 0 {
                            sb.indent as nat
                        } else {
                            (sb.indent - 1) as nat
                        });
                        let padb = (if sb.start {
                            spaces(4 * indb)
                        } else {
                            Seq::<char>::empty()
                        });
                        if i == 0 {
                            assert(so.buf@ =~= (sb.buf@ + padb) + "if "@ + Seq::<char>::empty());
                            crate::text::lemma_contains_intro(
                                sb.buf@ + padb,
                                "if "@,
                                Seq::<char>::empty(),
                            );
                        } else {
                            assert(so.buf@ =~= (sb.buf@ + padb) + "} else if "@
                                + Seq::<char>::empty());
                            crate::text::lemma_contains_intro(
                                sb.buf@ + padb,
                                "} else if "@,
                                Seq::<char>::empty(),
                            );
                        }
                    }
                    self.write_chars(&code);
                    proof {
                        assert(so.buf@.is_prefix_of(self.buf@)) by {
                            assert(self.buf@.take(so.buf@.len() as int) =~= so.buf@);
                        }
                        if i == 0 {
                            crate::text::lemma_contains_prefix_extend(so.buf@, self.buf@, "if "@);
                        } else {
                            crate::text::lemma_contains_prefix_extend(
                                so.buf@,
                                self.buf@,
                                "} else if "@,
                            );
                        }
                    }
                },
                None => {
                    if i == 0 {
                        return Err(GenError::MalformedConditional);
                    }
                    let d = self.dedent();
                    proof {
                        assert(d is Ok);
                    }
                    self.write("} else");
                },
            }
            let ghost s4 = *self;
            proof {
                assert(s2.buf@.is_prefix_of(s4.buf@)) by {
                    assert(s4.buf@.take(s2.buf@.len() as int) =~= s2.buf@);
                }
                lemma_gen_mono_trans(*old(self), s2, s4);
            }
            match self.writeln(" {") {
                Ok(_) => {},
                Err(e) => {
                    proof {
                        reveal_strlit(" {");
                        reveal_strlit("}");
                        lemma_gen_mono_trans(*old(self), s4, *final(self));
                    }
                    return Err(e);
                },
            }
            proof {
                reveal_strlit(" {");
                reveal_strlit("}");
                assert(" {"@.len() == 2);
                assert(" {"@[1int] == '{');
                assert(" {"@ != "}"@);
                assert(self.buf@ =~= s4.buf@ + wline(s4.start, s4.indent as nat, " {"@));
                assert(s4.buf@.is_prefix_of(self.buf@)) by {
                    assert(self.buf@.take(s4.buf@.len() as int) =~= s4.buf@);
                }
                lemma_gen_mono_trans(*old(self), s4, *self);
                // the terminal arm's opener and the brace are contiguous
                if arm.1 is None {
                    reveal_strlit("} else");
                    reveal_strlit("} else {");
                    assert("} else"@.len() == 6);
                    assert("} else {"@.len() == 8);
                    let padn = (if s2.start {
                        spaces(4 * (s2.indent - 1) as nat)
                    } else {
                        Seq::<char>::empty()
                    });
                    assert(self.buf@ =~= (s2.buf@ + padn) + "} else {"@ + seq!['\n']) by {
                        assert(s4.buf@ =~= s2.buf@ + padn + "} else"@);
                        assert("} else"@ + " {"@ =~= "} else {"@);
                    }
                    crate::text::lemma_contains_intro(s2.buf@ + padn, "} else {"@, seq!['\n']);
                }
                // a conditioned arm's opener survives the brace line
                if arm.1 is Some {
                    if i == 0 {
                        crate::text::lemma_contains_prefix_extend(s4.buf@, self.buf@, "if "@);
                    } else {
                        crate::text::lemma_contains_prefix_extend(
                            s4.buf@,
                            self.buf@,
                            "} else if "@,
                        );
                    }
                }
            }
            self.locals.push();
            let ghost s5 = *self;
            proof {
                lemma_conds_size_elem(conds@, i as int);
            }
            match self.handle(state, &arm.2, AstLevel::Nested, depth) {
                Ok(_) => {},
                Err(e) => {
                    proof {
                        lemma_gen_mono_trans(*old(self), s5, *final(self));
                    }
                    return Err(e);
                },
            }
            let ghost s6 = *self;
            self.locals.pop();
            proof {
                lemma_gen_mono_trans(*old(self), s5, s6);
                assert(self.locals.scopes@ =~= old(self).locals.scopes@);
                // earlier arms' landmarks survive; this arm's opener and its
                // body's landmarks now stand in the buffer
                assert forall|j: int|
                    0 <= j < conds@.take(i as int).len() implies cond_arm_written(
                    j,
                    #[trigger] conds@.take(i as int)[j],
                    s1.buf@,
                ) && nodes_marked(
                    conds@.take(i as int)[j].2@,
                    state.input.escaping,
                    s1.buf@,
                ) by {
                    assert(conds@.take(i as int)[j] == conds@[j]);
                }
                lemma_cond_arm_pointwise_extend(
                    conds@.take(i as int),
                    state.input.escaping,
                    s1.buf@,
                    self.buf@,
                );
                assert forall|j: int|
                    0 <= j < i + 1 implies cond_arm_written(j, #[trigger] conds@[j], self.buf@)
                    && nodes_marked(conds@[j].2@, state.input.escaping, self.buf@) by {
                    if j < i {
                        assert(conds@.take(i as int)[j] == conds@[j]);
                        assert(cond_arm_written(j, conds@.take(i as int)[j], self.buf@));
                        assert(nodes_marked(
                            conds@.take(i as int)[j].2@,
                            state.input.escaping,
                            self.buf@,
                        ));
                    } else {
                        match conds@[j].1 {
                            Option::Some(_) => {
                                if j == 0 {
                                    crate::text::lemma_contains_prefix_extend(
                                        s5.buf@,
                                        self.buf@,
                                        "if "@,
                                    );
                                } else {
                                    crate::text::lemma_contains_prefix_extend(
                                        s5.buf@,
                                        self.buf@,
                                        "} else if "@,
                                    );
                                }
                            },
                            Option::None => {
                                crate::text::lemma_contains_prefix_extend(
                                    s5.buf@,
                                    self.buf@,
                                    "} else {"@,
                                );
                            },
                        }
                        lemma_nodes_marked_extend(
                            conds@[j].2@,
                            state.input.escaping,
                            s6.buf@,
                            self.buf@,
                        );
                    }
                }
            }
            i = i + 1;
        }
        let ghost s6b = *self;
        self.handle_ws(ws);
        let ghost s7 = *self;
        proof {
            assert(s6b.buf@.is_prefix_of(s7.buf@)) by {
                assert(s7.buf@.take(s6b.buf@.len() as int) =~= s6b.buf@);
            }
            lemma_cond_arm_pointwise_extend(conds@, state.input.escaping, s6b.buf@, s7.buf@);
        }
        let res = self.writeln("}");
        proof {
            reveal_strlit("}");
            assert("}"@.len() == 1);
            assert(res is Ok);
            assert(self.buf@ =~= s7.buf@ + wline(s7.start, (s7.indent - 1) as nat, "}"@));
            assert(s7.buf@.is_prefix_of(self.buf@)) by {
                assert(self.buf@.take(s7.buf@.len() as int) =~= s7.buf@);
            }
            assert(old(self).buf@.is_prefix_of(s7.buf@)) by {
                assert(s7.buf@.take(old(self).buf@.len() as int) =~= old(self).buf@);
            }
            lemma_gen_mono_trans(*old(self), s7, *self);
            lemma_cond_arm_pointwise_extend(conds@, state.input.escaping, s7.buf@, self.buf@);
            lemma_conds_marked_intro(0, conds@, state.input.escaping, self.buf@);
        }
        Ok(())
    }
}

/// A macro-table entry answers to the given call key.
pub open spec fn key_matches(
    e: (Option<Vec<char>>, Vec<char>, Macro),
    scope: Option<Vec<char>>,
    name: Vec<char>,
) -> bool {
    (match (e.0, scope) {
        (Option::None, Option::None) => true,
        (Option::Some(a), Option::Some(b)) => a@ == b@,
        _ => false,
    }) && e.1@ == name@
}

impl Generator {
    /// Finds the last macro-table entry for the call key, so that a later
    /// definition shadows an earlier one of the same key.
    fn find_macro(state: &State, scope: &Option<Vec<char>>, name: &Vec<char>) -> (r: Option<usize>)
        ensures
            r matches Some(i) ==> i < state.macros@.len() && key_matches(
                state.macros@[i as int],
                *scope,
                *name,
            ),
            r is None ==> forall|j: int|
                0 <= j < state.macros@.len() ==> !key_matches(
                    #[trigger] state.macros@[j],
                    *scope,
                    *name,
                ),
    {
        let mut i: usize = state.macros.len();
        while i > 0
            invariant
                i <= state.macros@.len(),
                forall|j: int|
                    i <= j < state.macros@.len() ==> !key_matches(
                        #[trigger] state.macros@[j],
                        *scope,
                        *name,
                    ),
            decreases i,
        {
            i = i - 1;
            let e = &state.macros[i];
            let scope_ok = match (&e.0, scope) {
                (None, None) => true,
                (Some(a), Some(b)) => crate::text::chars_eq(a, b),
                _ => false,
            };
            if scope_ok && crate::text::chars_eq(&e.1, name) {
                return Some(i);
            }
        }
        None
    }

    /// Emits the dispatch head of a `match` block: the compiled subject
    /// behind a dereference, opening the match body.
    #[verifier::rlimit(100)]
    #[verifier::spinoff_prover]
    fn write_match_head(&mut self, state: &State, expr: &Expr) -> (r: Result<(), GenError>)
        ensures
            gen_mono(*old(self), *final(self)),
            r is Ok ==> emit_frame(*old(self), Generator {
                indent: (final(self).indent - 1) as u8,
                ..*final(self)
            }) && final(self).indent == old(self).indent + 1,
            r is Ok ==> contains_seq(final(self).buf@, "match (&"@),
            r is Ok ==> contains_seq(final(self).buf@, ").deref() {"@),
    {
        proof {
            crate::text::lemma_prefix_refl(old(self).buf@);
        }
        let code = match self.visit_expr_root(state, expr) {
            Ok(c) => c,
            Err(e) => {
                return Err(e);
            },
        };
        let ghost s1 = *self;
        let mut head = chars_of("match (&");
        push_chars(&mut head, &code);
        push_str(&mut head, ").deref() {");
        proof {
            reveal_strlit(").deref() {");
            reveal_strlit("}");
            assert(").deref() {"@.len() == 11);
            assert(").deref() {"@[10int] == '{');
            assert(head@[head@.len() - 1] == '{');
            assert(head@.len() > 1);
            assert(head@ != "}"@);
        }
        match self.writeln_chars(&head) {
            Ok(_) => {},
            Err(e) => {
                proof {
                    lemma_gen_mono_trans(*old(self), s1, *final(self));
                }
                return Err(e);
            },
        }
        proof {
            assert(s1.buf@.is_prefix_of(self.buf@)) by {
                assert(self.buf@.take(s1.buf@.len() as int) =~= s1.buf@);
            }
            lemma_gen_mono_trans(*old(self), s1, *self);
            let padh = (if s1.start {
                spaces(4 * s1.indent as nat)
            } else {
                Seq::<char>::empty()
            });
            assert(self.buf@ =~= (s1.buf@ + padh) + "match (&"@ + (code@ + ").deref() {"@
                + seq!['\n']));
            crate::text::lemma_contains_intro(
                s1.buf@ + padh,
                "match (&"@,
                code@ + ").deref() {"@ + seq!['\n'],
            );
            assert(self.buf@ =~= ((s1.buf@ + padh) + ("match (&"@ + code@)) + ").deref() {"@
                + seq!['\n']);
            crate::text::lemma_contains_intro(
                (s1.buf@ + padh) + ("match (&"@ + code@),
                ").deref() {"@,
                seq!['\n'],
            );
        }
        Ok(())
    }

    /// Emits one arm of a `match` block: the pattern head (a catch-all arm
    /// becomes the wildcard), the by-reference parameter bindings in a fresh
    /// scope, and the arm's body.
    #[verifier::loop_isolation(false)]
    #[verifier::rlimit(100)]
    #[verifier::spinoff_prover]
    pub fn write_when(&mut self, state: &State, arm: &When, depth: u64) -> (r: Result<
        (),
        GenError,
    >)
        requires
            old(self).locals.wf(),
        ensures
            gen_mono(*old(self), *final(self)),
            r is Ok ==> emit_frame(*old(self), *final(self)),
            r is Ok ==> arm_head_written(*arm, final(self).buf@),
            r is Ok ==> nodes_marked(arm.3@, state.input.escaping, final(self).buf@),
        decreases depth, nodes_size(arm.3@), 2int,
    {
        proof {
            crate::text::lemma_prefix_refl(old(self).buf@);
        }
        let ghost t0 = *self;
        self.locals.push();
        match &arm.1 {
            Some(variant) => {
                let ghost tv = *self;
                let _ = self.visit_match_variant(variant);
                proof {
                    let padv = (if tv.start {
                        spaces(4 * tv.indent as nat)
                    } else {
                        Seq::<char>::empty()
                    });
                    assert(self.buf@ =~= (tv.buf@ + padv) + variant_text(*variant)
                        + Seq::<char>::empty());
                    crate::text::lemma_contains_intro(
                        tv.buf@ + padv,
                        variant_text(*variant),
                        Seq::<char>::empty(),
                    );
                }
            },
            None => {
                self.write("_");
            },
        }
        let ghost th = *self;
        if arm.2.len() > 0 {
            self.write("(");
            let mut k: usize = 0;
            while k < arm.2.len()
                invariant
                    k <= arm.2@.len(),
                    th.buf@.is_prefix_of(self.buf@),
                    gen_mono(t0, *self),
                    self.locals.wf(),
                    self.locals.depth() == t0.locals.depth() + 1,
                    forall|q: int|
                        0 <= q < t0.locals.scopes@.len() ==> self.locals.scopes@[q]
                            == t0.locals.scopes@[q],
                    self.impl_blocks == t0.impl_blocks,
                    self.indent == t0.indent,
                decreases arm.2@.len() - k,
            {
                let ghost t1 = *self;
                match &arm.2[k] {
                    MatchParameter::Name(p) => {
                        self.locals.insert(clone_chars(p));
                    },
                    _ => {},
                }
                if k > 0 {
                    self.write(", ");
                }
                let _ = self.visit_match_param(&arm.2[k]);
                proof {
                    assert(t1.buf@.is_prefix_of(self.buf@)) by {
                        assert(self.buf@.take(t1.buf@.len() as int) =~= t1.buf@);
                    }
                    crate::text::lemma_prefix_trans(th.buf@, t1.buf@, self.buf@);
                    lemma_gen_mono_trans(t0, t1, *self);
                }
                k = k + 1;
            }
            self.write(")");
        }
        let ghost t2 = *self;
        proof {
            assert(t0.buf@.is_prefix_of(t2.buf@)) by {
                assert(t2.buf@.take(t0.buf@.len() as int) =~= t0.buf@);
            }
            assert(th.buf@.is_prefix_of(t2.buf@)) by {
                assert(t2.buf@.take(th.buf@.len() as int) =~= th.buf@);
            }
        }
        match self.writeln(" => {") {
            Ok(_) => {},
            Err(e) => {
                proof {
                    lemma_gen_mono_trans(t0, t2, *final(self));
                }
                return Err(e);
            },
        }
        proof {
            reveal_strlit(" => {");
            reveal_strlit("}");
            assert(" => {"@.len() == 5);
            assert(" => {"@[4int] == '{');
            assert(" => {"@ != "}"@);
            assert(t2.buf@.is_prefix_of(self.buf@)) by {
                assert(self.buf@.take(t2.buf@.len() as int) =~= t2.buf@);
            }
            lemma_gen_mono_trans(t0, t2, *self);
            // a parameterless catch-all arm leaves `_ => {` contiguously
            if arm.1 is None && arm.2@.len() == 0 {
                reveal_strlit("_");
                reveal_strlit("_ => {");
                assert("_"@.len() == 1);
                assert("_ => {"@.len() == 6);
                let padu = (if t0.start {
                    spaces(4 * t0.indent as nat)
                } else {
                    Seq::<char>::empty()
                });
                assert(self.buf@ =~= (t0.buf@ + padu) + "_ => {"@ + seq!['\n']) by {
                    assert(t2.buf@ =~= t0.buf@ + padu + "_"@);
                    assert("_"@ + " => {"@ =~= "_ => {"@);
                }
                crate::text::lemma_contains_intro(t0.buf@ + padu, "_ => {"@, seq!['\n']);
            }
        }
        let ghost tw = *self;
        self.handle_ws(&arm.0);
        let ghost t3 = *self;
        proof {
            assert(t2.buf@.is_prefix_of(t3.buf@)) by {
                assert(t3.buf@.take(t2.buf@.len() as int) =~= t2.buf@);
            }
            assert(tw.buf@.is_prefix_of(t3.buf@)) by {
                assert(t3.buf@.take(tw.buf@.len() as int) =~= tw.buf@);
            }
            if arm.1 is None && arm.2@.len() == 0 {
                crate::text::lemma_contains_prefix_extend(tw.buf@, t3.buf@, "_ => {"@);
            }
        }
        match self.handle(state, &arm.3, AstLevel::Nested, depth) {
            Ok(_) => {},
            Err(e) => {
                proof {
                    lemma_gen_mono_trans(t0, t3, *final(self));
                }
                return Err(e);
            },
        }
        let ghost t4 = *self;
        let res = self.writeln("}");
        proof {
            reveal_strlit("}");
            assert("}"@.len() == 1);
            assert(res is Ok);
            assert(t4.buf@.is_prefix_of(self.buf@)) by {
                assert(self.buf@.take(t4.buf@.len() as int) =~= t4.buf@);
            }
        }
        self.locals.pop();
        proof {
            lemma_gen_mono_trans(t0, t3, t4);
            lemma_gen_mono_trans(t0, t4, *self);
            assert(self.locals.scopes@ =~= t0.locals.scopes@);
            // the body's landmarks survive the closing brace
            lemma_nodes_marked_extend(arm.3@, state.input.escaping, t4.buf@, self.buf@);
            // the arm's head containment survives the body's growth
            crate::text::lemma_prefix_trans(th.buf@, t2.buf@, t3.buf@);
            crate::text::lemma_prefix_trans(th.buf@, t3.buf@, t4.buf@);
            crate::text::lemma_prefix_trans(th.buf@, t4.buf@, self.buf@);
            crate::text::lemma_prefix_trans(t3.buf@, t4.buf@, self.buf@);
            match &arm.1 {
                Option::Some(v) => {
                    crate::text::lemma_contains_prefix_extend(th.buf@, self.buf@, variant_text(*v));
                },
                Option::None => {
                    if arm.2@.len() == 0 {
                        crate::text::lemma_contains_prefix_extend(t3.buf@, self.buf@, "_ => {"@);
                    }
                },
            }
        }
        Ok(())
    }

    /// Emits a `match` block: the subject is dispatched behind a dereference;
    /// each arm opens a fresh scope, binds its parameters by reference, and
    /// closes the scope again.
    #[verifier::loop_isolation(false)]
    #[verifier::rlimit(100)]
    #[verifier::spinoff_prover]
    pub fn write_match(
        &mut self,
        state: &State,
        ws1: &WS,
        expr: &Expr,
        inter: &Option<Vec<char>>,
        arms: &Vec<When>,
        ws2: &WS,
        depth: u64,
    ) -> (r: Result<(), GenError>)
        requires
            old(self).locals.wf(),
        ensures
            gen_mono(*old(self), *final(self)),
            r is Ok ==> emit_frame(*old(self), *final(self)),
            r is Ok ==> contains_seq(final(self).buf@, "match (&"@),
            r is Ok ==> contains_seq(final(self).buf@, ").deref() {"@),
            r is Ok ==> whens_marked(arms@, state.input.escaping, final(self).buf@),
        decreases depth, whens_size(arms@), 2int,
    {
        proof {
            crate::text::lemma_prefix_refl(old(self).buf@);
        }
        self.flush_ws(ws1);
        match inter {
            Some(inter_v) => {
                if inter_v.len() > 0 {
                    self.next_ws = Some(clone_chars(inter_v));
                }
            },
            None => {},
        }
        let ghost s0 = *self;
        proof {
            assert(old(self).buf@.is_prefix_of(s0.buf@)) by {
                assert(s0.buf@.take(old(self).buf@.len() as int) =~= old(self).buf@);
            }
        }
        match self.write_match_head(state, expr) {
            Ok(_) => {},
            Err(e) => {
                proof {
                    lemma_gen_mono_trans(*old(self), s0, *final(self));
                }
                return Err(e);
            },
        }
        proof {
            lemma_gen_mono_trans(*old(self), s0, *self);
        }
        let mut i: usize = 0;
        while i < arms.len()
            invariant
                i <= arms@.len(),
                gen_mono(*old(self), *self),
                self.locals.wf(),
                self.locals.scopes@ == old(self).locals.scopes@,
                self.impl_blocks == old(self).impl_blocks,
                self.indent == old(self).indent + 1,
                contains_seq(self.buf@, "match (&"@),
                contains_seq(self.buf@, ").deref() {"@),
                forall|j: int|
                    0 <= j < i ==> arm_head_written(#[trigger] arms@[j], self.buf@)
                        && nodes_marked(arms@[j].3@, state.input.escaping, self.buf@),
            decreases arms@.len() - i,
        {
            let ghost t0 = *self;
            proof {
                lemma_whens_size_elem(arms@, i as int);
            }
            match self.write_when(state, &arms[i], depth) {
                Ok(_) => {},
                Err(e) => {
                    proof {
                        lemma_gen_mono_trans(*old(self), t0, *final(self));
                    }
                    return Err(e);
                },
            }
            proof {
                lemma_gen_mono_trans(*old(self), t0, *self);
                assert(self.locals.scopes@ =~= old(self).locals.scopes@);
                crate::text::lemma_contains_prefix_extend(t0.buf@, self.buf@, "match (&"@);
                crate::text::lemma_contains_prefix_extend(t0.buf@, self.buf@, ").deref() {"@);
                assert forall|j: int|
                    0 <= j < i + 1 implies arm_head_written(#[trigger] arms@[j], self.buf@)
                    && nodes_marked(arms@[j].3@, state.input.escaping, self.buf@) by {
                    if j < i {
                        match arms@[j].1 {
                            Option::Some(v) => {
                                crate::text::lemma_contains_prefix_extend(
                                    t0.buf@,
                                    self.buf@,
                                    variant_text(v),
                                );
                            },
                            Option::None => {
                                if arms@[j].2@.len() == 0 {
                                    crate::text::lemma_contains_prefix_extend(
                                        t0.buf@,
                                        self.buf@,
                                        "_ => {"@,
                                    );
                                }
                            },
                        }
                        lemma_nodes_marked_extend(
                            arms@[j].3@,
                            state.input.escaping,
                            t0.buf@,
                            self.buf@,
                        );
                    }
                }
            }
            i = i + 1;
        }
        let ghost s8 = *self;
        let res = self.writeln("}");
        proof {
            reveal_strlit("}");
            assert(res is Ok);
            assert(s8.buf@.is_prefix_of(self.buf@)) by {
                assert(self.buf@.take(s8.buf@.len() as int) =~= s8.buf@);
            }
            lemma_gen_mono_trans(*old(self), s8, *self);
            crate::text::lemma_contains_prefix_extend(s8.buf@, self.buf@, "match (&"@);
            crate::text::lemma_contains_prefix_extend(s8.buf@, self.buf@, ").deref() {"@);
            lemma_when_pointwise_extend(arms@, state.input.escaping, s8.buf@, self.buf@);
        }
        let ghost s9 = *self;
        self.handle_ws(ws2);
        proof {
            assert(s9.buf@.is_prefix_of(self.buf@)) by {
                assert(self.buf@.take(s9.buf@.len() as int) =~= s9.buf@);
            }
            crate::text::lemma_contains_prefix_extend(s9.buf@, self.buf@, "match (&"@);
            crate::text::lemma_contains_prefix_extend(s9.buf@, self.buf@, ").deref() {"@);
            lemma_when_pointwise_extend(arms@, state.input.escaping, s9.buf@, self.buf@);
            lemma_whens_marked_intro(arms@, state.input.escaping, self.buf@);
        }
        Ok(())
    }

    /// Emits a `for` loop: a fresh scope holds the loop target, the iterable
    /// is enumerated, and the body is walked inside the scope.
    #[verifier::loop_isolation(false)]
    #[verifier::rlimit(100)]
    #[verifier::spinoff_prover]
    pub fn write_loop(
        &mut self,
        state: &State,
        ws1: &WS,
        var: &Target,
        iter: &Expr,
        body: &Vec<Node>,
        ws2: &WS,
        depth: u64,
    ) -> (r: Result<(), GenError>)
        requires
            old(self).locals.wf(),
        ensures
            gen_mono(*old(self), *final(self)),
            r is Ok ==> emit_frame(*old(self), *final(self)),
            r is Ok ==> (match *var {
                Target::Name(n) => contains_seq(final(self).buf@, "for (_loop_index, "@ + n@),
            }),
            r is Ok ==> contains_seq(final(self).buf@, ").into_iter().enumerate() {"@),
            r is Ok ==> nodes_marked(body@, state.input.escaping, final(self).buf@),
        decreases depth, nodes_size(body@), 2int,
    {
        proof {
            crate::text::lemma_prefix_refl(old(self).buf@);
        }
        self.handle_ws(ws1);
        self.locals.push();
        let ghost s0 = *self;
        proof {
            assert(old(self).buf@.is_prefix_of(s0.buf@)) by {
                assert(s0.buf@.take(old(self).buf@.len() as int) =~= old(self).buf@);
            }
        }
        let code = match self.visit_expr_root(state, iter) {
            Ok(c) => c,
            Err(e) => {
                proof {
                    lemma_gen_mono_trans(*old(self), s0, *final(self));
                }
                return Err(e);
            },
        };
        let ghost sw = *self;
        self.write("for (_loop_index, ");
        let targets = self.visit_target(var);
        let ghost pad_w = (if sw.start {
            spaces(4 * sw.indent as nat)
        } else {
            Seq::<char>::empty()
        });
        let mut k: usize = 0;
        while k < targets.len()
            invariant
                k <= targets@.len(),
                gen_mono(s0, *self),
                self.locals.wf(),
                self.locals.depth() == s0.locals.depth(),
                forall|q: int|
                    0 <= q < s0.locals.scopes@.len() - 1 ==> self.locals.scopes@[q]
                        == s0.locals.scopes@[q],
                self.impl_blocks == s0.impl_blocks,
                self.indent == s0.indent,
                k == 0 ==> self.buf@ == sw.buf@ + pad_w + "for (_loop_index, "@ && self.start
                    == false,
                k == 1 ==> self.buf@ == sw.buf@ + pad_w + "for (_loop_index, "@ + targets@[0]@,
            decreases targets@.len() - k,
        {
            let ghost t1 = *self;
            self.locals.insert(clone_chars(&targets[k]));
            self.write_chars(&targets[k]);
            proof {
                assert(t1.buf@.is_prefix_of(self.buf@)) by {
                    assert(self.buf@.take(t1.buf@.len() as int) =~= t1.buf@);
                }
                lemma_gen_mono_trans(s0, t1, *self);
                if k == 0 {
                    assert(self.buf@ =~= sw.buf@ + pad_w + "for (_loop_index, "@ + targets@[0]@);
                }
            }
            k = k + 1;
        }
        proof {
            // the loop header's opening and the target name are contiguous
            match var {
                Target::Name(n) => {
                    assert(self.buf@ =~= (sw.buf@ + pad_w) + ("for (_loop_index, "@ + n@)
                        + Seq::<char>::empty());
                    crate::text::lemma_contains_intro(
                        sw.buf@ + pad_w,
                        "for (_loop_index, "@ + n@,
                        Seq::<char>::empty(),
                    );
                },
            }
        }
        let ghost sh = *self;
        let mut tail = chars_of(") in (&");
        push_chars(&mut tail, &code);
        push_str(&mut tail, ").into_iter().enumerate() {");
        proof {
            reveal_strlit(").into_iter().enumerate() {");
            reveal_strlit("}");
            assert(").into_iter().enumerate() {"@.len() == 27);
            assert(").into_iter().enumerate() {"@[26int] == '{');
            assert(tail@[tail@.len() - 1] == '{');
            assert(tail@.len() > 1);
            assert(tail@ != "}"@);
        }
        let ghost s2 = *self;
        match self.writeln_chars(&tail) {
            Ok(_) => {},
            Err(e) => {
                proof {
                    lemma_gen_mono_trans(s0, s2, *final(self));
                    lemma_gen_mono_trans(*old(self), s0, *final(self));
                }
                return Err(e);
            },
        }
        proof {
            assert(s2.buf@.is_prefix_of(self.buf@)) by {
                assert(self.buf@.take(s2.buf@.len() as int) =~= s2.buf@);
            }
            lemma_gen_mono_trans(s0, s2, *self);
            // the enumerated-iterator text stands in the buffer
            let pad2 = (if s2.start {
                spaces(4 * s2.indent as nat)
            } else {
                Seq::<char>::empty()
            });
            assert(self.buf@ =~= ((s2.buf@ + pad2) + (") in (&"@ + code@))
                + ").into_iter().enumerate() {"@ + seq!['\n']);
            crate::text::lemma_contains_intro(
                (s2.buf@ + pad2) + (") in (&"@ + code@),
                ").into_iter().enumerate() {"@,
                seq!['\n'],
            );
            match var {
                Target::Name(n) => {
                    crate::text::lemma_contains_prefix_extend(
                        sh.buf@,
                        self.buf@,
                        "for (_loop_index, "@ + n@,
                    );
                },
            }
        }
        let ghost s3 = *self;
        match self.handle(state, body, AstLevel::Nested, depth) {
            Ok(_) => {},
            Err(e) => {
                proof {
                    lemma_gen_mono_trans(s0, s3, *final(self));
                    lemma_gen_mono_trans(*old(self), s0, *final(self));
                }
                return Err(e);
            },
        }
        let ghost s3b = *self;
        self.handle_ws(ws2);
        let ghost s4 = *self;
        proof {
            assert(s3.buf@.is_prefix_of(s4.buf@)) by {
                assert(s4.buf@.take(s3.buf@.len() as int) =~= s3.buf@);
            }
            assert(s3b.buf@.is_prefix_of(s4.buf@)) by {
                assert(s4.buf@.take(s3b.buf@.len() as int) =~= s3b.buf@);
            }
            lemma_nodes_marked_extend(body@, state.input.escaping, s3b.buf@, s4.buf@);
        }
        let res = self.writeln("}");
        proof {
            reveal_strlit("}");
            assert(res is Ok);
            assert(s4.buf@.is_prefix_of(self.buf@)) by {
                assert(self.buf@.take(s4.buf@.len() as int) =~= s4.buf@);
            }
        }
        self.locals.pop();
        proof {
            lemma_gen_mono_trans(s0, s3, s4);
            lemma_gen_mono_trans(s0, s4, *self);
            lemma_gen_mono_trans(*old(self), s0, *self);
            assert(self.locals.scopes@ =~= old(self).locals.scopes@);
            match var {
                Target::Name(n) => {
                    crate::text::lemma_contains_prefix_extend(
                        s3.buf@,
                        self.buf@,
                        "for (_loop_index, "@ + n@,
                    );
                },
            }
            crate::text::lemma_contains_prefix_extend(
                s3.buf@,
                self.buf@,
                ").into_iter().enumerate() {"@,
            );
            lemma_nodes_marked_extend(body@, state.input.escaping, s4.buf@, self.buf@);
        }
        Ok(())
    }

    /// Emits a macro call: the macro is looked up (a later definition
    /// shadows an earlier one), each parameter is bound by reference to the
    /// corresponding caller argument in a fresh scope, and the macro body is
    /// walked inside it. The caller's trailing sigil is prepared only after
    /// the macro's own leading whitespace, which dominates.
    #[verifier::loop_isolation(false)]
    pub fn write_call(
        &mut self,
        state: &State,
        ws: &WS,
        scope: &Option<Vec<char>>,
        name: &Vec<char>,
        args: &Vec<Expr>,
        depth: u64,
    ) -> (r: Result<(), GenError>)
        requires
            old(self).locals.wf(),
        ensures
            gen_mono(*old(self), *final(self)),
            r is Ok ==> emit_frame(*old(self), *final(self)),
            (forall|j: int|
                0 <= j < state.macros@.len() ==> !key_matches(
                    #[trigger] state.macros@[j],
                    *scope,
                    *name,
                )) ==> r == Err::<(), GenError>(GenError::UnknownMacro) && *final(self) == *old(
                self,
            ),
            r is Ok ==> (exists|j: int|
                {
                    &&& 0 <= j < state.macros@.len()
                    &&& #[trigger] key_matches(state.macros@[j], *scope, *name)
                    &&& (forall|k: int|
                        0 <= k < state.macros@[j].2.args@.len() ==> contains_seq(
                            final(self).buf@,
                            "let "@ + #[trigger] state.macros@[j].2.args@[k]@ + " = &"@,
                        ))
                    &&& nodes_marked(
                        state.macros@[j].2.nodes@,
                        state.input.escaping,
                        final(self).buf@,
                    )
                }),
        decreases depth, 0int, 0int,
    {
        proof {
            crate::text::lemma_prefix_refl(old(self).buf@);
        }
        let idx = match Self::find_macro(state, scope, name) {
            Some(i) => i,
            None => {
                return Err(GenError::UnknownMacro);
            },
        };
        let mac = &state.macros[idx].2;
        if depth == 0 {
            return Err(GenError::RecursionLimit);
        }
        self.flush_ws(ws);
        self.locals.push();
        let ghost s0 = *self;
        proof {
            assert(old(self).buf@.is_prefix_of(s0.buf@)) by {
                assert(s0.buf@.take(old(self).buf@.len() as int) =~= old(self).buf@);
            }
        }
        match self.writeln("{") {
            Ok(_) => {},
            Err(e) => {
                proof {
                    lemma_gen_mono_trans(*old(self), s0, *final(self));
                }
                return Err(e);
            },
        }
        proof {
            reveal_strlit("{");
            reveal_strlit("}");
            assert("{"@.len() == 1);
            assert("{"@[0int] == '{');
            assert("{"@ != "}"@);
            assert(s0.buf@.is_prefix_of(self.buf@)) by {
                assert(self.buf@.take(s0.buf@.len() as int) =~= s0.buf@);
            }
        }
        self.prepare_ws(&mac.ws1);
        let mut i: usize = 0;
        while i < mac.args.len()
            invariant
                i <= mac.args@.len(),
                gen_mono(s0, *self),
                self.locals.wf(),
                self.locals.depth() == s0.locals.depth(),
                forall|q: int|
                    0 <= q < s0.locals.scopes@.len() - 1 ==> self.locals.scopes@[q]
                        == s0.locals.scopes@[q],
                self.impl_blocks == s0.impl_blocks,
                self.indent == s0.indent + 1,
                forall|k: int|
                    0 <= k < i ==> contains_seq(
                        self.buf@,
                        "let "@ + #[trigger] mac.args@[k]@ + " = &"@,
                    ),
            decreases mac.args@.len() - i,
        {
            if i >= args.len() {
                proof {
                    lemma_gen_mono_trans(*old(self), s0, *final(self));
                }
                return Err(GenError::MacroArgumentMissing);
            }
            let ghost t1 = *self;
            let code = match self.visit_expr_root(state, &args[i]) {
                Ok(c) => c,
                Err(e) => {
                    proof {
                        lemma_gen_mono_trans(s0, t1, *final(self));
                        lemma_gen_mono_trans(*old(self), s0, *final(self));
                    }
                    return Err(e);
                },
            };
            let ghost t1b = *self;
            let mut line = chars_of("let ");
            push_chars(&mut line, &mac.args[i]);
            let ghost bind = line@;
            push_str(&mut line, " = &");
            push_chars(&mut line, &code);
            line.push(';');
            self.write_chars(&line);
            self.locals.insert(clone_chars(&mac.args[i]));
            proof {
                assert(t1.buf@.is_prefix_of(self.buf@)) by {
                    assert(self.buf@.take(t1.buf@.len() as int) =~= t1.buf@);
                }
                lemma_gen_mono_trans(s0, t1, *self);
                // the parameter's binding stands in the buffer
                let padb = (if t1b.start {
                    spaces(4 * t1b.indent as nat)
                } else {
                    Seq::<char>::empty()
                });
                assert(self.buf@ =~= (t1b.buf@ + padb) + ("let "@ + mac.args@[i as int]@
                    + " = &"@) + (code@ + seq![';']));
                crate::text::lemma_contains_intro(
                    t1b.buf@ + padb,
                    "let "@ + mac.args@[i as int]@ + " = &"@,
                    code@ + seq![';'],
                );
                assert(t1.buf@.is_prefix_of(t1b.buf@)) by {
                    assert(t1b.buf@.take(t1.buf@.len() as int) =~= t1.buf@);
                }
                lemma_bindings_extend(mac.args@.take(i as int), t1.buf@, self.buf@);
                assert forall|k: int|
                    0 <= k < i + 1 implies contains_seq(
                    self.buf@,
                    "let "@ + #[trigger] mac.args@[k]@ + " = &"@,
                ) by {
                    if k < i {
                        assert(mac.args@.take(i as int)[k] == mac.args@[k]);
                        assert(contains_seq(
                            self.buf@,
                            "let "@ + mac.args@.take(i as int)[k]@ + " = &"@,
                        ));
                    }
                }
            }
            i = i + 1;
        }
        let ghost s2 = *self;
        match self.handle(state, &mac.nodes, AstLevel::Nested, depth - 1) {
            Ok(_) => {},
            Err(e) => {
                proof {
                    lemma_gen_mono_trans(s0, s2, *final(self));
                    lemma_gen_mono_trans(*old(self), s0, *final(self));
                }
                return Err(e);
            },
        }
        let ghost s2b = *self;
        self.flush_ws(&mac.ws2);
        let ghost s3 = *self;
        proof {
            assert(s2.buf@.is_prefix_of(s3.buf@)) by {
                assert(s3.buf@.take(s2.buf@.len() as int) =~= s2.buf@);
            }
            assert(s2b.buf@.is_prefix_of(s3.buf@)) by {
                assert(s3.buf@.take(s2b.buf@.len() as int) =~= s2b.buf@);
            }
        }
        let res = self.writeln("}");
        proof {
            reveal_strlit("}");
            assert(res is Ok);
            assert(s3.buf@.is_prefix_of(self.buf@)) by {
                assert(self.buf@.take(s3.buf@.len() as int) =~= s3.buf@);
            }
        }
        self.locals.pop();
        self.prepare_ws(ws);
        proof {
            lemma_gen_mono_trans(s0, s2, s3);
            lemma_gen_mono_trans(s0, s3, *self);
            lemma_gen_mono_trans(*old(self), s0, *self);
            assert(self.locals.scopes@ =~= old(self).locals.scopes@);
            // the matched entry carries its bindings and its body's landmarks
            assert(s2.buf@.is_prefix_of(self.buf@)) by {
                crate::text::lemma_prefix_trans(s2.buf@, s3.buf@, self.buf@);
            }
            lemma_bindings_extend(state.macros@[idx as int].2.args@, s2.buf@, self.buf@);
            assert(s2b.buf@.is_prefix_of(self.buf@)) by {
                crate::text::lemma_prefix_trans(s2b.buf@, s3.buf@, self.buf@);
            }
            lemma_nodes_marked_extend(
                state.macros@[idx as int].2.nodes@,
                state.input.escaping,
                s2b.buf@,
                self.buf@,
            );
            assert(key_matches(state.macros@[idx as int], *scope, *name));
        }
        Ok(())
    }

    /// Emits an included template: its source is resolved through the loader,
    /// parsed, and generated by a child generator whose name chain sees the
    /// caller's names; the child's output is spliced in verbatim.
    #[verifier::loop_isolation(false)]
    pub fn handle_include(&mut self, state: &State, ws: &WS, path: &Vec<char>, depth: u64) -> (r:
        Result<(), GenError>)
        requires
            old(self).locals.wf(),
        ensures
            gen_mono(*old(self), *final(self)),
            r is Ok ==> emit_frame(*old(self), *final(self)),
            crate::input::loader_find(state.loader.entries@, path@) is None ==> r == Err::<
                (),
                GenError,
            >(GenError::TemplateNotFound),
        decreases depth, 0int, 0int,
    {
        proof {
            crate::text::lemma_prefix_refl(old(self).buf@);
        }
        self.flush_ws(ws);
        let ghost s0 = *self;
        proof {
            assert(old(self).buf@.is_prefix_of(s0.buf@)) by {
                assert(s0.buf@.take(old(self).buf@.len() as int) =~= old(self).buf@);
            }
        }
        let (_resolved, src) = match state.loader.get(path) {
            Some(v) => v,
            None => {
                return Err(GenError::TemplateNotFound);
            },
        };
        let nodes = match crate::parser::parse_chars(&src) {
            Ok(n) => n,
            Err(pe) => {
                return Err(GenError::IncludeSyntax(pe));
            },
        };
        if depth == 0 {
            return Err(GenError::RecursionLimit);
        }
        let mut inner = self.child();
        match inner.handle(state, &nodes, AstLevel::Nested, depth - 1) {
            Ok(_) => {},
            Err(e) => {
                return Err(e);
            },
        }
        push_chars(&mut self.buf, &inner.buf);
        self.prepare_ws(ws);
        proof {
            assert(s0.buf@.is_prefix_of(self.buf@)) by {
                assert(self.buf@.take(s0.buf@.len() as int) =~= s0.buf@);
            }
            lemma_gen_mono_trans(*old(self), s0, *self);
        }
        Ok(())
    }
}

/// The bound on include and macro-call nesting.
pub const MAX_NESTING: u64 = 64;

impl Generator {
    /// Emits the header of an `impl` of `target` for the host type, with the
    /// host's generics and `where` clause reproduced verbatim.
    pub fn write_header(&mut self, state: &State, target: &Vec<char>) -> (r: Result<(), GenError>)
        ensures
            gen_mono(*old(self), *final(self)),
            r is Ok ==> {
                &&& final(self).indent == old(self).indent + 1
                &&& final(self).locals.scopes@ == old(self).locals.scopes@
                &&& final(self).impl_blocks == old(self).impl_blocks
            },
    {
        proof {
            crate::text::lemma_prefix_refl(old(self).buf@);
        }
        let mut line = chars_of("impl");
        push_chars(&mut line, &state.input.impl_generics);
        line.push(' ');
        push_chars(&mut line, target);
        push_str(&mut line, " for ");
        push_chars(&mut line, &state.input.ident);
        push_chars(&mut line, &state.input.ty_generics);
        push_chars(&mut line, &state.input.where_clause);
        push_str(&mut line, " {");
        proof {
            reveal_strlit(" {");
            reveal_strlit("}");
            assert(" {"@.len() == 2);
            assert(" {"@[1int] == '{');
            assert(line@[line@.len() - 1] == '{');
            assert(line@.len() > 1);
            assert(line@ != "}"@);
        }
        let res = self.writeln_chars(&line);
        proof {
            if res is Ok {
                assert(old(self).buf@.is_prefix_of(self.buf@)) by {
                    assert(self.buf@.take(old(self).buf@.len() as int) =~= old(self).buf@);
                }
            }
        }
        res
    }

    /// Emits one line and proves it is a plain line: neither a lone closing
    /// brace nor an opening one, so the indentation is untouched.
    fn writeln_plain(&mut self, s: &Vec<char>) -> (r: Result<(), GenError>)
        requires
            s@.len() > 0,
            s@[s@.len() - 1] != '{',
            s@[s@.len() - 1] != '}',
        ensures
            r is Ok,
            gen_mono(*old(self), *final(self)),
            final(self).buf@ == old(self).buf@ + wline(old(self).start, old(self).indent as nat, s@),
            final(self).start == true,
            final(self).indent == old(self).indent,
            final(self).locals == old(self).locals,
            final(self).next_ws == old(self).next_ws,
            final(self).skip_ws == old(self).skip_ws,
            final(self).vars == old(self).vars,
            final(self).impl_blocks == old(self).impl_blocks,
    {
        proof {
            reveal_strlit("}");
            assert("}"@.len() == 1);
            assert("}"@[0int] == '}');
            assert(s@ != "}"@);
            crate::text::lemma_prefix_refl(old(self).buf@);
        }
        let res = self.writeln_chars(s);
        proof {
            assert(res is Ok);
            assert(old(self).buf@.is_prefix_of(self.buf@)) by {
                assert(self.buf@.take(old(self).buf@.len() as int) =~= old(self).buf@);
            }
        }
        res
    }

    /// Emits one renderer per collected block definition: each walks the
    /// block's body in a fresh scope, at block level so that nested block
    /// definitions render as calls.
    #[verifier::loop_isolation(false)]
    pub fn write_block_defs(&mut self, state: &State, depth: u64) -> (r: Result<(), GenError>)
        requires
            old(self).locals.wf(),
            forall|j: int| 0 <= j < state.blocks@.len() ==> #[trigger] state.blocks@[j] is BlockDef,
        ensures
            gen_mono(*old(self), *final(self)),
            r is Ok ==> {
                &&& final(self).indent == old(self).indent
                &&& final(self).locals.scopes@ == old(self).locals.scopes@
                &&& final(self).impl_blocks == old(self).impl_blocks
            },
            r is Ok ==> (forall|j: int|
                0 <= j < state.blocks@.len() ==> block_sig_written(
                    #[trigger] state.blocks@[j],
                    final(self).buf@,
                )),
    {
        proof {
            crate::text::lemma_prefix_refl(old(self).buf@);
        }
        let mut i: usize = 0;
        while i < state.blocks.len()
            invariant
                i <= state.blocks@.len(),
                gen_mono(*old(self), *self),
                self.locals.wf(),
                self.locals.scopes@ == old(self).locals.scopes@,
                self.impl_blocks == old(self).impl_blocks,
                self.indent == old(self).indent,
                forall|j: int|
                    0 <= j < i ==> block_sig_written(#[trigger] state.blocks@[j], self.buf@),
            decreases state.blocks@.len() - i,
        {
            let ghost s1 = *self;
            match &state.blocks[i] {
                Node::BlockDef(ws1, name, nodes, ws2) => {
                    let allow_line = chars_of("#[allow(unused_variables)]");
                    proof {
                        reveal_strlit("#[allow(unused_variables)]");
                        assert(allow_line@[allow_line@.len() - 1] == ']');
                    }
                    match self.writeln_plain(&allow_line) {
                        Ok(_) => {},
                        Err(e) => {
                            proof {
                                lemma_gen_mono_trans(*old(self), s1, *final(self));
                            }
                            return Err(e);
                        },
                    }
                    let mut head = chars_of("fn render_block_");
                    push_chars(&mut head, name);
                    push_str(
                        &mut head,
                        "_into(&self, writer: &mut ::std::fmt::Write) -> ::askama::Result<()> {",
                    );
                    proof {
                        reveal_strlit(
                            "_into(&self, writer: &mut ::std::fmt::Write) -> ::askama::Result<()> {",
                        );
                        reveal_strlit("}");
                        assert(head@[head@.len() - 1] == '{');
                        assert(head@.len() > 1);
                        assert(head@ != "}"@);
                    }
                    let ghost s2 = *self;
                    match self.writeln_chars(&head) {
                        Ok(_) => {},
                        Err(e) => {
                            proof {
                                lemma_gen_mono_trans(*old(self), s2, *final(self));
                            }
                            return Err(e);
                        },
                    }
                    proof {
                        assert(s2.buf@.is_prefix_of(self.buf@)) by {
                            assert(self.buf@.take(s2.buf@.len() as int) =~= s2.buf@);
                        }
                        lemma_gen_mono_trans(*old(self), s2, *self);
                        // the block renderer's signature stands in the buffer
                        let padh = (if s2.start {
                            spaces(4 * s2.indent as nat)
                        } else {
                            Seq::<char>::empty()
                        });
                        assert(self.buf@ =~= (s2.buf@ + padh) + ("fn render_block_"@ + name@)
                            + ("_into(&self, writer: &mut ::std::fmt::Write) -> ::askama::Result<()> {"@
                            + seq!['\n']));
                        crate::text::lemma_contains_intro(
                            s2.buf@ + padh,
                            "fn render_block_"@ + name@,
                            "_into(&self, writer: &mut ::std::fmt::Write) -> ::askama::Result<()> {"@
                                + seq!['\n'],
                        );
                    }
                    self.prepare_ws(ws1);
                    self.locals.push();
                    let ghost s3 = *self;
                    match self.handle(state, nodes, AstLevel::Block, depth) {
                        Ok(_) => {},
                        Err(e) => {
                            proof {
                                lemma_gen_mono_trans(*old(self), s3, *final(self));
                            }
                            return Err(e);
                        },
                    }
                    self.locals.pop();
                    self.flush_ws(ws2);
                    let ghost s4 = *self;
                    proof {
                        assert(s3.buf@.is_prefix_of(s4.buf@)) by {
                            assert(s4.buf@.take(s3.buf@.len() as int) =~= s3.buf@);
                        }
                    }
                    let ok_line = chars_of("Ok(())");
                    proof {
                        reveal_strlit("Ok(())");
                        assert(ok_line@[ok_line@.len() - 1] == ')');
                    }
                    let _ = self.writeln_plain(&ok_line);
                    let res2 = self.writeln("}");
                    proof {
                        reveal_strlit("}");
                        assert(res2 is Ok);
                        assert(s4.buf@.is_prefix_of(self.buf@)) by {
                            assert(self.buf@.take(s4.buf@.len() as int) =~= s4.buf@);
                        }
                        lemma_gen_mono_trans(*old(self), s3, s4);
                        lemma_gen_mono_trans(*old(self), s4, *self);
                        assert(self.locals.scopes@ =~= old(self).locals.scopes@);
                        // earlier signatures and this one survive the growth
                        lemma_block_sigs_extend(
                            state.blocks@.take(i as int),
                            s1.buf@,
                            self.buf@,
                        );
                        assert forall|j: int|
                            0 <= j < i + 1 implies block_sig_written(
                            #[trigger] state.blocks@[j],
                            self.buf@,
                        ) by {
                            if j < i {
                                assert(state.blocks@.take(i as int)[j] == state.blocks@[j]);
                                assert(block_sig_written(
                                    state.blocks@.take(i as int)[j],
                                    self.buf@,
                                ));
                            } else {
                                crate::text::lemma_contains_prefix_extend(
                                    s3.buf@,
                                    self.buf@,
                                    "fn render_block_"@ + name@,
                                );
                            }
                        }
                    }
                },
                _ => {
                    proof {
                        assert(false);
                    }
                },
            }
            i = i + 1;
        }
        Ok(())
    }

    /// Emits the rendering entry point for a template without blocks: the
    /// whole node sequence is walked at top level, so every literal body
    /// stands in the output as its sink write.
    #[verifier::rlimit(100)]
    #[verifier::spinoff_prover]
    pub fn impl_template(&mut self, state: &State, depth: u64) -> (r: Result<(), GenError>)
        requires
            old(self).locals.wf(),
        ensures
            gen_mono(*old(self), *final(self)),
            r is Ok ==> contains_seq(
                final(self).buf@,
                "fn render_into(&self, writer: &mut ::std::fmt::Write) -> ::askama::Result<()>"@,
            ),
            r is Ok ==> nodes_marked(state.nodes@, state.input.escaping, final(self).buf@),
    {
        proof {
            crate::text::lemma_prefix_refl(old(self).buf@);
        }
        let tgt = chars_of("::askama::Template");
        match self.write_header(state, &tgt) {
            Ok(_) => {},
            Err(e) => {
                return Err(e);
            },
        }
        let ghost s1 = *self;
        let mut fn_line = chars_of(
            "fn render_into(&self, writer: &mut ::std::fmt::Write) -> ::askama::Result<()>",
        );
        let ghost sig = fn_line@;
        push_str(&mut fn_line, " {");
        proof {
            reveal_strlit(" {");
            reveal_strlit("}");
            assert(" {"@.len() == 2);
            assert(" {"@[1int] == '{');
            assert(fn_line@[fn_line@.len() - 1] == '{');
            assert(fn_line@.len() > 1);
            assert(fn_line@ != "}"@);
        }
        match self.writeln_chars(&fn_line) {
            Ok(_) => {},
            Err(e) => {
                proof {
                    lemma_gen_mono_trans(*old(self), s1, *final(self));
                }
                return Err(e);
            },
        }
        proof {
            let pad = (if s1.start {
                spaces(4 * s1.indent as nat)
            } else {
                Seq::<char>::empty()
            });
            assert(self.buf@ =~= (s1.buf@ + pad) + sig + (" {"@ + seq!['\n']));
            crate::text::lemma_contains_intro(s1.buf@ + pad, sig, " {"@ + seq!['\n']);
            assert(s1.buf@.is_prefix_of(self.buf@)) by {
                assert(self.buf@.take(s1.buf@.len() as int) =~= s1.buf@);
            }
            lemma_gen_mono_trans(*old(self), s1, *self);
        }
        let imports_line = chars_of(
            "#[allow(unused_imports)] use ::std::ops::Deref as HiddenDerefTrait;",
        );
        proof {
            reveal_strlit("#[allow(unused_imports)] use ::std::ops::Deref as HiddenDerefTrait;");
            assert(imports_line@[imports_line@.len() - 1] == ';');
        }
        let ghost s2 = *self;
        let _ = self.writeln_plain(&imports_line);
        proof {
            lemma_gen_mono_trans(*old(self), s2, *self);
            crate::text::lemma_contains_prefix_extend(s2.buf@, self.buf@, sig);
        }
        let ghost s3 = *self;
        match self.handle(state, &state.nodes, AstLevel::Top, depth) {
            Ok(_) => {},
            Err(e) => {
                proof {
                    lemma_gen_mono_trans(*old(self), s3, *final(self));
                }
                return Err(e);
            },
        }
        let ghost s3b = *self;
        proof {
            crate::text::lemma_contains_prefix_extend(s3.buf@, s3b.buf@, sig);
        }
        self.flush_ws(&WS(false, false));
        let ghost s4 = *self;
        proof {
            assert(s3b.buf@.is_prefix_of(s4.buf@)) by {
                assert(s4.buf@.take(s3b.buf@.len() as int) =~= s3b.buf@);
            }
            lemma_gen_mono_trans(*old(self), s3, s4);
            crate::text::lemma_contains_prefix_extend(s3b.buf@, s4.buf@, sig);
            lemma_nodes_marked_extend(state.nodes@, state.input.escaping, s3b.buf@, s4.buf@);
        }
        let ok_line = chars_of("Ok(())");
        proof {
            reveal_strlit("Ok(())");
            assert(ok_line@[ok_line@.len() - 1] == ')');
        }
        let _ = self.writeln_plain(&ok_line);
        let ghost s5 = *self;
        proof {
            lemma_gen_mono_trans(*old(self), s4, s5);
            crate::text::lemma_contains_prefix_extend(s4.buf@, s5.buf@, sig);
            lemma_nodes_marked_extend(state.nodes@, state.input.escaping, s4.buf@, s5.buf@);
        }
        match self.writeln("}") {
            Ok(_) => {},
            Err(e) => {
                proof {
                    lemma_gen_mono_trans(*old(self), s5, *final(self));
                }
                return Err(e);
            },
        }
        let ghost s6 = *self;
        proof {
            reveal_strlit("}");
            assert(s5.buf@.is_prefix_of(s6.buf@)) by {
                assert(s6.buf@.take(s5.buf@.len() as int) =~= s5.buf@);
            }
            lemma_gen_mono_trans(*old(self), s5, s6);
            crate::text::lemma_contains_prefix_extend(s5.buf@, s6.buf@, sig);
            lemma_nodes_marked_extend(state.nodes@, state.input.escaping, s5.buf@, s6.buf@);
        }
        match self.writeln("}") {
            Ok(_) => {},
            Err(e) => {
                proof {
                    lemma_gen_mono_trans(*old(self), s6, *final(self));
                }
                return Err(e);
            },
        }
        proof {
            assert(s6.buf@.is_prefix_of(self.buf@)) by {
                assert(self.buf@.take(s6.buf@.len() as int) =~= s6.buf@);
            }
            lemma_gen_mono_trans(*old(self), s6, *self);
            crate::text::lemma_contains_prefix_extend(s6.buf@, self.buf@, sig);
            lemma_nodes_marked_extend(state.nodes@, state.input.escaping, s6.buf@, self.buf@);
        }
        Ok(())
    }
}

impl Generator {
    /// Emits a closing brace line, lowering the indentation.
    fn close_brace(&mut self) -> (r: Result<(), GenError>)
        ensures
            gen_mono(*old(self), *final(self)),
            r is Err <==> old(self).indent == 0,
            r is Ok ==> {
                &&& final(self).indent == old(self).indent - 1
                &&& final(self).locals == old(self).locals
                &&& final(self).next_ws == old(self).next_ws
                &&& final(self).skip_ws == old(self).skip_ws
                &&& final(self).vars == old(self).vars
                &&& final(self).impl_blocks == old(self).impl_blocks
            },
    {
        proof {
            reveal_strlit("}");
            assert("}"@.len() == 1);
            assert("}"@[0int] == '}');
            crate::text::lemma_prefix_refl(old(self).buf@);
        }
        let res = self.writeln("}");
        proof {
            if res is Ok {
                assert(old(self).buf@.is_prefix_of(self.buf@)) by {
                    assert(self.buf@.take(old(self).buf@.len() as int) =~= old(self).buf@);
                }
            }
        }
        res
    }

    /// Emits the display adaptor: it delegates to the renderer and coerces
    /// its error to the generic formatter error.
    pub fn impl_display(&mut self, state: &State) -> (r: Result<(), GenError>)
        ensures
            gen_mono(*old(self), *final(self)),
            r is Ok ==> contains_seq(
                final(self).buf@,
                "self.render_into(f).map_err(|_| ::std::fmt::Error {})"@,
            ),
    {
        proof {
            crate::text::lemma_prefix_refl(old(self).buf@);
        }
        let tgt = chars_of("::std::fmt::Display");
        match self.write_header(state, &tgt) {
            Ok(_) => {},
            Err(e) => {
                return Err(e);
            },
        }
        let ghost s1 = *self;
        let fn_line = chars_of(
            "fn fmt(&self, f: &mut ::std::fmt::Formatter) -> ::std::fmt::Result {",
        );
        proof {
            reveal_strlit("fn fmt(&self, f: &mut ::std::fmt::Formatter) -> ::std::fmt::Result {");
            reveal_strlit("}");
            assert(fn_line@[fn_line@.len() - 1] == '{');
            assert(fn_line@.len() > 1);
            assert(fn_line@ != "}"@);
        }
        match self.writeln_chars(&fn_line) {
            Ok(_) => {},
            Err(e) => {
                proof {
                    lemma_gen_mono_trans(*old(self), s1, *final(self));
                }
                return Err(e);
            },
        }
        proof {
            assert(s1.buf@.is_prefix_of(self.buf@)) by {
                assert(self.buf@.take(s1.buf@.len() as int) =~= s1.buf@);
            }
            lemma_gen_mono_trans(*old(self), s1, *self);
        }
        let body_line = chars_of("self.render_into(f).map_err(|_| ::std::fmt::Error {})");
        proof {
            reveal_strlit("self.render_into(f).map_err(|_| ::std::fmt::Error {})");
            assert(body_line@[body_line@.len() - 1] == ')');
        }
        let ghost s2 = *self;
        let _ = self.writeln_plain(&body_line);
        proof {
            lemma_gen_mono_trans(*old(self), s2, *self);
            // the delegation line stands in the buffer
            let padb = (if s2.start {
                spaces(4 * s2.indent as nat)
            } else {
                Seq::<char>::empty()
            });
            assert(self.buf@ =~= (s2.buf@ + padb) + body_line@ + seq!['\n']);
            crate::text::lemma_contains_intro(s2.buf@ + padb, body_line@, seq!['\n']);
        }
        let ghost s3 = *self;
        match self.close_brace() {
            Ok(_) => {},
            Err(e) => {
                proof {
                    lemma_gen_mono_trans(*old(self), s3, *final(self));
                }
                return Err(e);
            },
        }
        let ghost s4 = *self;
        proof {
            lemma_gen_mono_trans(*old(self), s3, s4);
            crate::text::lemma_contains_prefix_extend(s3.buf@, s4.buf@, body_line@);
        }
        match self.close_brace() {
            Ok(_) => {},
            Err(e) => {
                proof {
                    lemma_gen_mono_trans(*old(self), s4, *final(self));
                }
                return Err(e);
            },
        }
        proof {
            lemma_gen_mono_trans(*old(self), s4, *self);
            crate::text::lemma_contains_prefix_extend(s4.buf@, self.buf@, body_line@);
        }
        Ok(())
    }

    /// Emits the dereference from an extending host type to its `_parent`
    /// field, whose type the introspection layer supplied.
    #[verifier::rlimit(100)]
    #[verifier::spinoff_prover]
    pub fn deref_to_parent(&mut self, state: &State, parent_type: &Vec<char>) -> (r: Result<
        (),
        GenError,
    >)
        ensures
            gen_mono(*old(self), *final(self)),
            r is Ok ==> final(self).locals.scopes@ == old(self).locals.scopes@,
            r is Ok ==> contains_seq(
                final(self).buf@,
                "type Target = "@ + parent_type@ + ";"@,
            ),
            r is Ok ==> contains_seq(final(self).buf@, "&self._parent"@),
    {
        proof {
            crate::text::lemma_prefix_refl(old(self).buf@);
        }
        let tgt = chars_of("::std::ops::Deref");
        match self.write_header(state, &tgt) {
            Ok(_) => {},
            Err(e) => {
                return Err(e);
            },
        }
        let ghost s1 = *self;
        let mut ty_line = chars_of("type Target = ");
        push_chars(&mut ty_line, parent_type);
        push_str(&mut ty_line, ";");
        proof {
            reveal_strlit(";");
            assert(";"@.len() == 1);
            assert(";"@[0int] == ';');
            assert(ty_line@[ty_line@.len() - 1] == ';');
        }
        let _ = self.writeln_plain(&ty_line);
        proof {
            lemma_gen_mono_trans(*old(self), s1, *self);
            // the target-type line stands in the buffer
            let padt = (if s1.start {
                spaces(4 * s1.indent as nat)
            } else {
                Seq::<char>::empty()
            });
            assert(self.buf@ =~= (s1.buf@ + padt) + ("type Target = "@ + parent_type@ + ";"@)
                + seq!['\n']);
            crate::text::lemma_contains_intro(
                s1.buf@ + padt,
                "type Target = "@ + parent_type@ + ";"@,
                seq!['\n'],
            );
        }
        let ghost s2 = *self;
        let fn_line = chars_of("fn deref(&self) -> &Self::Target {");
        proof {
            reveal_strlit("fn deref(&self) -> &Self::Target {");
            reveal_strlit("}");
            assert(fn_line@[fn_line@.len() - 1] == '{');
            assert(fn_line@.len() > 1);
            assert(fn_line@ != "}"@);
        }
        match self.writeln_chars(&fn_line) {
            Ok(_) => {},
            Err(e) => {
                proof {
                    lemma_gen_mono_trans(*old(self), s2, *final(self));
                }
                return Err(e);
            },
        }
        proof {
            assert(s2.buf@.is_prefix_of(self.buf@)) by {
                assert(self.buf@.take(s2.buf@.len() as int) =~= s2.buf@);
            }
            lemma_gen_mono_trans(*old(self), s2, *self);
        }
        let ghost s3 = *self;
        proof {
            assert(s2.buf@.is_prefix_of(s3.buf@)) by {
                assert(s3.buf@.take(s2.buf@.len() as int) =~= s2.buf@);
            }
            crate::text::lemma_contains_prefix_extend(
                s2.buf@,
                s3.buf@,
                "type Target = "@ + parent_type@ + ";"@,
            );
        }
        let body_line = chars_of("&self._parent");
        proof {
            reveal_strlit("&self._parent");
            assert(body_line@[body_line@.len() - 1] == 't');
        }
        let _ = self.writeln_plain(&body_line);
        proof {
            lemma_gen_mono_trans(*old(self), s3, *self);
            let padp = (if s3.start {
                spaces(4 * s3.indent as nat)
            } else {
                Seq::<char>::empty()
            });
            assert(self.buf@ =~= (s3.buf@ + padp) + body_line@ + seq!['\n']);
            crate::text::lemma_contains_intro(s3.buf@ + padp, body_line@, seq!['\n']);
            crate::text::lemma_contains_prefix_extend(
                s3.buf@,
                self.buf@,
                "type Target = "@ + parent_type@ + ";"@,
            );
        }
        let ghost s4 = *self;
        match self.close_brace() {
            Ok(_) => {},
            Err(e) => {
                proof {
                    lemma_gen_mono_trans(*old(self), s4, *final(self));
                }
                return Err(e);
            },
        }
        let ghost s5 = *self;
        proof {
            lemma_gen_mono_trans(*old(self), s4, s5);
            crate::text::lemma_contains_prefix_extend(
                s4.buf@,
                s5.buf@,
                "type Target = "@ + parent_type@ + ";"@,
            );
            crate::text::lemma_contains_prefix_extend(s4.buf@, s5.buf@, body_line@);
        }
        match self.close_brace() {
            Ok(_) => {},
            Err(e) => {
                proof {
                    lemma_gen_mono_trans(*old(self), s5, *final(self));
                }
                return Err(e);
            },
        }
        proof {
            lemma_gen_mono_trans(*old(self), s5, *self);
            crate::text::lemma_contains_prefix_extend(
                s5.buf@,
                self.buf@,
                "type Target = "@ + parent_type@ + ";"@,
            );
            crate::text::lemma_contains_prefix_extend(s5.buf@, self.buf@, "&self._parent"@);
        }
        Ok(())
    }

    /// Emits the trait definition carrying one renderer per block and the
    /// combined renderer.
    #[verifier::rlimit(100)]
    #[verifier::spinoff_prover]
    pub fn define_trait(&mut self, state: &State, depth: u64) -> (r: Result<(), GenError>)
        requires
            old(self).locals.wf(),
            forall|j: int| 0 <= j < state.blocks@.len() ==> #[trigger] state.blocks@[j] is BlockDef,
        ensures
            gen_mono(*old(self), *final(self)),
            r is Ok ==> final(self).locals.scopes@ == old(self).locals.scopes@,
            r is Ok ==> contains_seq(
                final(self).buf@,
                "pub trait "@ + state.trait_name@ + " {"@,
            ),
    {
        proof {
            crate::text::lemma_prefix_refl(old(self).buf@);
        }
        let ghost sd = *self;
        let mut head = chars_of("pub trait ");
        push_chars(&mut head, &state.trait_name);
        push_str(&mut head, " {");
        proof {
            reveal_strlit(" {");
            reveal_strlit("}");
            assert(" {"@.len() == 2);
            assert(" {"@[1int] == '{');
            assert(head@[head@.len() - 1] == '{');
            assert(head@.len() > 1);
            assert(head@ != "}"@);
        }
        match self.writeln_chars(&head) {
            Ok(_) => {},
            Err(e) => {
                return Err(e);
            },
        }
        proof {
            assert(old(self).buf@.is_prefix_of(self.buf@)) by {
                assert(self.buf@.take(old(self).buf@.len() as int) =~= old(self).buf@);
            }
            // the trait header stands in the buffer
            let padd = (if sd.start {
                spaces(4 * sd.indent as nat)
            } else {
                Seq::<char>::empty()
            });
            assert(self.buf@ =~= (sd.buf@ + padd) + ("pub trait "@ + state.trait_name@ + " {"@)
                + seq!['\n']);
            crate::text::lemma_contains_intro(
                sd.buf@ + padd,
                "pub trait "@ + state.trait_name@ + " {"@,
                seq!['\n'],
            );
        }
        let ghost s1 = *self;
        match self.write_block_defs(state, depth) {
            Ok(_) => {},
            Err(e) => {
                proof {
                    lemma_gen_mono_trans(*old(self), s1, *final(self));
                }
                return Err(e);
            },
        }
        let ghost s2 = *self;
        proof {
            lemma_gen_mono_trans(*old(self), s1, s2);
            crate::text::lemma_contains_prefix_extend(
                s1.buf@,
                s2.buf@,
                "pub trait "@ + state.trait_name@ + " {"@,
            );
        }
        let mut sig = chars_of("fn render_trait_into(&self, timpl: &");
        push_chars(&mut sig, &state.trait_name);
        push_str(&mut sig, ", writer: &mut ::std::fmt::Write) -> ::askama::Result<()>;");
        proof {
            reveal_strlit(", writer: &mut ::std::fmt::Write) -> ::askama::Result<()>;");
            assert(sig@[sig@.len() - 1] == ';');
        }
        let _ = self.writeln_plain(&sig);
        proof {
            lemma_gen_mono_trans(*old(self), s2, *self);
            crate::text::lemma_contains_prefix_extend(
                s2.buf@,
                self.buf@,
                "pub trait "@ + state.trait_name@ + " {"@,
            );
        }
        let ghost s3 = *self;
        match self.close_brace() {
            Ok(_) => {},
            Err(e) => {
                proof {
                    lemma_gen_mono_trans(*old(self), s3, *final(self));
                }
                return Err(e);
            },
        }
        proof {
            lemma_gen_mono_trans(*old(self), s3, *self);
            crate::text::lemma_contains_prefix_extend(
                s3.buf@,
                self.buf@,
                "pub trait "@ + state.trait_name@ + " {"@,
            );
        }
        Ok(())
    }

    /// Emits the host type's implementation of the block trait: the block
    /// renderers, and the combined renderer, which walks the template body
    /// using the effective implementation for block dispatch on a base
    /// template, and delegates to the parent on a derived one.
    #[verifier::rlimit(100)]
    #[verifier::spinoff_prover]
    pub fn impl_trait(&mut self, state: &State, nodes: Option<&Vec<Node>>, depth: u64) -> (r:
        Result<(), GenError>)
        requires
            old(self).locals.wf(),
            forall|j: int| 0 <= j < state.blocks@.len() ==> #[trigger] state.blocks@[j] is BlockDef,
        ensures
            gen_mono(*old(self), *final(self)),
            r is Ok ==> contains_seq(
                final(self).buf@,
                "fn render_trait_into(&self, timpl: &"@ + state.trait_name@,
            ),
            r is Ok && nodes is None ==> contains_seq(
                final(self).buf@,
                "self._parent.render_trait_into(self, writer)"@,
            ),
            r is Ok ==> nodes_marked(
                opt_nodes_view(nodes),
                state.input.escaping,
                final(self).buf@,
            ),
            r is Ok ==> (forall|j: int|
                0 <= j < state.blocks@.len() ==> block_sig_written(
                    #[trigger] state.blocks@[j],
                    final(self).buf@,
                )),
    {
        proof {
            crate::text::lemma_prefix_refl(old(self).buf@);
        }
        match self.write_header(state, &state.trait_name) {
            Ok(_) => {},
            Err(e) => {
                return Err(e);
            },
        }
        let ghost s1 = *self;
        match self.write_block_defs(state, depth) {
            Ok(_) => {},
            Err(e) => {
                proof {
                    lemma_gen_mono_trans(*old(self), s1, *final(self));
                }
                return Err(e);
            },
        }
        let ghost s2 = *self;
        proof {
            lemma_gen_mono_trans(*old(self), s1, s2);
        }
        let allow_line = chars_of("#[allow(unused_variables)]");
        proof {
            reveal_strlit("#[allow(unused_variables)]");
            assert(allow_line@[allow_line@.len() - 1] == ']');
        }
        let _ = self.writeln_plain(&allow_line);
        proof {
            lemma_gen_mono_trans(*old(self), s2, *self);
            lemma_block_sigs_extend(state.blocks@, s2.buf@, self.buf@);
        }
        let ghost s3 = *self;
        let mut sig = chars_of("fn render_trait_into(&self, timpl: &");
        push_chars(&mut sig, &state.trait_name);
        let ghost tsig = sig@;
        push_str(&mut sig, ", writer: &mut ::std::fmt::Write) -> ::askama::Result<()> {");
        proof {
            reveal_strlit(", writer: &mut ::std::fmt::Write) -> ::askama::Result<()> {");
            reveal_strlit("}");
            assert(sig@[sig@.len() - 1] == '{');
            assert(sig@.len() > 1);
            assert(sig@ != "}"@);
        }
        match self.writeln_chars(&sig) {
            Ok(_) => {},
            Err(e) => {
                proof {
                    lemma_gen_mono_trans(*old(self), s3, *final(self));
                }
                return Err(e);
            },
        }
        proof {
            assert(s3.buf@.is_prefix_of(self.buf@)) by {
                assert(self.buf@.take(s3.buf@.len() as int) =~= s3.buf@);
            }
            lemma_gen_mono_trans(*old(self), s3, *self);
            // the combined renderer's signature stands in the buffer
            let pads = (if s3.start {
                spaces(4 * s3.indent as nat)
            } else {
                Seq::<char>::empty()
            });
            assert(self.buf@ =~= (s3.buf@ + pads) + tsig
                + (", writer: &mut ::std::fmt::Write) -> ::askama::Result<()> {"@ + seq!['\n']));
            crate::text::lemma_contains_intro(
                s3.buf@ + pads,
                tsig,
                ", writer: &mut ::std::fmt::Write) -> ::askama::Result<()> {"@ + seq!['\n'],
            );
            lemma_block_sigs_extend(state.blocks@, s3.buf@, self.buf@);
        }
        let ghost s4 = *self;
        let imports_line = chars_of(
            "#[allow(unused_imports)] use ::std::ops::Deref as HiddenDerefTrait;",
        );
        proof {
            reveal_strlit("#[allow(unused_imports)] use ::std::ops::Deref as HiddenDerefTrait;");
            assert(imports_line@[imports_line@.len() - 1] == ';');
        }
        let _ = self.writeln_plain(&imports_line);
        proof {
            lemma_gen_mono_trans(*old(self), s4, *self);
            lemma_block_sigs_extend(state.blocks@, s4.buf@, self.buf@);
            crate::text::lemma_contains_prefix_extend(s4.buf@, self.buf@, tsig);
        }
        proof {
            match nodes {
                Option::Some(b) => {
                    assert(opt_nodes_view(nodes) == b@);
                },
                Option::None => {},
            }
        }
        match nodes {
            Some(body) => {
                self.impl_blocks = true;
                let ghost s5 = *self;
                match self.handle(state, body, AstLevel::Top, depth) {
                    Ok(_) => {},
                    Err(e) => {
                        proof {
                            lemma_gen_mono_trans(*old(self), s5, *final(self));
                        }
                        return Err(e);
                    },
                }
                proof {
                    lemma_block_sigs_extend(state.blocks@, s5.buf@, self.buf@);
                    crate::text::lemma_contains_prefix_extend(s5.buf@, self.buf@, tsig);
                }
                let ghost s5b = *self;
                self.flush_ws(&WS(false, false));
                self.impl_blocks = false;
                let ghost s6 = *self;
                proof {
                    assert(s5b.buf@.is_prefix_of(s6.buf@)) by {
                        assert(s6.buf@.take(s5b.buf@.len() as int) =~= s5b.buf@);
                    }
                    lemma_gen_mono_trans(*old(self), s5, s6);
                    lemma_block_sigs_extend(state.blocks@, s5b.buf@, s6.buf@);
                    crate::text::lemma_contains_prefix_extend(s5b.buf@, s6.buf@, tsig);
                    lemma_nodes_marked_extend(body@, state.input.escaping, s5b.buf@, s6.buf@);
                }
                let ok_line = chars_of("Ok(())");
                proof {
                    reveal_strlit("Ok(())");
                    assert(ok_line@[ok_line@.len() - 1] == ')');
                }
                let _ = self.writeln_plain(&ok_line);
                proof {
                    lemma_gen_mono_trans(*old(self), s6, *self);
                    lemma_block_sigs_extend(state.blocks@, s6.buf@, self.buf@);
                    crate::text::lemma_contains_prefix_extend(s6.buf@, self.buf@, tsig);
                    lemma_nodes_marked_extend(body@, state.input.escaping, s6.buf@, self.buf@);
                }
            },
            None => {
                let ghost s5 = *self;
                let del_line = chars_of("self._parent.render_trait_into(self, writer)");
                proof {
                    reveal_strlit("self._parent.render_trait_into(self, writer)");
                    assert(del_line@[del_line@.len() - 1] == ')');
                }
                let _ = self.writeln_plain(&del_line);
                proof {
                    lemma_gen_mono_trans(*old(self), s5, *self);
                    // the delegation to the parent stands in the buffer
                    let padd = (if s5.start {
                        spaces(4 * s5.indent as nat)
                    } else {
                        Seq::<char>::empty()
                    });
                    assert(self.buf@ =~= (s5.buf@ + padd) + del_line@ + seq!['\n']);
                    crate::text::lemma_contains_intro(s5.buf@ + padd, del_line@, seq!['\n']);
                    lemma_block_sigs_extend(state.blocks@, s5.buf@, self.buf@);
                    crate::text::lemma_contains_prefix_extend(s5.buf@, self.buf@, tsig);
                }
            },
        }
        let ghost s7 = *self;
        match self.close_brace() {
            Ok(_) => {},
            Err(e) => {
                proof {
                    lemma_gen_mono_trans(*old(self), s7, *final(self));
                }
                return Err(e);
            },
        }
        self.flush_ws(&WS(false, false));
        let ghost s8 = *self;
        proof {
            assert(s7.buf@.is_prefix_of(s8.buf@)) by {
                assert(s8.buf@.take(s7.buf@.len() as int) =~= s7.buf@);
            }
            lemma_gen_mono_trans(*old(self), s7, s8);
            lemma_block_sigs_extend(state.blocks@, s7.buf@, s8.buf@);
            crate::text::lemma_contains_prefix_extend(s7.buf@, s8.buf@, tsig);
            match nodes {
                Option::Some(body) => {
                    lemma_nodes_marked_extend(body@, state.input.escaping, s7.buf@, s8.buf@);
                },
                Option::None => {
                    crate::text::lemma_contains_prefix_extend(
                        s7.buf@,
                        s8.buf@,
                        "self._parent.render_trait_into(self, writer)"@,
                    );
                },
            }
        }
        match self.close_brace() {
            Ok(_) => {},
            Err(e) => {
                proof {
                    lemma_gen_mono_trans(*old(self), s8, *final(self));
                }
                return Err(e);
            },
        }
        proof {
            lemma_gen_mono_trans(*old(self), s8, *self);
            lemma_block_sigs_extend(state.blocks@, s8.buf@, self.buf@);
            crate::text::lemma_contains_prefix_extend(s8.buf@, self.buf@, tsig);
            match nodes {
                Option::Some(body) => {
                    lemma_nodes_marked_extend(body@, state.input.escaping, s8.buf@, self.buf@);
                },
                Option::None => {
                    crate::text::lemma_contains_prefix_extend(
                        s8.buf@,
                        self.buf@,
                        "self._parent.render_trait_into(self, writer)"@,
                    );
                },
            }
        }
        Ok(())
    }

    /// Emits the rendering entry point of a template with blocks: a derived
    /// host dispatches to its parent's combined renderer passing itself as
    /// the effective implementation; a base host dispatches to its own.
    #[verifier::rlimit(100)]
    #[verifier::spinoff_prover]
    pub fn impl_template_for_trait(&mut self, state: &State) -> (r: Result<(), GenError>)
        ensures
            gen_mono(*old(self), *final(self)),
            r is Ok ==> contains_seq(
                final(self).buf@,
                (if state.derived {
                    "self._parent.render_trait_into(self, writer)"@
                } else {
                    "self.render_trait_into(self, writer)"@
                }),
            ),
            r is Ok ==> contains_seq(
                final(self).buf@,
                "fn render_into(&self, writer: &mut ::std::fmt::Write) -> ::askama::Result<()>"@,
            ),
    {
        proof {
            crate::text::lemma_prefix_refl(old(self).buf@);
        }
        let tgt = chars_of("::askama::Template");
        match self.write_header(state, &tgt) {
            Ok(_) => {},
            Err(e) => {
                return Err(e);
            },
        }
        let ghost s1 = *self;
        let mut fn_line = chars_of(
            "fn render_into(&self, writer: &mut ::std::fmt::Write) -> ::askama::Result<()>",
        );
        let ghost sig = fn_line@;
        push_str(&mut fn_line, " {");
        proof {
            reveal_strlit(" {");
            reveal_strlit("}");
            assert(" {"@.len() == 2);
            assert(" {"@[1int] == '{');
            assert(fn_line@[fn_line@.len() - 1] == '{');
            assert(fn_line@.len() > 1);
            assert(fn_line@ != "}"@);
        }
        match self.writeln_chars(&fn_line) {
            Ok(_) => {},
            Err(e) => {
                proof {
                    lemma_gen_mono_trans(*old(self), s1, *final(self));
                }
                return Err(e);
            },
        }
        proof {
            assert(s1.buf@.is_prefix_of(self.buf@)) by {
                assert(self.buf@.take(s1.buf@.len() as int) =~= s1.buf@);
            }
            lemma_gen_mono_trans(*old(self), s1, *self);
            // the entry point's signature stands in the buffer
            let padf = (if s1.start {
                spaces(4 * s1.indent as nat)
            } else {
                Seq::<char>::empty()
            });
            assert(self.buf@ =~= (s1.buf@ + padf) + sig + (" {"@ + seq!['\n']));
            crate::text::lemma_contains_intro(s1.buf@ + padf, sig, " {"@ + seq!['\n']);
        }
        let ghost s2 = *self;
        let dispatch = if state.derived {
            chars_of("self._parent.render_trait_into(self, writer)")
        } else {
            chars_of("self.render_trait_into(self, writer)")
        };
        proof {
            reveal_strlit("self._parent.render_trait_into(self, writer)");
            reveal_strlit("self.render_trait_into(self, writer)");
            assert(dispatch@[dispatch@.len() - 1] == ')');
        }
        let _ = self.writeln_plain(&dispatch);
        proof {
            // the dispatch line stands in the buffer
            let pad = (if s2.start {
                spaces(4 * s2.indent as nat)
            } else {
                Seq::<char>::empty()
            });
            assert(self.buf@ =~= (s2.buf@ + pad) + dispatch@ + seq!['\n']);
            crate::text::lemma_contains_intro(s2.buf@ + pad, dispatch@, seq!['\n']);
            lemma_gen_mono_trans(*old(self), s2, *self);
            crate::text::lemma_contains_prefix_extend(s2.buf@, self.buf@, sig);
        }
        let ghost s3 = *self;
        match self.close_brace() {
            Ok(_) => {},
            Err(e) => {
                proof {
                    lemma_gen_mono_trans(*old(self), s3, *final(self));
                }
                return Err(e);
            },
        }
        let ghost s4 = *self;
        proof {
            lemma_gen_mono_trans(*old(self), s3, s4);
            crate::text::lemma_contains_prefix_extend(s3.buf@, s4.buf@, dispatch@);
            crate::text::lemma_contains_prefix_extend(s3.buf@, s4.buf@, sig);
        }
        match self.close_brace() {
            Ok(_) => {},
            Err(e) => {
                proof {
                    lemma_gen_mono_trans(*old(self), s4, *final(self));
                }
                return Err(e);
            },
        }
        proof {
            lemma_gen_mono_trans(*old(self), s4, *self);
            crate::text::lemma_contains_prefix_extend(s4.buf@, self.buf@, dispatch@);
            crate::text::lemma_contains_prefix_extend(s4.buf@, self.buf@, sig);
        }
        Ok(())
    }

    /// Builds the emitted source for the assembled state: for a template with
    /// blocks, the trait machinery and the trait-based entry point (a derived
    /// template additionally dereferences to its parent, which must exist on
    /// the host type); for one without, the plain entry point; and the
    /// display adaptor. A derived template's entry point dispatches through
    /// the parent's combined renderer, passing the child as the effective
    /// implementation.
    pub fn build(self, state: &State) -> (r: Result<Vec<char>, GenError>)
        requires
            self.locals.wf(),
            forall|j: int| 0 <= j < state.blocks@.len() ==> #[trigger] state.blocks@[j] is BlockDef,
        ensures
            r matches Ok(buf) ==> (state.blocks@.len() > 0 ==> contains_seq(
                buf@,
                (if state.derived {
                    "self._parent.render_trait_into(self, writer)"@
                } else {
                    "self.render_trait_into(self, writer)"@
                }),
            )),
            r matches Ok(buf) ==> contains_seq(
                buf@,
                "fn render_into(&self, writer: &mut ::std::fmt::Write) -> ::askama::Result<()>"@,
            ),
            r matches Ok(buf) ==> (state.blocks@.len() == 0 || !state.derived ==> nodes_marked(
                state.nodes@,
                state.input.escaping,
                buf@,
            )),
            r matches Ok(buf) ==> (state.blocks@.len() > 0 ==> (forall|j: int|
                0 <= j < state.blocks@.len() ==> block_sig_written(
                    #[trigger] state.blocks@[j],
                    buf@,
                ))),
    {
        let mut g = self;
        if state.blocks.len() > 0 {
            if !state.derived {
                match g.define_trait(state, MAX_NESTING) {
                    Ok(_) => {},
                    Err(e) => {
                        return Err(e);
                    },
                }
            } else {
                let parent_type = match crate::input::get_parent_type(&state.input) {
                    Ok(Some(t)) => t,
                    Ok(None) => {
                        return Err(GenError::MissingParentField);
                    },
                    Err(e) => {
                        return Err(e);
                    },
                };
                match g.deref_to_parent(state, &parent_type) {
                    Ok(_) => {},
                    Err(e) => {
                        return Err(e);
                    },
                }
            }
            if !state.derived {
                match g.impl_trait(state, Some(&state.nodes), MAX_NESTING) {
                    Ok(_) => {},
                    Err(e) => {
                        return Err(e);
                    },
                }
            } else {
                match g.impl_trait(state, None, MAX_NESTING) {
                    Ok(_) => {},
                    Err(e) => {
                        return Err(e);
                    },
                }
            }
            let ghost s1 = g;
            proof {
                if !state.derived {
                    assert(opt_nodes_view(Some(&state.nodes)) == state.nodes@);
                    assert(nodes_marked(state.nodes@, state.input.escaping, s1.buf@));
                }
            }
            match g.impl_template_for_trait(state) {
                Ok(_) => {},
                Err(e) => {
                    return Err(e);
                },
            }
            let ghost s2 = g;
            proof {
                if !state.derived {
                    lemma_nodes_marked_extend(state.nodes@, state.input.escaping, s1.buf@, s2.buf@);
                }
                lemma_block_sigs_extend(state.blocks@, s1.buf@, s2.buf@);
            }
            match g.impl_display(state) {
                Ok(_) => {},
                Err(e) => {
                    return Err(e);
                },
            }
            proof {
                crate::text::lemma_contains_prefix_extend(
                    s2.buf@,
                    g.buf@,
                    (if state.derived {
                        "self._parent.render_trait_into(self, writer)"@
                    } else {
                        "self.render_trait_into(self, writer)"@
                    }),
                );
                crate::text::lemma_contains_prefix_extend(
                    s2.buf@,
                    g.buf@,
                    "fn render_into(&self, writer: &mut ::std::fmt::Write) -> ::askama::Result<()>"@,
                );
                if !state.derived {
                    lemma_nodes_marked_extend(state.nodes@, state.input.escaping, s2.buf@, g.buf@);
                }
                lemma_block_sigs_extend(state.blocks@, s2.buf@, g.buf@);
            }
            Ok(g.buf)
        } else {
            match g.impl_template(state, MAX_NESTING) {
                Ok(_) => {},
                Err(e) => {
                    return Err(e);
                },
            }
            let ghost s3 = g;
            match g.impl_display(state) {
                Ok(_) => {},
                Err(e) => {
                    return Err(e);
                },
            }
            proof {
                crate::text::lemma_contains_prefix_extend(
                    s3.buf@,
                    g.buf@,
                    "fn render_into(&self, writer: &mut ::std::fmt::Write) -> ::askama::Result<()>"@,
                );
                lemma_nodes_marked_extend(state.nodes@, state.input.escaping, s3.buf@, g.buf@);
            }
            Ok(g.buf)
        }
    }
}

/// Compiles one template: assembles the generation state from the host
/// description, the parsed nodes, the imported macros, the loader and the
/// filter catalogue, and emits the rendering source.
pub fn generate(
    input: crate::input::TemplateInput,
    nodes: Vec<Node>,
    imported: Vec<(Option<Vec<char>>, Vec<char>, Macro)>,
    loader: crate::input::Loader,
    filters: Vec<Vec<char>>,
) -> (r: Result<Vec<char>, GenError>)
    ensures
        crate::state::count_extends(nodes@) >= 2 ==> r == Err::<Vec<char>, GenError>(
            GenError::MultipleExtends,
        ),
        r matches Ok(buf) ==> contains_seq(
            buf@,
            "fn render_into(&self, writer: &mut ::std::fmt::Write) -> ::askama::Result<()>"@,
        ),
        r matches Ok(buf) ==> (crate::state::count_extends(nodes@) == 1
            && crate::state::top_blocks(nodes@).len() > 0 ==> contains_seq(
            buf@,
            "self._parent.render_trait_into(self, writer)"@,
        )),
        r matches Ok(buf) ==> (crate::state::count_extends(nodes@) == 0
            && crate::state::top_blocks(nodes@).len() > 0 ==> contains_seq(
            buf@,
            "self.render_trait_into(self, writer)"@,
        )),
        r matches Ok(buf) ==> (crate::state::count_extends(nodes@) == 0 ==> nodes_marked(
            nodes@,
            input.escaping,
            buf@,
        )),
        r matches Ok(buf) ==> (forall|j: int|
            0 <= j < crate::state::top_blocks(nodes@).len() ==> block_sig_written(
                #[trigger] crate::state::top_blocks(nodes@)[j],
                buf@,
            )),
{
    let state = match crate::state::State::new(input, nodes, imported, loader, filters) {
        Ok(st) => st,
        Err(e) => {
            return Err(e);
        },
    };
    let r = Generator::default().build(&state);
    proof {
        // each collected block's renderer answers for the equivalent
        // top-level block definition of the given nodes
        if r is Ok {
            let buf = r->Ok_0;
            assert forall|j: int|
                0 <= j < crate::state::top_blocks(nodes@).len() implies block_sig_written(
                #[trigger] crate::state::top_blocks(nodes@)[j],
                buf@,
            ) by {
                assert(crate::ast::node_equiv(
                    crate::state::top_blocks(nodes@)[j],
                    state.blocks@[j],
                ));
                assert(block_sig_written(state.blocks@[j], buf@));
                lemma_block_sig_equiv(
                    crate::state::top_blocks(nodes@)[j],
                    state.blocks@[j],
                    buf@,
                );
            }
        }
    }
    r
}

} // verus!
