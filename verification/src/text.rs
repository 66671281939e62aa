//! Character-level utilities shared by the parser and the code generator.
//!
//! Template text is handled as `Vec<char>`, whose view is a `Seq<char>`;
//! `&str` is accepted at the library boundary and converted with `chars_of`.
use vstd::prelude::*;

verus! {

use vstd::std_specs::iter::IteratorSpec;

/// The four characters the template grammar treats as whitespace.
pub open spec fn is_ws_char(c: char) -> bool {
    c == ' ' || c == '\t' || c == '\r' || c == '\n'
}

/// True iff every character of `s` is template whitespace.
pub open spec fn ws_only(s: Seq<char>) -> bool {
    forall|i: int| 0 <= i < s.len() ==> is_ws_char(#[trigger] s[i])
}

/// Executable test matching `is_ws_char`.
pub fn is_ws(c: char) -> (r: bool)
    ensures
        r == is_ws_char(c),
{
    c == ' ' || c == '\t' || c == '\r' || c == '\n'
}

/// Collects the characters of a string slice into a vector; the vector's
/// view equals the string's view.
pub fn chars_of(s: &str) -> (r: Vec<char>)
    ensures
        r@ == s@,
{
    broadcast use vstd::string::axiom_spec_iter, vstd::string::next_postcondition;

    let mut it = s.chars();
    let mut r: Vec<char> = Vec::new();
    let mut done = false;
    while !done
        invariant
            r@ + it.remaining() == s@,
            done ==> it.remaining().len() == 0,
        decreases s@.len() - r@.len() + (if done { 0int } else { 1int }),
    {
        match it.next() {
            Some(c) => {
                r.push(c);
                proof {
                    assert(r@ + it.remaining() =~= s@);
                }
            },
            None => {
                done = true;
            },
        }
    }
    proof {
        assert(r@ =~= s@);
    }
    r
}

/// Copies `src[a..b]` into a fresh vector.
pub fn copy_range(src: &Vec<char>, a: usize, b: usize) -> (r: Vec<char>)
    requires
        a <= b <= src.len(),
    ensures
        r@ == src@.subrange(a as int, b as int),
{
    let mut r: Vec<char> = Vec::new();
    let mut i: usize = a;
    while i < b
        invariant
            a <= i <= b <= src.len(),
            r@ == src@.subrange(a as int, i as int),
        decreases b - i,
    {
        r.push(src[i]);
        i = i + 1;
        proof {
            assert(r@ =~= src@.subrange(a as int, i as int));
        }
    }
    r
}

/// Appends all of `s` to `buf`.
pub fn push_chars(buf: &mut Vec<char>, s: &Vec<char>)
    ensures
        final(buf)@ == old(buf)@ + s@,
{
    let mut i: usize = 0;
    while i < s.len()
        invariant
            i <= s.len(),
            buf@ == old(buf)@ + s@.subrange(0, i as int),
        decreases s.len() - i,
    {
        buf.push(s[i]);
        i = i + 1;
        proof {
            assert(old(buf)@ + s@.subrange(0, i - 1) + seq![s@[i - 1]] =~= old(buf)@
                + s@.subrange(0, i as int));
        }
    }
    proof {
        assert(s@.subrange(0, s@.len() as int) =~= s@);
    }
}

/// Appends the characters of a string slice to `buf`.
pub fn push_str(buf: &mut Vec<char>, s: &str)
    ensures
        final(buf)@ == old(buf)@ + s@,
{
    let v = chars_of(s);
    push_chars(buf, &v);
}

/// A sequence is a prefix of itself extended by anything.
pub proof fn lemma_prefix_concat(a: Seq<char>, b: Seq<char>)
    ensures
        a.is_prefix_of(a + b),
{
    assert((a + b).take(a.len() as int) =~= a);
}

/// Prefix order is transitive.
pub proof fn lemma_prefix_trans(a: Seq<char>, b: Seq<char>, c: Seq<char>)
    requires
        a.is_prefix_of(b),
        b.is_prefix_of(c),
    ensures
        a.is_prefix_of(c),
{
    assert(c.take(a.len() as int) =~= b.take(a.len() as int));
}

/// A sequence is a prefix of itself.
pub proof fn lemma_prefix_refl(a: Seq<char>)
    ensures
        a.is_prefix_of(a),
{
    assert(a.take(a.len() as int) =~= a);
}

/// `h` holds `n` as a contiguous run.
pub open spec fn contains_seq(h: Seq<char>, n: Seq<char>) -> bool {
    exists|i: int|
        0 <= i && i + n.len() <= h.len() && #[trigger] h.subrange(i, i + n.len()) == n
}

/// Text of the shape `pre + n + post` holds `n`.
pub proof fn lemma_contains_intro(pre: Seq<char>, n: Seq<char>, post: Seq<char>)
    ensures
        contains_seq(pre + n + post, n),
{
    let h = pre + n + post;
    assert(h.subrange(pre.len() as int, pre.len() + n.len() as int) =~= n);
}

/// `h` ends with the run `t`.
pub open spec fn ends_with(h: Seq<char>, t: Seq<char>) -> bool {
    t.len() <= h.len() && h.subrange(h.len() - t.len(), h.len() as int) == t
}

/// Concatenation ends with its right part.
pub proof fn lemma_ends_with_concat(a: Seq<char>, t: Seq<char>)
    ensures
        ends_with(a + t, t),
{
    assert((a + t).subrange((a + t).len() - t.len(), (a + t).len() as int) =~= t);
}

/// A run stays contained in any extension of the text.
pub proof fn lemma_contains_prefix_extend(h1: Seq<char>, h2: Seq<char>, n: Seq<char>)
    requires
        contains_seq(h1, n),
        h1.is_prefix_of(h2),
    ensures
        contains_seq(h2, n),
{
    let i = choose|i: int|
        0 <= i && i + n.len() <= h1.len() && #[trigger] h1.subrange(i, i + n.len()) == n;
    assert(h2.subrange(i, i + n.len()) =~= h1.subrange(i, i + n.len())) by {
        assert(h2.take(h1.len() as int) == h1);
        assert(forall|k: int| 0 <= k < h1.len() ==> h2[k] == h1[k]) by {
            assert(forall|k: int|
                0 <= k < h1.len() ==> h2.take(h1.len() as int)[k] == #[trigger] h2[k]);
        }
    }
}

/// True iff the two vectors hold the same characters.
pub fn chars_eq(a: &Vec<char>, b: &Vec<char>) -> (r: bool)
    ensures
        r == (a@ == b@),
{
    if a.len() != b.len() {
        proof {
            assert(a@ != b@);
        }
        return false;
    }
    let mut i: usize = 0;
    while i < a.len()
        invariant
            i <= a.len() == b.len(),
            forall|j: int| 0 <= j < i ==> a@[j] == b@[j],
        decreases a.len() - i,
    {
        if a[i] != b[i] {
            return false;
        }
        i = i + 1;
    }
    proof {
        assert(a@ =~= b@);
    }
    true
}

/// True iff vector `a` equals string slice `s`.
pub fn chars_eq_str(a: &Vec<char>, s: &str) -> (r: bool)
    ensures
        r == (a@ == s@),
{
    let b = chars_of(s);
    chars_eq(a, &b)
}

} // verus!
