//! Lexicographic order on byte sequences.
//!
//! The storage engine sorts byte-string keys lexicographically; every range
//! scan in this crate is specified against the order defined here.

use vstd::prelude::*;

verus! {

/// Strict lexicographic order on byte sequences: `a` sorts before `b`.
pub open spec fn lex_lt(a: Seq<u8>, b: Seq<u8>) -> bool
    decreases a.len(),
{
    if b.len() == 0 {
        false
    } else if a.len() == 0 {
        true
    } else if a[0] < b[0] {
        true
    } else if a[0] > b[0] {
        false
    } else {
        lex_lt(a.skip(1), b.skip(1))
    }
}

/// Reflexive lexicographic order on byte sequences.
pub open spec fn lex_le(a: Seq<u8>, b: Seq<u8>) -> bool {
    a == b || lex_lt(a, b)
}

/// No sequence sorts strictly before itself.
pub proof fn lemma_lex_irrefl(a: Seq<u8>)
    ensures
        !lex_lt(a, a),
    decreases a.len(),
{
    if a.len() > 0 {
        lemma_lex_irrefl(a.skip(1));
    }
}

/// Two sequences never each sort strictly before the other.
pub proof fn lemma_lex_asym(a: Seq<u8>, b: Seq<u8>)
    ensures
        !(lex_lt(a, b) && lex_lt(b, a)),
    decreases a.len(),
{
    if a.len() > 0 && b.len() > 0 && a[0] == b[0] {
        lemma_lex_asym(a.skip(1), b.skip(1));
    }
}

/// Prepending one common element to both sides preserves the order either way.
proof fn lemma_lex_lt_cons(c: u8, a: Seq<u8>, b: Seq<u8>)
    ensures
        lex_lt(seq![c] + a, seq![c] + b) == lex_lt(a, b),
{
    let ca = seq![c] + a;
    let cb = seq![c] + b;
    assert(ca.skip(1) =~= a);
    assert(cb.skip(1) =~= b);
    assert(ca[0] == c && cb[0] == c);
}

/// Prepending a common prefix to both sides preserves the order either way.
pub proof fn lemma_lex_lt_prefix(p: Seq<u8>, a: Seq<u8>, b: Seq<u8>)
    ensures
        lex_lt(p + a, p + b) == lex_lt(a, b),
    decreases p.len(),
{
    if p.len() == 0 {
        assert(p + a =~= a);
        assert(p + b =~= b);
    } else {
        let q = p.skip(1);
        lemma_lex_lt_prefix(q, a, b);
        lemma_lex_lt_cons(p[0], q + a, q + b);
        assert(p + a =~= seq![p[0]] + (q + a));
        assert(p + b =~= seq![p[0]] + (q + b));
    }
}

/// A sequence sorts strictly before any proper extension of itself.
pub proof fn lemma_lex_lt_proper_prefix(a: Seq<u8>, ext: Seq<u8>)
    requires
        ext.len() > 0,
    ensures
        lex_lt(a, a + ext),
    decreases a.len(),
{
    if a.len() == 0 {
        assert(a + ext =~= ext);
    } else {
        let q = a.skip(1);
        lemma_lex_lt_proper_prefix(q, ext);
        assert((a + ext)[0] == a[0]);
        assert((a + ext).skip(1) =~= q + ext);
    }
}

} // verus!
