//! Lexicographic order on byte strings, and the order on actor names that
//! it induces through their UTF-8 encoding (the order of `String`'s `Ord`).
use vstd::prelude::*;
use vstd::utf8::*;

verus! {

/// `a` is lexicographically smaller than `b`, when both agree on their first `i` bytes.
pub open spec fn lex_lt_from(a: Seq<u8>, b: Seq<u8>, i: int) -> bool
    decreases a.len() - i,
{
    if i < 0 || i >= a.len() {
        0 <= i < b.len()
    } else if i >= b.len() {
        false
    } else if a[i] != b[i] {
        a[i] < b[i]
    } else {
        lex_lt_from(a, b, i + 1)
    }
}

/// Strict lexicographic order on byte sequences: the first differing byte
/// decides, and a proper prefix comes first.
pub open spec fn lex_lt(a: Seq<u8>, b: Seq<u8>) -> bool {
    lex_lt_from(a, b, 0)
}

/// The order of actor names: byte-wise lexicographic order of their UTF-8 encodings.
pub open spec fn actor_lt(a: Seq<char>, b: Seq<char>) -> bool {
    lex_lt(encode_utf8(a), encode_utf8(b))
}

proof fn lemma_lex_from_irreflexive(a: Seq<u8>, i: int)
    requires
        0 <= i,
    ensures
        !lex_lt_from(a, a, i),
    decreases a.len() - i,
{
    if i < a.len() {
        lemma_lex_from_irreflexive(a, i + 1);
    }
}

proof fn lemma_lex_from_asymmetric(a: Seq<u8>, b: Seq<u8>, i: int)
    requires
        0 <= i,
    ensures
        !(lex_lt_from(a, b, i) && lex_lt_from(b, a, i)),
    decreases a.len() - i,
{
    if i < a.len() && i < b.len() && a[i] == b[i] {
        lemma_lex_from_asymmetric(a, b, i + 1);
    }
}

proof fn lemma_lex_from_transitive(a: Seq<u8>, b: Seq<u8>, c: Seq<u8>, i: int)
    requires
        0 <= i,
        lex_lt_from(a, b, i),
        lex_lt_from(b, c, i),
    ensures
        lex_lt_from(a, c, i),
    decreases a.len() - i,
{
    if i < a.len() && i < b.len() && i < c.len() && a[i] == b[i] && b[i] == c[i] {
        lemma_lex_from_transitive(a, b, c, i + 1);
    }
}

proof fn lemma_lex_from_total(a: Seq<u8>, b: Seq<u8>, i: int)
    requires
        0 <= i <= a.len(),
        i <= b.len(),
        a.subrange(0, i) == b.subrange(0, i),
        a != b,
    ensures
        lex_lt_from(a, b, i) || lex_lt_from(b, a, i),
    decreases a.len() - i,
{
    if i < a.len() && i < b.len() && a[i] == b[i] {
        assert(a.subrange(0, i + 1) =~= a.subrange(0, i).push(a[i]));
        assert(b.subrange(0, i + 1) =~= b.subrange(0, i).push(b[i]));
        lemma_lex_from_total(a, b, i + 1);
    } else if i == a.len() && i == b.len() {
        assert(a =~= a.subrange(0, i));
        assert(b =~= b.subrange(0, i));
    }
}

/// The byte order is a strict total order.
pub proof fn lemma_lex_order(a: Seq<u8>, b: Seq<u8>, c: Seq<u8>)
    ensures
        !lex_lt(a, a),
        !(lex_lt(a, b) && lex_lt(b, a)),
        lex_lt(a, b) && lex_lt(b, c) ==> lex_lt(a, c),
        a != b ==> lex_lt(a, b) || lex_lt(b, a),
{
    lemma_lex_from_irreflexive(a, 0);
    lemma_lex_from_asymmetric(a, b, 0);
    if lex_lt(a, b) && lex_lt(b, c) {
        lemma_lex_from_transitive(a, b, c, 0);
    }
    if a != b {
        assert(a.subrange(0, 0) =~= b.subrange(0, 0));
        lemma_lex_from_total(a, b, 0);
    }
}

/// The order on actor names is a strict total order.
pub proof fn lemma_actor_order(a: Seq<char>, b: Seq<char>, c: Seq<char>)
    ensures
        !actor_lt(a, a),
        !(actor_lt(a, b) && actor_lt(b, a)),
        actor_lt(a, b) && actor_lt(b, c) ==> actor_lt(a, c),
        a != b ==> actor_lt(a, b) || actor_lt(b, a),
{
    lemma_lex_order(encode_utf8(a), encode_utf8(b), encode_utf8(c));
    if a != b {
        encode_utf8_decode_utf8(a);
        encode_utf8_decode_utf8(b);
    }
}

/// Compares two byte slices lexicographically.
pub fn bytes_lt(a: &[u8], b: &[u8]) -> (r: bool)
    ensures
        r == lex_lt(a@, b@),
{
    let mut i: usize = 0;
    while i < a.len() && i < b.len()
        invariant
            0 <= i <= a@.len(),
            i <= b@.len(),
            lex_lt(a@, b@) == lex_lt_from(a@, b@, i as int),
        decreases a@.len() - i,
    {
        if a[i] != b[i] {
            return a[i] < b[i];
        }
        i = i + 1;
    }
    i < b.len()
}

/// Compares two actor names the way `String`'s `Ord` does.
pub fn actor_less(a: &String, b: &String) -> (r: bool)
    ensures
        r == actor_lt(a@, b@),
{
    let x = a.as_str().as_bytes();
    let y = b.as_str().as_bytes();
    bytes_lt(x, y)
}

} // verus!
