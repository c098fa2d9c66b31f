//! The order of keys: strings compared byte by byte over their UTF-8
//! encodings, which is the order of `String` itself.

use vstd::prelude::*;
use vstd::utf8::{encode_utf8, encode_utf8_decode_utf8};

verus! {

/// Strict lexicographic order on byte strings.
pub open spec fn bytes_lt(a: Seq<u8>, b: Seq<u8>) -> bool
    decreases a.len(),
{
    if a.len() == 0 {
        b.len() > 0
    } else if b.len() == 0 {
        false
    } else if a[0] != b[0] {
        a[0] < b[0]
    } else {
        bytes_lt(a.drop_first(), b.drop_first())
    }
}

/// `a` comes strictly before `b` in key order.
pub open spec fn key_lt(a: Seq<char>, b: Seq<char>) -> bool {
    bytes_lt(encode_utf8(a), encode_utf8(b))
}

pub proof fn lemma_bytes_lt_irreflexive(a: Seq<u8>)
    ensures
        !bytes_lt(a, a),
    decreases a.len(),
{
    if a.len() > 0 {
        lemma_bytes_lt_irreflexive(a.drop_first());
    }
}

pub proof fn lemma_bytes_lt_transitive(a: Seq<u8>, b: Seq<u8>, c: Seq<u8>)
    requires
        bytes_lt(a, b),
        bytes_lt(b, c),
    ensures
        bytes_lt(a, c),
    decreases a.len(),
{
    if a.len() > 0 && b.len() > 0 && c.len() > 0 && a[0] == b[0] && b[0] == c[0] {
        lemma_bytes_lt_transitive(a.drop_first(), b.drop_first(), c.drop_first());
    }
}

pub proof fn lemma_bytes_lt_total(a: Seq<u8>, b: Seq<u8>)
    requires
        a != b,
    ensures
        bytes_lt(a, b) || bytes_lt(b, a),
    decreases a.len(),
{
    if a.len() > 0 && b.len() > 0 && a[0] == b[0] {
        if a.drop_first() == b.drop_first() {
            assert(a =~= seq![a[0]] + a.drop_first());
            assert(b =~= seq![b[0]] + b.drop_first());
        }
        lemma_bytes_lt_total(a.drop_first(), b.drop_first());
    } else if a.len() == 0 && b.len() == 0 {
        assert(a =~= b);
    }
}

/// No key comes before itself.
pub proof fn lemma_key_lt_irreflexive(a: Seq<char>)
    ensures
        !key_lt(a, a),
{
    lemma_bytes_lt_irreflexive(encode_utf8(a));
}

/// Key order is transitive.
pub proof fn lemma_key_lt_transitive(a: Seq<char>, b: Seq<char>, c: Seq<char>)
    requires
        key_lt(a, b),
        key_lt(b, c),
    ensures
        key_lt(a, c),
{
    lemma_bytes_lt_transitive(encode_utf8(a), encode_utf8(b), encode_utf8(c));
}

/// Of two different keys, one comes before the other.
pub proof fn lemma_key_lt_total(a: Seq<char>, b: Seq<char>)
    requires
        a != b,
    ensures
        key_lt(a, b) || key_lt(b, a),
{
    encode_utf8_decode_utf8(a);
    encode_utf8_decode_utf8(b);
    lemma_bytes_lt_total(encode_utf8(a), encode_utf8(b));
}

/// Whether `a` comes strictly before `b` in key order.
pub fn key_less(a: &String, b: &String) -> (r: bool)
    ensures
        r == key_lt(a@, b@),
{
    text_less(a.as_str(), b.as_str())
}

/// Whether the text `a` comes strictly before the text `b` in key order.
pub fn text_less(a: &str, b: &str) -> (r: bool)
    ensures
        r == key_lt(a@, b@),
{
    let x: &[u8] = a.as_bytes();
    let y: &[u8] = b.as_bytes();
    let ghost xs = x@;
    let ghost ys = y@;
    assert(xs.skip(0) =~= xs);
    assert(ys.skip(0) =~= ys);
    let mut i: usize = 0;
    while i < x.len() && i < y.len()
        invariant
            xs == encode_utf8(a@),
            ys == encode_utf8(b@),
            x@ == xs,
            y@ == ys,
            i <= xs.len(),
            i <= ys.len(),
            bytes_lt(xs, ys) == bytes_lt(xs.skip(i as int), ys.skip(i as int)),
        decreases x.len() - i,
    {
        if x[i] != y[i] {
            return x[i] < y[i];
        }
        assert(xs.skip(i as int).drop_first() =~= xs.skip(i + 1));
        assert(ys.skip(i as int).drop_first() =~= ys.skip(i + 1));
        i = i + 1;
    }
    i == x.len() && i < y.len()
}

/// Whether the texts `a` and `b` are the same.
pub fn same_text(a: &str, b: &str) -> (r: bool)
    ensures
        r == (a@ == b@),
{
    let before = text_less(a, b);
    let after = text_less(b, a);
    proof {
        if a@ == b@ {
            lemma_key_lt_irreflexive(a@);
        } else {
            lemma_key_lt_total(a@, b@);
        }
    }
    !before && !after
}

} // verus!
