//! Short random identifiers, for pipelines and for connected clients.

use vstd::prelude::*;

verus! {

/// A character of the alphabet that identifiers are drawn from.
pub open spec fn is_id_char(c: char) -> bool {
    c == '_' || c == '-' || ('0' <= c && c <= '9') || ('a' <= c && c <= 'z') || ('A' <= c
        && c <= 'Z')
}

/// `s` is an identifier of `len` characters of that alphabet.
pub open spec fn is_generated_id(s: Seq<char>, len: nat) -> bool {
    &&& s.len() == len
    &&& forall|i: int| 0 <= i < s.len() ==> is_id_char(#[trigger] s[i])
}

/// Relies on nanoid::format, with nanoid's default random source and its
/// SAFE alphabet (`_`, `-`, digits and ASCII letters): it returns `size`
/// characters drawn from that alphabet. It draws random bytes until it has
/// them, so `size` must not be zero.
#[verifier::external_body]
pub(crate) fn random_id(size: usize) -> (r: String)
    requires
        0 < size,
    ensures
        is_generated_id(r@, size as nat),
{
    nanoid::format(nanoid::rngs::default, &nanoid::alphabet::SAFE, size)
}

} // verus!
