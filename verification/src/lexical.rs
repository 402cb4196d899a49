//! The order of sensor identifiers: plain byte order of their UTF-8 text.

use vstd::prelude::*;
use vstd::utf8::{encode_utf8, encode_utf8_decode_utf8};

verus! {

/// Lexicographic order of two byte strings, decided from index `from` on:
/// the first place where they differ decides, and a string that ends first
/// comes first.
pub open spec fn precedes_from(a: Seq<u8>, b: Seq<u8>, from: int) -> bool
    decreases a.len() - from,
{
    if from >= b.len() {
        false
    } else if from >= a.len() {
        true
    } else if a[from] != b[from] {
        a[from] < b[from]
    } else {
        precedes_from(a, b, from + 1)
    }
}

/// Whether byte string `a` comes strictly before `b`.
pub open spec fn precedes(a: Seq<u8>, b: Seq<u8>) -> bool {
    precedes_from(a, b, 0)
}

/// The bytes by which an identifier is ordered.
pub open spec fn key(id: Seq<char>) -> Seq<u8> {
    encode_utf8(id)
}

/// Whether identifier `a` comes strictly before identifier `b`.
pub open spec fn id_precedes(a: Seq<char>, b: Seq<char>) -> bool {
    precedes(key(a), key(b))
}

proof fn lemma_irreflexive_from(a: Seq<u8>, from: int)
    requires
        0 <= from,
    ensures
        !precedes_from(a, a, from),
    decreases a.len() - from,
{
    if from < a.len() {
        lemma_irreflexive_from(a, from + 1);
    }
}

proof fn lemma_transitive_from(a: Seq<u8>, b: Seq<u8>, c: Seq<u8>, from: int)
    requires
        0 <= from,
        precedes_from(a, b, from),
        precedes_from(b, c, from),
    ensures
        precedes_from(a, c, from),
    decreases c.len() - from,
{
    if from < a.len() && from < b.len() && from < c.len() && a[from] == b[from] && b[from]
        == c[from] {
        lemma_transitive_from(a, b, c, from + 1);
    }
}

proof fn lemma_total_from(a: Seq<u8>, b: Seq<u8>, from: int)
    requires
        0 <= from <= a.len(),
        from <= b.len(),
        !precedes_from(a, b, from),
        !precedes_from(b, a, from),
    ensures
        a.len() == b.len(),
        forall|i: int| from <= i < a.len() ==> a[i] == b[i],
    decreases a.len() - from,
{
    if from < a.len() && from < b.len() {
        lemma_total_from(a, b, from + 1);
    }
}

/// Nothing comes before itself.
pub proof fn lemma_precedes_is_irreflexive(a: Seq<u8>)
    ensures
        !precedes(a, a),
{
    lemma_irreflexive_from(a, 0);
}

/// The order is transitive.
pub proof fn lemma_precedes_is_transitive(a: Seq<u8>, b: Seq<u8>, c: Seq<u8>)
    requires
        precedes(a, b),
        precedes(b, c),
    ensures
        precedes(a, c),
{
    lemma_transitive_from(a, b, c, 0);
}

/// The order is total: two byte strings of which neither comes first are one.
pub proof fn lemma_precedes_is_total(a: Seq<u8>, b: Seq<u8>)
    requires
        !precedes(a, b),
        !precedes(b, a),
    ensures
        a == b,
{
    lemma_total_from(a, b, 0);
    assert(a =~= b);
}

/// Identifiers with the same bytes are the same identifier.
pub proof fn lemma_key_is_injective(a: Seq<char>, b: Seq<char>)
    requires
        key(a) == key(b),
    ensures
        a == b,
{
    encode_utf8_decode_utf8(a);
    encode_utf8_decode_utf8(b);
}

/// Of two different identifiers exactly one comes first.
pub proof fn lemma_distinct_ids_are_ordered(a: Seq<char>, b: Seq<char>)
    requires
        a != b,
        !id_precedes(a, b),
    ensures
        id_precedes(b, a),
{
    if !id_precedes(b, a) {
        lemma_precedes_is_total(key(a), key(b));
        lemma_key_is_injective(a, b);
    }
}

/// Decides whether identifier `a` comes strictly before identifier `b`.
pub fn comes_before(a: &str, b: &str) -> (before: bool)
    ensures
        before == id_precedes(a@, b@),
{
    let x = a.as_bytes();
    let y = b.as_bytes();
    let mut i: usize = 0;
    while i < x.len() && i < y.len()
        invariant
            i <= x.len(),
            i <= y.len(),
            x@ == key(a@),
            y@ == key(b@),
            precedes_from(x@, y@, i as int) == precedes(x@, y@),
        decreases x.len() - i,
    {
        if x[i] != y[i] {
            return x[i] < y[i];
        }
        i += 1;
    }
    i < y.len()
}

} // verus!
