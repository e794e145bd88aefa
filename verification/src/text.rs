//! Text primitives: the order in which names are kept, equality of strings,
//! and the characters that separate class names.

use vstd::prelude::*;
use vstd::utf8::encode_utf8;

verus! {

/// How one name stands to another in the order of names.
#[derive(Clone, Copy, Debug, PartialEq, Eq)]
pub enum Order {
    Before,
    Same,
    After,
}

/// `a` and `b` agree on their first `k` bytes, and there `a` ends or holds
/// the smaller byte.
pub open spec fn parts_at(a: Seq<u8>, b: Seq<u8>, k: int) -> bool {
    &&& 0 <= k <= a.len()
    &&& k < b.len()
    &&& forall|j: int| 0 <= j < k ==> a[j] == b[j]
    &&& (k == a.len() || a[k] < b[k])
}

/// Strict lexicographic order on byte sequences.
pub open spec fn bytes_precede(a: Seq<u8>, b: Seq<u8>) -> bool {
    exists|k: int| parts_at(a, b, k)
}

/// The order of names: lexicographic on their UTF-8 bytes.
pub open spec fn precedes(a: Seq<char>, b: Seq<char>) -> bool {
    bytes_precede(encode_utf8(a), encode_utf8(b))
}

/// Two texts with the same bytes are the same text.
pub proof fn lemma_bytes_determine_text(a: Seq<char>, b: Seq<char>)
    requires
        encode_utf8(a) == encode_utf8(b),
    ensures
        a == b,
{
    vstd::utf8::encode_utf8_decode_utf8(a);
    vstd::utf8::encode_utf8_decode_utf8(b);
}

proof fn lemma_bytes_irreflexive(a: Seq<u8>)
    ensures
        !bytes_precede(a, a),
{
}

proof fn lemma_bytes_transitive(a: Seq<u8>, b: Seq<u8>, c: Seq<u8>)
    requires
        bytes_precede(a, b),
        bytes_precede(b, c),
    ensures
        bytes_precede(a, c),
{
    let k1 = choose|k: int| parts_at(a, b, k);
    let k2 = choose|k: int| parts_at(b, c, k);
    let k = if k1 <= k2 { k1 } else { k2 };
    assert(parts_at(a, c, k));
}

proof fn lemma_bytes_total_from(a: Seq<u8>, b: Seq<u8>, i: int)
    requires
        0 <= i <= a.len(),
        i <= b.len(),
        forall|j: int| 0 <= j < i ==> a[j] == b[j],
    ensures
        a == b || bytes_precede(a, b) || bytes_precede(b, a),
    decreases a.len() - i,
{
    if i == a.len() {
        if i == b.len() {
            assert(a =~= b);
        } else {
            assert(parts_at(a, b, i));
        }
    } else if i == b.len() {
        assert(parts_at(b, a, i));
    } else if a[i] < b[i] {
        assert(parts_at(a, b, i));
    } else if b[i] < a[i] {
        assert(parts_at(b, a, i));
    } else {
        lemma_bytes_total_from(a, b, i + 1);
    }
}

/// No name precedes itself.
pub proof fn lemma_precedes_irreflexive(a: Seq<char>)
    ensures
        !precedes(a, a),
{
    lemma_bytes_irreflexive(encode_utf8(a));
}

/// The order of names is transitive.
pub proof fn lemma_precedes_transitive(a: Seq<char>, b: Seq<char>, c: Seq<char>)
    requires
        precedes(a, b),
        precedes(b, c),
    ensures
        precedes(a, c),
{
    lemma_bytes_transitive(encode_utf8(a), encode_utf8(b), encode_utf8(c));
}

/// Of two names at most one precedes the other.
pub proof fn lemma_precedes_asymmetric(a: Seq<char>, b: Seq<char>)
    requires
        precedes(a, b),
    ensures
        !precedes(b, a),
        a != b,
{
    if precedes(b, a) {
        lemma_precedes_transitive(a, b, a);
    }
    lemma_precedes_irreflexive(a);
}

/// Any two different names are ordered.
pub proof fn lemma_precedes_total(a: Seq<char>, b: Seq<char>)
    ensures
        a == b || precedes(a, b) || precedes(b, a),
{
    lemma_bytes_total_from(encode_utf8(a), encode_utf8(b), 0);
    if encode_utf8(a) == encode_utf8(b) {
        lemma_bytes_determine_text(a, b);
    }
}

/// Places `a` relative to `b` in the order of names.
pub fn compare(a: &str, b: &str) -> (o: Order)
    ensures
        o == Order::Before <==> precedes(a@, b@),
        o == Order::Same <==> a@ == b@,
        o == Order::After <==> precedes(b@, a@),
{
    let x = a.as_bytes();
    let y = b.as_bytes();
    let mut i: usize = 0;
    while i < x.len() && i < y.len()
        invariant
            i <= x.len(),
            i <= y.len(),
            x@ == encode_utf8(a@),
            y@ == encode_utf8(b@),
            forall|j: int| 0 <= j < i ==> x@[j] == y@[j],
        decreases x.len() - i,
    {
        if x[i] < y[i] {
            proof {
                assert(parts_at(x@, y@, i as int));
                lemma_precedes_asymmetric(a@, b@);
            }
            return Order::Before;
        }
        if y[i] < x[i] {
            proof {
                assert(parts_at(y@, x@, i as int));
                lemma_precedes_asymmetric(b@, a@);
            }
            return Order::After;
        }
        i += 1;
    }
    if i < y.len() {
        proof {
            assert(parts_at(x@, y@, i as int));
            lemma_precedes_asymmetric(a@, b@);
        }
        Order::Before
    } else if i < x.len() {
        proof {
            assert(parts_at(y@, x@, i as int));
            lemma_precedes_asymmetric(b@, a@);
        }
        Order::After
    } else {
        proof {
            assert(x@ =~= y@);
            lemma_bytes_determine_text(a@, b@);
            lemma_precedes_irreflexive(a@);
        }
        Order::Same
    }
}

/// Whether two strings hold the same text.
pub fn equal(a: &str, b: &str) -> (same: bool)
    ensures
        same == (a@ == b@),
{
    match compare(a, b) {
        Order::Same => true,
        _ => false,
    }
}

/// The characters of a string, in order.
pub fn chars_of(s: &str) -> (chars: Vec<char>)
    ensures
        chars@ == s@,
{
    broadcast use vstd::string::group_string_axioms;

    let mut chars: Vec<char> = Vec::new();
    for c in it: s.chars()
        invariant
            it.seq() == s@,
            chars@ == s@.take(it.index()),
    {
        chars.push(c);
    }
    assert(s@.take(s@.len() as int) == s@);
    chars
}

} // verus!
