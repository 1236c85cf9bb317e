//! Byte-wise lexicographic order of paths, the order `str` sorts by.
use vstd::prelude::*;
use vstd::utf8::encode_utf8;

verus! {

/// How two paths compare.
#[derive(Clone, Copy, Debug, Eq, PartialEq, Structural)]
pub enum PathOrder {
    Less,
    Equal,
    Greater,
}

/// `a` sorts strictly before `b`, byte by byte, a proper prefix first.
pub open spec fn bytes_before(a: Seq<u8>, b: Seq<u8>) -> bool
    decreases a.len(),
{
    if b.len() == 0 {
        false
    } else if a.len() == 0 {
        true
    } else if a[0] != b[0] {
        a[0] < b[0]
    } else {
        bytes_before(a.drop_first(), b.drop_first())
    }
}

/// The bytes of a path.
pub open spec fn path_bytes(s: Seq<char>) -> Seq<u8> {
    encode_utf8(s)
}

/// No sequence sorts before itself.
pub proof fn lemma_before_irreflexive(a: Seq<u8>)
    ensures
        !bytes_before(a, a),
    decreases a.len(),
{
    if a.len() > 0 {
        lemma_before_irreflexive(a.drop_first());
    }
}

/// The order is asymmetric.
pub proof fn lemma_before_asymmetric(a: Seq<u8>, b: Seq<u8>)
    requires
        bytes_before(a, b),
    ensures
        !bytes_before(b, a),
    decreases a.len(),
{
    if a.len() > 0 && b.len() > 0 && a[0] == b[0] {
        lemma_before_asymmetric(a.drop_first(), b.drop_first());
    }
}

/// The order is transitive.
pub proof fn lemma_before_transitive(a: Seq<u8>, b: Seq<u8>, c: Seq<u8>)
    requires
        bytes_before(a, b),
        bytes_before(b, c),
    ensures
        bytes_before(a, c),
    decreases a.len(),
{
    if a.len() > 0 && a[0] == b[0] && b[0] == c[0] {
        lemma_before_transitive(a.drop_first(), b.drop_first(), c.drop_first());
    }
}

/// Two distinct sequences are ordered one way or the other.
pub proof fn lemma_before_total(a: Seq<u8>, b: Seq<u8>)
    requires
        a != b,
    ensures
        bytes_before(a, b) || bytes_before(b, a),
    decreases a.len(),
{
    if a.len() > 0 && b.len() > 0 && a[0] == b[0] {
        if a.drop_first() == b.drop_first() {
            assert(a =~= seq![a[0]] + a.drop_first());
            assert(b =~= seq![b[0]] + b.drop_first());
        }
        lemma_before_total(a.drop_first(), b.drop_first());
    } else if a.len() == 0 && b.len() == 0 {
        assert(a =~= b);
    }
}

proof fn lemma_before_after_common(a: Seq<u8>, b: Seq<u8>, i: int)
    requires
        0 <= i <= a.len(),
        i <= b.len(),
        forall|j: int| 0 <= j < i ==> a[j] == b[j],
    ensures
        bytes_before(a, b) == bytes_before(a.subrange(i, a.len() as int), b.subrange(i, b.len() as int)),
    decreases i,
{
    if i == 0 {
        assert(a.subrange(0, a.len() as int) =~= a);
        assert(b.subrange(0, b.len() as int) =~= b);
    } else {
        lemma_before_after_common(a.drop_first(), b.drop_first(), i - 1);
        assert(a.drop_first().subrange(i - 1, a.len() - 1) =~= a.subrange(i, a.len() as int));
        assert(b.drop_first().subrange(i - 1, b.len() - 1) =~= b.subrange(i, b.len() as int));
    }
}

/// Compares two paths byte by byte.
pub fn compare_paths(a: &str, b: &str) -> (r: PathOrder)
    ensures
        (r == PathOrder::Less) == bytes_before(path_bytes(a@), path_bytes(b@)),
        (r == PathOrder::Equal) == (a@ == b@),
        (r == PathOrder::Greater) == bytes_before(path_bytes(b@), path_bytes(a@)),
{
    let x = a.as_bytes();
    let y = b.as_bytes();
    proof {
        vstd::utf8::encode_utf8_decode_utf8(a@);
        vstd::utf8::encode_utf8_decode_utf8(b@);
    }
    let mut i: usize = 0;
    while i < x.len() && i < y.len()
        invariant
            x@ == path_bytes(a@),
            y@ == path_bytes(b@),
            i <= x@.len(),
            i <= y@.len(),
            forall|j: int| 0 <= j < i ==> x@[j] == y@[j],
        decreases x@.len() - i,
    {
        if x[i] != y[i] {
            proof {
                lemma_before_after_common(x@, y@, i as int);
                lemma_before_after_common(y@, x@, i as int);
                assert(x@.subrange(i as int, x@.len() as int)[0] == x@[i as int]);
                assert(y@.subrange(i as int, y@.len() as int)[0] == y@[i as int]);
                assert(x@ != y@);
            }
            if x[i] < y[i] {
                return PathOrder::Less;
            } else {
                return PathOrder::Greater;
            }
        }
        i += 1;
    }
    proof {
        lemma_before_after_common(x@, y@, i as int);
        lemma_before_after_common(y@, x@, i as int);
    }
    if x.len() == y.len() {
        assert(x@ =~= y@);
        proof {
            lemma_before_irreflexive(x@);
        }
        PathOrder::Equal
    } else if x.len() < y.len() {
        assert(x@ != y@) by {
            assert(x@.len() != y@.len());
        }
        PathOrder::Less
    } else {
        assert(x@ != y@) by {
            assert(x@.len() != y@.len());
        }
        PathOrder::Greater
    }
}

} // verus!
