//! Byte-lexicographic ordering of document keys.
//!
//! An `Object` keeps its entries sorted by the UTF-8 bytes of their keys,
//! the order a `BTreeMap` over string keys would iterate in. This module
//! defines that order on sequences of bytes and on keys (sequences of
//! characters, compared through their UTF-8 encoding), proves the facts the
//! sorted representation needs, and gives the executable three-way
//! comparison.
use vstd::prelude::*;

verus! {

use vstd::utf8::{encode_utf8, encode_utf8_decode_utf8};

/// Strict lexicographic order on byte sequences: `a` comes before `b`.
pub open spec fn bytes_lt(a: Seq<u8>, b: Seq<u8>) -> bool
    decreases a.len(),
{
    if b.len() == 0 {
        false
    } else if a.len() == 0 {
        true
    } else if a[0] < b[0] {
        true
    } else if a[0] > b[0] {
        false
    } else {
        bytes_lt(a.drop_first(), b.drop_first())
    }
}

/// Strict order on keys: lexicographic over their UTF-8 encodings.
pub open spec fn key_lt(a: Seq<char>, b: Seq<char>) -> bool {
    bytes_lt(encode_utf8(a), encode_utf8(b))
}

pub proof fn lemma_bytes_lt_irreflexive(a: Seq<u8>)
    ensures
        !bytes_lt(a, a),
    decreases a.len(),
{
    if a.len() > 0 {
        lemma_bytes_lt_irreflexive(a.drop_first());
    }
}

pub proof fn lemma_bytes_lt_transitive(a: Seq<u8>, b: Seq<u8>, c: Seq<u8>)
    requires
        bytes_lt(a, b),
        bytes_lt(b, c),
    ensures
        bytes_lt(a, c),
    decreases a.len(),
{
    if a.len() > 0 && b.len() > 0 && c.len() > 0 && a[0] == b[0] && b[0] == c[0] {
        lemma_bytes_lt_transitive(a.drop_first(), b.drop_first(), c.drop_first());
    }
}

/// Two keys in the strict order are distinct keys.
pub proof fn lemma_key_lt_neq(a: Seq<char>, b: Seq<char>)
    requires
        key_lt(a, b),
    ensures
        a != b,
{
    if a == b {
        lemma_bytes_lt_irreflexive(encode_utf8(a));
    }
}

pub proof fn lemma_key_lt_transitive(a: Seq<char>, b: Seq<char>, c: Seq<char>)
    requires
        key_lt(a, b),
        key_lt(b, c),
    ensures
        key_lt(a, c),
{
    lemma_bytes_lt_transitive(encode_utf8(a), encode_utf8(b), encode_utf8(c));
}

/// Sequences with a common prefix order by the first differing byte.
proof fn lemma_bytes_lt_common_prefix(a: Seq<u8>, b: Seq<u8>, i: int)
    requires
        0 <= i < a.len(),
        i < b.len(),
        a.subrange(0, i) == b.subrange(0, i),
        a[i] < b[i],
    ensures
        bytes_lt(a, b),
    decreases i,
{
    if i > 0 {
        assert(a[0] == a.subrange(0, i)[0]);
        assert(b[0] == b.subrange(0, i)[0]);
        assert(a.drop_first().subrange(0, i - 1) =~= a.subrange(0, i).drop_first());
        assert(b.drop_first().subrange(0, i - 1) =~= b.subrange(0, i).drop_first());
        assert(a.drop_first()[i - 1] == a[i]);
        assert(b.drop_first()[i - 1] == b[i]);
        lemma_bytes_lt_common_prefix(a.drop_first(), b.drop_first(), i - 1);
    }
}

/// A proper prefix comes before the longer sequence.
proof fn lemma_bytes_lt_proper_prefix(a: Seq<u8>, b: Seq<u8>)
    requires
        a.len() < b.len(),
        a == b.subrange(0, a.len() as int),
    ensures
        bytes_lt(a, b),
    decreases a.len(),
{
    if a.len() > 0 {
        assert(a[0] == b.subrange(0, a.len() as int)[0]);
        assert(a.drop_first() =~= b.drop_first().subrange(0, a.len() - 1)) by {
            assert forall|j: int|
                0 <= j < a.len() - 1 implies a.drop_first()[j] == b.drop_first()[j] by {
                assert(a[j + 1] == b.subrange(0, a.len() as int)[j + 1]);
            }
        }
        lemma_bytes_lt_proper_prefix(a.drop_first(), b.drop_first());
    }
}

/// Result of a three-way key comparison.
pub enum KeyOrder {
    Less,
    Equal,
    Greater,
}

/// Three-way comparison of two keys by their UTF-8 bytes.
pub fn compare_keys(a: &str, b: &str) -> (r: KeyOrder)
    ensures
        r is Less <==> key_lt(a@, b@),
        r is Equal <==> a@ == b@,
        r is Greater <==> key_lt(b@, a@),
{
    let ab: &[u8] = a.as_bytes();
    let bb: &[u8] = b.as_bytes();
    let an: usize = ab.len();
    let bn: usize = bb.len();
    let n: usize = if an < bn {
        an
    } else {
        bn
    };
    let mut i: usize = 0;
    while i < n
        invariant
            n <= ab@.len(),
            n <= bb@.len(),
            n == if ab@.len() < bb@.len() {
                ab@.len()
            } else {
                bb@.len()
            },
            0 <= i <= n,
            ab@ == encode_utf8(a@),
            bb@ == encode_utf8(b@),
            ab@.subrange(0, i as int) == bb@.subrange(0, i as int),
        decreases n - i,
    {
        let x: u8 = ab[i];
        let y: u8 = bb[i];
        if x < y {
            proof {
                lemma_bytes_lt_common_prefix(ab@, bb@, i as int);
                if key_lt(b@, a@) {
                    lemma_bytes_lt_transitive(encode_utf8(b@), encode_utf8(a@), encode_utf8(b@));
                    lemma_bytes_lt_irreflexive(encode_utf8(b@));
                }
                lemma_key_lt_neq(a@, b@);
            }
            return KeyOrder::Less;
        }
        if x > y {
            proof {
                lemma_bytes_lt_common_prefix(bb@, ab@, i as int);
                if key_lt(a@, b@) {
                    lemma_bytes_lt_transitive(encode_utf8(a@), encode_utf8(b@), encode_utf8(a@));
                    lemma_bytes_lt_irreflexive(encode_utf8(a@));
                }
                lemma_key_lt_neq(b@, a@);
            }
            return KeyOrder::Greater;
        }
        proof {
            assert(ab@.subrange(0, i + 1) =~= bb@.subrange(0, i + 1));
        }
        i = i + 1;
    }
    if an < bn {
        proof {
            assert(ab@ =~= bb@.subrange(0, ab@.len() as int));
            lemma_bytes_lt_proper_prefix(ab@, bb@);
            if key_lt(b@, a@) {
                lemma_bytes_lt_transitive(encode_utf8(b@), encode_utf8(a@), encode_utf8(b@));
                lemma_bytes_lt_irreflexive(encode_utf8(b@));
            }
            lemma_key_lt_neq(a@, b@);
        }
        KeyOrder::Less
    } else if bn < an {
        proof {
            assert(bb@ =~= ab@.subrange(0, bb@.len() as int));
            lemma_bytes_lt_proper_prefix(bb@, ab@);
            if key_lt(a@, b@) {
                lemma_bytes_lt_transitive(encode_utf8(a@), encode_utf8(b@), encode_utf8(a@));
                lemma_bytes_lt_irreflexive(encode_utf8(a@));
            }
            lemma_key_lt_neq(b@, a@);
        }
        KeyOrder::Greater
    } else {
        proof {
            assert forall|j: int| 0 <= j < ab@.len() implies ab@[j] == bb@[j] by {
                assert(ab@.subrange(0, i as int)[j] == bb@.subrange(0, i as int)[j]);
            }
            assert(ab@ =~= bb@);
            encode_utf8_decode_utf8(a@);
            encode_utf8_decode_utf8(b@);
            lemma_bytes_lt_irreflexive(encode_utf8(a@));
        }
        KeyOrder::Equal
    }
}

} // verus!
