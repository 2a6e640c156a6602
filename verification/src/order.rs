//! Ordering of string keys.
//!
//! Keys are ordered by their UTF-8 encodings, compared byte for byte; since
//! UTF-8 preserves the order of code points, this agrees with ordering the
//! character sequences themselves. The module provides the order as a spec
//! function, an executable comparison, and insertion into a sorted list.

use vstd::prelude::*;

verus! {

use vstd::utf8::encode_utf8;

/// Strict lexicographic order on byte sequences.
pub open spec fn bytes_lt(a: Seq<u8>, b: Seq<u8>) -> bool
    decreases a.len(),
{
    if b.len() == 0 {
        false
    } else if a.len() == 0 {
        true
    } else if a[0] != b[0] {
        a[0] < b[0]
    } else {
        bytes_lt(a.drop_first(), b.drop_first())
    }
}

/// Strict order on keys: their UTF-8 encodings compared lexicographically.
pub open spec fn key_lt(a: Seq<char>, b: Seq<char>) -> bool {
    bytes_lt(encode_utf8(a), encode_utf8(b))
}

/// The byte order is irreflexive.
pub proof fn lemma_bytes_lt_irrefl(a: Seq<u8>)
    ensures
        !bytes_lt(a, a),
    decreases a.len(),
{
    if a.len() > 0 {
        lemma_bytes_lt_irrefl(a.drop_first());
    }
}

/// The byte order is connected: two sequences neither of which comes before
/// the other are equal.
pub proof fn lemma_bytes_lt_connected(a: Seq<u8>, b: Seq<u8>)
    requires
        !bytes_lt(a, b),
        !bytes_lt(b, a),
    ensures
        a == b,
    decreases a.len(),
{
    if b.len() == 0 {
        assert(a.len() == 0);
        assert(a =~= b);
    } else {
        assert(a.len() > 0);
        assert(a[0] == b[0]);
        lemma_bytes_lt_connected(a.drop_first(), b.drop_first());
        assert(a.len() == b.len());
        assert forall|i: int| 0 <= i < a.len() implies a[i] == b[i] by {
            if i > 0 {
                assert(a[i] == a.drop_first()[i - 1]);
                assert(b[i] == b.drop_first()[i - 1]);
            }
        }
        assert(a =~= b);
    }
}

/// The byte order is transitive.
pub proof fn lemma_bytes_lt_trans(a: Seq<u8>, b: Seq<u8>, c: Seq<u8>)
    requires
        bytes_lt(a, b),
        bytes_lt(b, c),
    ensures
        bytes_lt(a, c),
    decreases a.len(),
{
    if a.len() == 0 {
        assert(c.len() > 0);
    } else {
        assert(b.len() > 0);
        assert(c.len() > 0);
        if a[0] == b[0] && b[0] == c[0] {
            lemma_bytes_lt_trans(a.drop_first(), b.drop_first(), c.drop_first());
        }
    }
}

/// The key order is connected: keys neither of which comes before the other
/// are the same sequence of characters.
pub proof fn lemma_key_lt_connected(a: Seq<char>, b: Seq<char>)
    requires
        !key_lt(a, b),
        !key_lt(b, a),
    ensures
        a == b,
{
    lemma_bytes_lt_connected(encode_utf8(a), encode_utf8(b));
    vstd::utf8::encode_utf8_decode_utf8(a);
    vstd::utf8::encode_utf8_decode_utf8(b);
}

/// The key order is irreflexive.
pub proof fn lemma_key_lt_irrefl(a: Seq<char>)
    ensures
        !key_lt(a, a),
{
    lemma_bytes_lt_irrefl(encode_utf8(a));
}

/// The key order is transitive.
pub proof fn lemma_key_lt_trans(a: Seq<char>, b: Seq<char>, c: Seq<char>)
    requires
        key_lt(a, b),
        key_lt(b, c),
    ensures
        key_lt(a, c),
{
    lemma_bytes_lt_trans(encode_utf8(a), encode_utf8(b), encode_utf8(c));
}

/// A list of keys in strictly increasing order.
pub open spec fn keys_sorted(s: Seq<String>) -> bool {
    forall|i: int, j: int| 0 <= i < j < s.len() ==> key_lt(s[i]@, s[j]@)
}

/// Whether the key `k` occurs in the list.
pub open spec fn key_present(s: Seq<String>, k: Seq<char>) -> bool {
    exists|i: int| 0 <= i < s.len() && s[i]@ == k
}

/// A strictly sorted key list holds no key twice.
pub proof fn lemma_sorted_distinct(s: Seq<String>)
    requires
        keys_sorted(s),
    ensures
        forall|i: int, j: int| 0 <= i < j < s.len() ==> s[i]@ != s[j]@,
{
    assert forall|i: int, j: int| 0 <= i < j < s.len() implies s[i]@ != s[j]@ by {
        if s[i]@ == s[j]@ {
            lemma_key_lt_irrefl(s[i]@);
        }
    }
}

/// Compares two strings in the key order.
pub fn str_lt(a: &str, b: &str) -> (r: bool)
    ensures
        r == key_lt(a@, b@),
{
    let ab = a.as_bytes();
    let bb = b.as_bytes();
    let mut i: usize = 0;
    proof {
        assert(ab@.skip(0) =~= ab@);
        assert(bb@.skip(0) =~= bb@);
    }
    loop
        invariant
            i <= ab@.len(),
            i <= bb@.len(),
            ab@ == encode_utf8(a@),
            bb@ == encode_utf8(b@),
            bytes_lt(ab@, bb@) == bytes_lt(ab@.skip(i as int), bb@.skip(i as int)),
        ensures
            bytes_lt(ab@, bb@) == bytes_lt(ab@.skip(i as int), bb@.skip(i as int)),
            i <= ab@.len(),
            i <= bb@.len(),
            i >= bb@.len() || i >= ab@.len() || ab@[i as int] != bb@[i as int],
        decreases ab@.len() - i,
    {
        if i >= bb.len() {
            break;
        }
        if i >= ab.len() {
            break;
        }
        let x = ab[i];
        let y = bb[i];
        if x != y {
            break;
        }
        proof {
            assert(ab@.skip(i as int)[0] == ab@[i as int]);
            assert(bb@.skip(i as int)[0] == bb@[i as int]);
            assert(ab@.skip(i as int).drop_first() =~= ab@.skip(i as int + 1));
            assert(bb@.skip(i as int).drop_first() =~= bb@.skip(i as int + 1));
        }
        i = i + 1;
    }
    if i >= bb.len() {
        proof {
            assert(bb@.skip(i as int).len() == 0);
        }
        false
    } else if i >= ab.len() {
        proof {
            assert(ab@.skip(i as int).len() == 0);
            assert(bb@.skip(i as int).len() > 0);
        }
        true
    } else {
        proof {
            assert(ab@.skip(i as int)[0] == ab@[i as int]);
            assert(bb@.skip(i as int)[0] == bb@[i as int]);
        }
        ab[i] < bb[i]
    }
}

/// Inserts a key that is not yet present into a strictly sorted list,
/// keeping the list strictly sorted.
pub fn insert_sorted(out: &mut Vec<String>, x: String)
    requires
        keys_sorted(old(out)@),
        !key_present(old(out)@, x@),
    ensures
        keys_sorted(final(out)@),
        final(out)@.len() == old(out)@.len() + 1,
        forall|k: Seq<char>|
            key_present(final(out)@, k) <==> (key_present(old(out)@, k) || k == x@),
{
    let ghost orig = out@;
    let mut i: usize = 0;
    loop
        invariant
            out@ == orig,
            keys_sorted(orig),
            !key_present(orig, x@),
            i <= orig.len(),
            forall|j: int| 0 <= j < i ==> key_lt(orig[j]@, x@),
        ensures
            out@ == orig,
            i <= orig.len(),
            forall|j: int| 0 <= j < i ==> key_lt(orig[j]@, x@),
            forall|j: int| i <= j < orig.len() ==> key_lt(x@, orig[j]@),
        decreases orig.len() - i,
    {
        if i == out.len() {
            break;
        }
        if !str_lt(out[i].as_str(), x.as_str()) {
            proof {
                assert(orig[i as int]@ != x@) by {
                    if orig[i as int]@ == x@ {
                        assert(key_present(orig, x@));
                    }
                }
                if !key_lt(x@, orig[i as int]@) {
                    lemma_key_lt_connected(orig[i as int]@, x@);
                }
                assert forall|j: int| i <= j < orig.len() implies key_lt(x@, orig[j]@) by {
                    if j > i {
                        lemma_key_lt_trans(x@, orig[i as int]@, orig[j]@);
                    }
                }
            }
            break;
        }
        i = i + 1;
    }
    out.insert(i, x);
    proof {
        let fin = out@;
        assert(forall|p: int| 0 <= p < i ==> fin[p] == orig[p]);
        assert(fin[i as int] == x);
        assert(forall|q: int| i < q < fin.len() ==> fin[q] == orig[q - 1]);
        assert forall|p: int, q: int| 0 <= p < q < fin.len() implies key_lt(fin[p]@, fin[q]@) by {
            if q < i {
            } else if q == i {
                assert(key_lt(orig[p]@, x@));
            } else if p < i {
                assert(key_lt(orig[p]@, fin[q]@));
            } else if p == i {
                assert(key_lt(x@, orig[q - 1]@));
            } else {
                assert(key_lt(orig[p - 1]@, orig[q - 1]@));
            }
        }
        assert forall|k: Seq<char>|
            key_present(fin, k) <==> (key_present(orig, k) || k == x@) by {
            if key_present(orig, k) {
                let w = choose|w: int| 0 <= w < orig.len() && orig[w]@ == k;
                if w < i {
                    assert(fin[w]@ == k);
                } else {
                    assert(fin[w + 1]@ == k);
                }
                assert(key_present(fin, k));
            }
            if k == x@ {
                assert(fin[i as int]@ == k);
                assert(key_present(fin, k));
            }
            if key_present(fin, k) {
                let w = choose|w: int| 0 <= w < fin.len() && fin[w]@ == k;
                if w < i {
                    assert(orig[w]@ == k);
                    assert(key_present(orig, k));
                } else if w == i {
                    assert(k == x@);
                } else {
                    assert(orig[w - 1]@ == k);
                    assert(key_present(orig, k));
                }
            }
        }
    }
}

} // verus!
