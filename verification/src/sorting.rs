//! Ordering of hash snapshots: ascending lexicographic byte comparison of
//! field names, used by HGETALL when its sort flag is set.
use vstd::prelude::*;

use crate::frame::RespFrame;
use vstd::utf8::encode_utf8;

verus! {

broadcast use
    vstd::seq_lib::group_to_multiset_ensures,
    vstd::slice::axiom_spec_len,
;

/// Lexicographic order on byte strings: the empty string first, then by the
/// first differing byte, a prefix before its extensions.
pub open spec fn bytes_le(a: Seq<u8>, b: Seq<u8>) -> bool
    decreases a.len(),
{
    if a.len() == 0 {
        true
    } else if b.len() == 0 {
        false
    } else if a[0] < b[0] {
        true
    } else if a[0] > b[0] {
        false
    } else {
        bytes_le(a.drop_first(), b.drop_first())
    }
}

/// A pair precedes another when the bytes of its field name do.
pub open spec fn pair_le(a: (String, RespFrame), b: (String, RespFrame)) -> bool {
    bytes_le(encode_utf8(a.0@), encode_utf8(b.0@))
}

/// Field names non-decreasing in byte order.
pub open spec fn pairs_sorted(s: Seq<(String, RespFrame)>) -> bool {
    forall|i: int, j: int| 0 <= i < j < s.len() ==> pair_le(s[i], s[j])
}

/// The byte order is reflexive.
pub proof fn lemma_bytes_le_refl(a: Seq<u8>)
    ensures
        bytes_le(a, a),
    decreases a.len(),
{
    if a.len() > 0 {
        lemma_bytes_le_refl(a.drop_first());
    }
}

/// Any two byte strings compare one way or the other.
pub proof fn lemma_bytes_le_total(a: Seq<u8>, b: Seq<u8>)
    ensures
        bytes_le(a, b) || bytes_le(b, a),
    decreases a.len(),
{
    if a.len() > 0 && b.len() > 0 && a[0] == b[0] {
        lemma_bytes_le_total(a.drop_first(), b.drop_first());
    }
}

/// The byte order is transitive.
pub proof fn lemma_bytes_le_trans(a: Seq<u8>, b: Seq<u8>, c: Seq<u8>)
    requires
        bytes_le(a, b),
        bytes_le(b, c),
    ensures
        bytes_le(a, c),
    decreases a.len(),
{
    if a.len() > 0 {
        if b.len() > 0 && c.len() > 0 && a[0] == b[0] && b[0] == c[0] {
            lemma_bytes_le_trans(a.drop_first(), b.drop_first(), c.drop_first());
        }
    }
}

/// The byte order is antisymmetric: mutual order is equality.
pub proof fn lemma_bytes_le_antisym(a: Seq<u8>, b: Seq<u8>)
    requires
        bytes_le(a, b),
        bytes_le(b, a),
    ensures
        a == b,
    decreases a.len(),
{
    if a.len() == 0 {
        assert(a =~= b);
    } else {
        lemma_bytes_le_antisym(a.drop_first(), b.drop_first());
        assert(a =~= seq![a[0]] + a.drop_first());
        assert(b =~= seq![b[0]] + b.drop_first());
    }
}

/// Equal prefixes do not decide the order: it is settled by the rests.
proof fn lemma_bytes_le_skip(a: Seq<u8>, b: Seq<u8>, i: int)
    requires
        0 <= i <= a.len(),
        i <= b.len(),
        forall|k: int| 0 <= k < i ==> a[k] == b[k],
    ensures
        bytes_le(a, b) == bytes_le(a.skip(i), b.skip(i)),
    decreases i,
{
    if i > 0 {
        lemma_bytes_le_skip(a.drop_first(), b.drop_first(), i - 1);
        assert(a.drop_first().skip(i - 1) =~= a.skip(i));
        assert(b.drop_first().skip(i - 1) =~= b.skip(i));
    } else {
        assert(a.skip(0) =~= a);
        assert(b.skip(0) =~= b);
    }
}

/// Compares two byte strings in the lexicographic order.
pub fn bytes_le_exec(a: &[u8], b: &[u8]) -> (r: bool)
    ensures
        r == bytes_le(a@, b@),
{
    let mut i: usize = 0;
    while i < a.len() && i < b.len()
        invariant
            i <= a@.len(),
            i <= b@.len(),
            forall|k: int| 0 <= k < i ==> a@[k] == b@[k],
        decreases a@.len() - i,
    {
        let x = a[i];
        let y = b[i];
        if x != y {
            proof {
                lemma_bytes_le_skip(a@, b@, i as int);
                assert(a@.skip(i as int)[0] == x);
                assert(b@.skip(i as int)[0] == y);
            }
            return x < y;
        }
        i = i + 1;
    }
    proof {
        lemma_bytes_le_skip(a@, b@, i as int);
        if i == a@.len() {
            assert(a@.skip(i as int) =~= Seq::empty());
        } else {
            assert(b@.skip(i as int) =~= Seq::empty());
            assert(a@.skip(i as int).len() > 0);
        }
    }
    i == a.len()
}

/// Compares two snapshot pairs by their field names' bytes.
fn pair_le_exec(a: &(String, RespFrame), b: &(String, RespFrame)) -> (r: bool)
    ensures
        r == pair_le(*a, *b),
{
    bytes_le_exec(a.0.as_str().as_bytes(), b.0.as_str().as_bytes())
}

/// Sorts a snapshot by ascending byte order of field names, keeping exactly
/// the same pairs.
pub fn sort_pairs(input: Vec<(String, RespFrame)>) -> (r: Vec<(String, RespFrame)>)
    ensures
        r@.to_multiset() == input@.to_multiset(),
        pairs_sorted(r@),
{
    let mut rest = input;
    let mut out: Vec<(String, RespFrame)> = Vec::new();
    proof {
        assert(out@.to_multiset().add(rest@.to_multiset()) =~= input@.to_multiset());
    }
    while rest.len() > 0
        invariant
            out@.to_multiset().add(rest@.to_multiset()) == input@.to_multiset(),
            pairs_sorted(out@),
            forall|i: int, j: int|
                0 <= i < out@.len() && 0 <= j < rest@.len() ==> pair_le(out@[i], rest@[j]),
        decreases rest.len(),
    {
        let mut best: usize = 0;
        let mut k: usize = 1;
        proof {
            lemma_bytes_le_refl(encode_utf8(rest@[0].0@));
        }
        while k < rest.len()
            invariant
                rest@.len() > 0,
                best < k,
                k <= rest@.len(),
                forall|t: int| 0 <= t < k ==> pair_le(rest@[best as int], rest@[t]),
            decreases rest@.len() - k,
        {
            if pair_le_exec(&rest[k], &rest[best]) {
                proof {
                    lemma_bytes_le_refl(encode_utf8(rest@[k as int].0@));
                    assert forall|t: int| 0 <= t < k implies pair_le(rest@[k as int], rest@[t]) by {
                        lemma_bytes_le_trans(
                            encode_utf8(rest@[k as int].0@),
                            encode_utf8(rest@[best as int].0@),
                            encode_utf8(rest@[t].0@),
                        );
                    }
                }
                best = k;
            } else {
                proof {
                    lemma_bytes_le_total(
                        encode_utf8(rest@[k as int].0@),
                        encode_utf8(rest@[best as int].0@),
                    );
                }
            }
            k = k + 1;
        }
        let ghost rest0 = rest@;
        let x = rest.remove(best);
        proof {
            assert(rest0.to_multiset().contains(x));
            assert(out@.push(x).to_multiset().add(rest@.to_multiset()) =~= out@.to_multiset().add(
                rest0.to_multiset(),
            ));
            // every remaining pair came from the unsorted rest and the taken
            // one was least among them
            assert forall|j: int| 0 <= j < rest@.len() implies pair_le(x, rest@[j]) by {
                if j < best {
                    assert(rest@[j] == rest0[j]);
                } else {
                    assert(rest@[j] == rest0[j + 1]);
                }
            }
            assert forall|i: int, j: int|
                0 <= i < out@.len() && 0 <= j < rest@.len() implies pair_le(
                out@[i],
                rest@[j],
            ) by {
                if j < best {
                    assert(rest@[j] == rest0[j]);
                } else {
                    assert(rest@[j] == rest0[j + 1]);
                }
            }
        }
        out.push(x);
    }
    proof {
        assert(rest@.to_multiset().len() == 0);
        assert(out@.to_multiset().add(rest@.to_multiset()) =~= out@.to_multiset());
    }
    out
}

} // verus!
