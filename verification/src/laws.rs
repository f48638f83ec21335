//! Laws the store's operations obey, stated over the tables' mathematical
//! model and proved once for all keys, fields, members and values.
use vstd::prelude::*;

use crate::backend::{
    composite_lookup, composite_update, new_member_count, sadd_inner, sadd_update, str_lookup,
};
use crate::frame::{FrameVal, RespFrame};
use crate::cmd::{flat_pairs, hgetall_reply};
use crate::sorting::{bytes_le, lemma_bytes_le_antisym, lemma_bytes_le_refl, pair_le, pairs_sorted};
use crate::tables::{field_views, inner_of, pairs_represent};
use vstd::utf8::{decode_utf8, encode_utf8};

verus! {

broadcast use
    vstd::set::axiom_set_empty_len,
    vstd::utf8::encode_utf8_decode_utf8,
;

/// A SET makes a GET of the same key return exactly the stored value, and a
/// GET of a key never written returns nothing.
pub proof fn lemma_set_then_get(m: Map<Seq<char>, FrameVal>, key: Seq<char>, v: FrameVal)
    ensures
        str_lookup(m.insert(key, v), key) == Some(v),
        !m.contains_key(key) ==> str_lookup(m, key) is None,
{
}

/// A SET touches no other key: a GET of any other key is unchanged.
pub proof fn lemma_set_frame(
    m: Map<Seq<char>, FrameVal>,
    key: Seq<char>,
    v: FrameVal,
    other: Seq<char>,
)
    requires
        other != key,
    ensures
        str_lookup(m.insert(key, v), other) == str_lookup(m, other),
{
}

/// An HSET makes an HGET of the same key and field return exactly the stored
/// value; an HGET of a missing key or of a missing field returns nothing, the
/// two cases indistinguishable.
pub proof fn lemma_hset_then_hget(
    c: Map<Seq<char>, Map<Seq<char>, FrameVal>>,
    key: Seq<char>,
    field: Seq<char>,
    v: FrameVal,
)
    ensures
        composite_lookup(composite_update(c, key, field, v), key, field) == Some(v),
        !c.contains_key(key) ==> composite_lookup(c, key, field) is None,
        c.contains_key(key) && !c[key].contains_key(field) ==> composite_lookup(
            c,
            key,
            field,
        ) is None,
{
}

/// An HSET touches no other key or field: every other HGET is unchanged. With
/// nothing ever deleted, a hash therefore holds exactly the fields written to
/// it, each with its last written value.
pub proof fn lemma_hset_frame(
    c: Map<Seq<char>, Map<Seq<char>, FrameVal>>,
    key: Seq<char>,
    field: Seq<char>,
    v: FrameVal,
    other_key: Seq<char>,
    other_field: Seq<char>,
)
    requires
        other_key != key || other_field != field,
    ensures
        composite_lookup(composite_update(c, key, field, v), other_key, other_field)
            == composite_lookup(c, other_key, other_field),
{
}

/// After an SADD, a member is present exactly when it was present before or
/// is among the added names: membership comes only from SADD, and nothing
/// removes it.
pub proof fn lemma_sadd_then_sismember(
    c: Map<Seq<char>, Map<Seq<char>, FrameVal>>,
    key: Seq<char>,
    ms: Set<Seq<char>>,
    x: Seq<char>,
)
    ensures
        inner_of(sadd_update(c, key, ms), key).contains_key(x) == (inner_of(
            c,
            key,
        ).contains_key(x) || ms.contains(x)),
{
}

/// An SADD leaves every other key's entry unchanged.
pub proof fn lemma_sadd_frame(
    c: Map<Seq<char>, Map<Seq<char>, FrameVal>>,
    key: Seq<char>,
    ms: Set<Seq<char>>,
    other: Seq<char>,
)
    requires
        other != key,
    ensures
        inner_of(sadd_update(c, key, ms), other) == inner_of(c, other),
{
}

/// Adding the same members once more inserts nothing new: the reply counts
/// zero.
pub proof fn lemma_sadd_repeat(inner: Map<Seq<char>, FrameVal>, ms: Set<Seq<char>>)
    ensures
        new_member_count(sadd_inner(inner, ms), ms) == 0,
{
    assert(ms.difference(sadd_inner(inner, ms).dom()) =~= Set::empty());
}

/// Members absent before are each counted once: adding fresh names counts
/// them all.
pub proof fn lemma_sadd_fresh(inner: Map<Seq<char>, FrameVal>, ms: Set<Seq<char>>)
    requires
        ms.disjoint(inner.dom()),
    ensures
        new_member_count(inner, ms) == ms.len(),
{
    assert(ms.difference(inner.dom()) =~= ms);
}

/// A sorted listing of a hash has its field names strictly increasing in
/// byte order: non-decreasing by the sort, never equal because a hash holds
/// each field once.
pub proof fn lemma_sorted_listing_strict(
    pairs: Seq<(String, RespFrame)>,
    m: Map<Seq<char>, FrameVal>,
)
    requires
        pairs_represent(pairs, m),
        pairs_sorted(pairs),
    ensures
        forall|i: int, j: int|
            #![trigger pairs[i], pairs[j]]
            0 <= i < j < pairs.len() ==> pair_le(pairs[i], pairs[j]) && encode_utf8(pairs[i].0@)
                != encode_utf8(pairs[j].0@),
{
    assert forall|i: int, j: int|
        #![trigger pairs[i], pairs[j]]
        0 <= i < j < pairs.len() implies pair_le(pairs[i], pairs[j]) && encode_utf8(pairs[i].0@)
        != encode_utf8(pairs[j].0@) by {
        assert(field_views(pairs)[i] == pairs[i].0@);
        assert(field_views(pairs)[j] == pairs[j].0@);
        assert(pairs[i].0@ != pairs[j].0@);
        assert(decode_utf8(encode_utf8(pairs[i].0@)) == pairs[i].0@);
        assert(decode_utf8(encode_utf8(pairs[j].0@)) == pairs[j].0@);
    }
}


/// Dropping a listing's first pair lists the hash without that field.
proof fn lemma_drop_represent(p: Seq<(String, RespFrame)>, m: Map<Seq<char>, FrameVal>)
    requires
        pairs_represent(p, m),
        pairs_sorted(p),
        p.len() > 0,
    ensures
        pairs_represent(p.drop_first(), m.remove(p[0].0@)),
        pairs_sorted(p.drop_first()),
{
    let q = p.drop_first();
    let m2 = m.remove(p[0].0@);
    assert(field_views(q) =~= field_views(p).drop_first());
    assert(field_views(q).no_duplicates()) by {
        assert forall|i: int, j: int|
            0 <= i < q.len() && 0 <= j < q.len() && i != j implies field_views(q)[i]
            != field_views(q)[j] by {
            assert(field_views(q)[i] == field_views(p)[i + 1]);
            assert(field_views(q)[j] == field_views(p)[j + 1]);
        }
    }
    assert forall|i: int|
        0 <= i < q.len() implies m2.contains_key(#[trigger] q[i].0@) && m2[q[i].0@]
        == q[i].1@ by {
        assert(q[i] == p[i + 1]);
        assert(field_views(p)[i + 1] == p[i + 1].0@);
        assert(field_views(p)[0] == p[0].0@);
        assert(p[i + 1].0@ != p[0].0@);
        assert(m.contains_key(p[i + 1].0@));
    }
    assert forall|f: Seq<char>| m2.contains_key(f) implies field_views(q).contains(f) by {
        assert(m.contains_key(f));
        let t = choose|t: int| 0 <= t < field_views(p).len() && field_views(p)[t] == f;
        assert(field_views(p)[0] == p[0].0@);
        assert(f != p[0].0@);
        assert(t != 0);
        assert(field_views(q)[t - 1] == f);
    }
    assert forall|i: int, j: int| 0 <= i < j < q.len() implies pair_le(q[i], q[j]) by {
        assert(q[i] == p[i + 1]);
        assert(q[j] == p[j + 1]);
        assert(pair_le(p[i + 1], p[j + 1]));
    }
}

/// A hash has one sorted listing: any two sorted listings of the same hash
/// flatten to the same reply items.
pub proof fn lemma_sorted_listing_unique(
    p1: Seq<(String, RespFrame)>,
    p2: Seq<(String, RespFrame)>,
    m: Map<Seq<char>, FrameVal>,
)
    requires
        pairs_represent(p1, m),
        pairs_sorted(p1),
        pairs_represent(p2, m),
        pairs_sorted(p2),
    ensures
        flat_pairs(p1) == flat_pairs(p2),
    decreases p1.len(),
{
    if p1.len() == 0 {
        if p2.len() > 0 {
            assert(m.contains_key(p2[0].0@));
            assert(field_views(p1).contains(p2[0].0@));
            assert(false);
        }
        assert(flat_pairs(p1) =~= flat_pairs(p2));
    } else {
        let f1 = p1[0].0@;
        let f2 = p2[0].0@;
        assert(field_views(p1)[0] == f1);
        assert(m.contains_key(f1));
        assert(field_views(p2).contains(f1));
        assert(p2.len() > 0);
        let k1 = choose|k: int| 0 <= k < field_views(p2).len() && field_views(p2)[k] == f1;
        assert(p2[k1].0@ == f1);
        assert(bytes_le(encode_utf8(f2), encode_utf8(f1))) by {
            if k1 == 0 {
                lemma_bytes_le_refl(encode_utf8(f1));
            } else {
                assert(pair_le(p2[0], p2[k1]));
            }
        }
        assert(field_views(p2)[0] == f2);
        assert(m.contains_key(f2));
        assert(field_views(p1).contains(f2));
        let k2 = choose|k: int| 0 <= k < field_views(p1).len() && field_views(p1)[k] == f2;
        assert(p1[k2].0@ == f2);
        assert(bytes_le(encode_utf8(f1), encode_utf8(f2))) by {
            if k2 == 0 {
                lemma_bytes_le_refl(encode_utf8(f2));
            } else {
                assert(pair_le(p1[0], p1[k2]));
            }
        }
        lemma_bytes_le_antisym(encode_utf8(f1), encode_utf8(f2));
        assert(f1 == f2) by {
            assert(decode_utf8(encode_utf8(f1)) == f1);
            assert(decode_utf8(encode_utf8(f2)) == f2);
        }
        assert(p1[0].1@ == m[f1]);
        assert(p2[0].1@ == m[f1]);
        lemma_drop_represent(p1, m);
        lemma_drop_represent(p2, m);
        lemma_sorted_listing_unique(p1.drop_first(), p2.drop_first(), m.remove(f1));
        assert(flat_pairs(p1) =~= flat_pairs(p2));
    }
}

/// With the sort flag set, HGETALL's reply is one fixed value of the hash:
/// every sorted listing yields the same frame.
pub proof fn lemma_hgetall_sorted_reply_unique(
    r1: FrameVal,
    r2: FrameVal,
    m: Map<Seq<char>, FrameVal>,
)
    requires
        hgetall_reply(r1, m, true),
        hgetall_reply(r2, m, true),
    ensures
        r1 == r2,
{
    let p1 = choose|pairs: Seq<(String, RespFrame)>|
        {
            &&& #[trigger] pairs_represent(pairs, m)
            &&& true ==> pairs_sorted(pairs)
            &&& r1 == FrameVal::Array(flat_pairs(pairs))
        };
    let p2 = choose|pairs: Seq<(String, RespFrame)>|
        {
            &&& #[trigger] pairs_represent(pairs, m)
            &&& true ==> pairs_sorted(pairs)
            &&& r2 == FrameVal::Array(flat_pairs(pairs))
        };
    lemma_sorted_listing_unique(p1, p2, m);
}

} // verus!
