//! The shared backend store: a string table for scalar values and a
//! composite table (outer key to inner field map) shared by the hash and the
//! set command families. The two tables are separate namespaces. No operation
//! deletes an entry; writes are last-writer-wins per key and per field.
use vstd::prelude::*;

use crate::frame::{FrameVal, RespFrame};
use crate::tables::{
    composite_table_ensure, composite_table_get, composite_table_insert, composite_table_snapshot,
    composite_table_view, inner_of, map_is_empty, new_composite_table, new_string_table,
    pairs_represent, string_table_get, string_table_insert, string_table_view, CompositeTable,
    StringTable,
};

verus! {

broadcast use
    vstd::set::axiom_set_insert_len,
    vstd::set::axiom_set_empty_len,
    vstd::set::axiom_set_difference_finite,
    vstd::seq_lib::seq_to_set_is_finite,
;

/// The value a string-table read returns: the stored value, if any.
pub open spec fn str_lookup(m: Map<Seq<char>, FrameVal>, key: Seq<char>) -> Option<FrameVal> {
    if m.contains_key(key) {
        Some(m[key])
    } else {
        None
    }
}

/// The value a composite-table read returns: the value under the field of the
/// key's inner map; an absent key and an absent field are indistinguishable.
pub open spec fn composite_lookup(
    c: Map<Seq<char>, Map<Seq<char>, FrameVal>>,
    key: Seq<char>,
    field: Seq<char>,
) -> Option<FrameVal> {
    if c.contains_key(key) && c[key].contains_key(field) {
        Some(c[key][field])
    } else {
        None
    }
}

/// A composite table after one field write: the inner map for the key is
/// created on first use and the field is mapped to the value.
pub open spec fn composite_update(
    c: Map<Seq<char>, Map<Seq<char>, FrameVal>>,
    key: Seq<char>,
    field: Seq<char>,
    v: FrameVal,
) -> Map<Seq<char>, Map<Seq<char>, FrameVal>> {
    c.insert(key, inner_of(c, key).insert(field, v))
}

/// The set of member names in a member list.
pub open spec fn member_views(members: Seq<String>) -> Set<Seq<char>> {
    members.map_values(|s: String| s@).to_set()
}

/// An inner map after a set-add: every member becomes a field holding the
/// Null sentinel; other fields keep their values.
pub open spec fn sadd_inner(
    inner: Map<Seq<char>, FrameVal>,
    ms: Set<Seq<char>>,
) -> Map<Seq<char>, FrameVal> {
    Map::new(
        |f: Seq<char>| inner.contains_key(f) || ms.contains(f),
        |f: Seq<char>|
            if ms.contains(f) {
                FrameVal::Null
            } else {
                inner[f]
            },
    )
}

/// A composite table after a set-add under a key.
pub open spec fn sadd_update(
    c: Map<Seq<char>, Map<Seq<char>, FrameVal>>,
    key: Seq<char>,
    ms: Set<Seq<char>>,
) -> Map<Seq<char>, Map<Seq<char>, FrameVal>> {
    c.insert(key, sadd_inner(inner_of(c, key), ms))
}

/// How many of the members a set-add finds absent: those become newly
/// inserted fields and are what the reply counts.
pub open spec fn new_member_count(inner: Map<Seq<char>, FrameVal>, ms: Set<Seq<char>>) -> nat {
    ms.difference(inner.dom()).len()
}

/// The store's tables.
pub struct BackendInner {
    pub(crate) map: StringTable,
    pub(crate) hmap: CompositeTable,
}

impl BackendInner {
    /// The string table's contents.
    pub closed spec fn strings(&self) -> Map<Seq<char>, FrameVal> {
        string_table_view(self.map)
    }

    /// The composite table's contents.
    pub closed spec fn composites(&self) -> Map<Seq<char>, Map<Seq<char>, FrameVal>> {
        composite_table_view(self.hmap)
    }
}

/// The shared backend store, handed to every command execution.
pub struct Backend(pub(crate) BackendInner);

impl Backend {
    /// The string table's contents.
    pub closed spec fn strings(&self) -> Map<Seq<char>, FrameVal> {
        string_table_view(self.0.map)
    }

    /// The composite table's contents.
    pub closed spec fn composites(&self) -> Map<Seq<char>, Map<Seq<char>, FrameVal>> {
        composite_table_view(self.0.hmap)
    }

    /// A fresh store with both tables empty.
    pub fn new() -> (r: Backend)
        ensures
            map_is_empty(r.strings()),
            map_is_empty(r.composites()),
    {
        Backend(BackendInner::default())
    }

    /// Snapshot read from the string table.
    pub fn get(&self, key: &str) -> (r: Option<RespFrame>)
        ensures
            match r {
                Some(f) => str_lookup(self.strings(), key@) == Some(f@),
                None => str_lookup(self.strings(), key@) is None,
            },
    {
        string_table_get(&self.0.map, key)
    }

    /// Unconditional last-writer-wins overwrite in the string table.
    pub fn set(&mut self, key: String, value: RespFrame)
        ensures
            final(self).strings() == old(self).strings().insert(key@, value@),
            final(self).composites() == old(self).composites(),
    {
        string_table_insert(&mut self.0.map, key, value);
    }

    /// Read of one field of a composite entry; an absent key and an absent
    /// field are indistinguishable.
    pub fn hget(&self, key: &str, field: &str) -> (r: Option<RespFrame>)
        ensures
            match r {
                Some(f) => composite_lookup(self.composites(), key@, field@) == Some(f@),
                None => composite_lookup(self.composites(), key@, field@) is None,
            },
    {
        composite_table_get(&self.0.hmap, key, field)
    }

    /// Field write: creates the inner map for the key on first use, then
    /// last-writer-wins overwrite of the field.
    pub fn hset(&mut self, key: String, field: String, value: RespFrame)
        ensures
            final(self).composites() == composite_update(
                old(self).composites(),
                key@,
                field@,
                value@,
            ),
            final(self).strings() == old(self).strings(),
    {
        let _ = composite_table_insert(&mut self.0.hmap, key.as_str(), field, value);
    }

    /// Point-in-time copy of a composite entry's pairs, in no fixed order;
    /// absent keys return nothing.
    pub fn hgetall(&self, key: &str) -> (r: Option<Vec<(String, RespFrame)>>)
        ensures
            match r {
                Some(pairs) => self.composites().contains_key(key@) && pairs_represent(
                    pairs@,
                    self.composites()[key@],
                ),
                None => !self.composites().contains_key(key@),
            },
    {
        composite_table_snapshot(&self.0.hmap, key)
    }

    /// True iff the member exists as a field of the key's composite entry.
    pub fn sismember(&self, key: &str, member: &str) -> (r: bool)
        ensures
            r == inner_of(self.composites(), key@).contains_key(member@),
    {
        composite_table_get(&self.0.hmap, key, member).is_some()
    }

    /// Inserts every member as a field holding the Null sentinel, creating
    /// the composite entry on first use, and returns how many members were
    /// newly inserted: members already present contribute nothing.
    pub fn sadd(&mut self, key: &str, members: Vec<String>) -> (added: i64)
        requires
            members@.len() <= i64::MAX,
        ensures
            final(self).composites() == sadd_update(
                old(self).composites(),
                key@,
                member_views(members@),
            ),
            final(self).strings() == old(self).strings(),
            added == new_member_count(inner_of(old(self).composites(), key@), member_views(members@)),
    {
        let ghost c0 = old(self).composites();
        let ghost inner0 = inner_of(c0, key@);
        composite_table_ensure(&mut self.0.hmap, key);
        proof {
            lemma_member_views_empty(members@);
            assert(member_views(members@.take(0)).difference(inner0.dom()) =~= Set::empty());
            assert(sadd_inner(inner0, member_views(members@.take(0))) =~= inner0);
            assert(self.composites() =~= sadd_update(c0, key@, member_views(members@.take(0))));
        }
        let mut added: i64 = 0;
        let mut i: usize = 0;
        while i < members.len()
            invariant
                i <= members@.len(),
                members@.len() <= i64::MAX,
                self.strings() == old(self).strings(),
                self.composites() == sadd_update(c0, key@, member_views(members@.take(i as int))),
                inner0 == inner_of(c0, key@),
                added == new_member_count(inner0, member_views(members@.take(i as int))),
                added <= i,
            decreases members@.len() - i,
        {
            let ghost pre = member_views(members@.take(i as int));
            let m = members[i].clone();
            let was_new = composite_table_insert(&mut self.0.hmap, key, m, RespFrame::Null);
            proof {
                lemma_member_views_step(members@, i as int);
                assert(inner_of(sadd_update(c0, key@, pre), key@) == sadd_inner(inner0, pre));
                assert(sadd_inner(inner0, pre).insert(members@[i as int]@, FrameVal::Null)
                    =~= sadd_inner(inner0, pre.insert(members@[i as int]@)));
                assert(self.composites() =~= sadd_update(
                    c0,
                    key@,
                    member_views(members@.take(i as int + 1)),
                ));
                lemma_count_step(inner0, pre, members@[i as int]@);
            }
            if was_new {
                added = added + 1;
            }
            i = i + 1;
        }
        proof {
            assert(members@.take(members@.len() as int) =~= members@);
        }
        added
    }
}

impl Default for BackendInner {
    /// Two fresh, empty tables.
    fn default() -> (r: BackendInner)
        ensures
            map_is_empty(r.strings()),
            map_is_empty(r.composites()),
    {
        BackendInner { map: new_string_table(), hmap: new_composite_table() }
    }
}

impl Default for Backend {
    /// A fresh store with both tables empty.
    fn default() -> (r: Backend)
        ensures
            map_is_empty(r.strings()),
            map_is_empty(r.composites()),
    {
        Backend::new()
    }
}

/// An empty member list names no members.
proof fn lemma_member_views_empty(members: Seq<String>)
    ensures
        member_views(members.take(0)) =~= Set::empty(),
{
    assert(members.take(0).map_values(|s: String| s@) =~= Seq::empty());
}

/// Taking one more member adds exactly its name to the named set.
proof fn lemma_member_views_step(members: Seq<String>, i: int)
    requires
        0 <= i < members.len(),
    ensures
        member_views(members.take(i + 1)) == member_views(members.take(i)).insert(members[i]@),
        member_views(members.take(i)).finite(),
{
    let f = |s: String| s@;
    assert(members.take(i + 1).map_values(f) =~= members.take(i).map_values(f).push(
        members[i]@,
    ));
    members.take(i).map_values(f).lemma_push_to_set_commute(members[i]@);
}

/// One inserted member raises the new-member count exactly when it is neither
/// an existing field nor already among the taken members.
proof fn lemma_count_step(inner: Map<Seq<char>, FrameVal>, pre: Set<Seq<char>>, m: Seq<char>)
    requires
        pre.finite(),
    ensures
        new_member_count(inner, pre.insert(m)) == new_member_count(inner, pre) + (
        if inner.contains_key(m) || pre.contains(m) {
            0int
        } else {
            1int
        }),
{
    if inner.contains_key(m) {
        assert(pre.insert(m).difference(inner.dom()) =~= pre.difference(inner.dom()));
    } else {
        assert(pre.insert(m).difference(inner.dom()) =~= pre.difference(inner.dom()).insert(m));
    }
}

} // verus!
