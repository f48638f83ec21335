//! Trusted boundary to the concurrent maps of the dashmap crate.
//!
//! The store's two tables are `DashMap` values. Verus does not read dashmap,
//! so the type is declared opaque, its contents are given names
//! (`string_table_view`, `composite_table_view`), and every operation the
//! store performs goes through one wrapper here whose contract states, over
//! those names, what dashmap's source shows. The wrappers take the tables by
//! exclusive reference, under which each call behaves as a plain map update.
use std::collections::hash_map::RandomState;

use dashmap::DashMap;

use crate::frame::{FrameVal, RespFrame};
use vstd::prelude::*;

verus! {

#[verifier::external_type_specification]
#[verifier::external_body]
#[verifier::reject_recursive_types(K)]
#[verifier::reject_recursive_types(V)]
#[verifier::reject_recursive_types(S)]
pub struct ExDashMap<K, V, S>(DashMap<K, V, S>);

/// The store's string table: key to scalar frame.
pub type StringTable = DashMap<String, RespFrame, RandomState>;

/// The store's composite table: outer key to an inner field map, shared by
/// the hash and the set command families.
pub type CompositeTable = DashMap<String, DashMap<String, RespFrame, RandomState>, RandomState>;

/// A map with no entries.
pub open spec fn map_is_empty<K, V>(m: Map<K, V>) -> bool {
    m == Map::<K, V>::empty()
}

/// The contents of a string table: each key to the value of the frame stored
/// under it.
pub uninterp spec fn string_table_view(m: StringTable) -> Map<Seq<char>, FrameVal>;

/// The contents of a composite table: each outer key to the contents of its
/// inner field map.
pub uninterp spec fn composite_table_view(m: CompositeTable) -> Map<Seq<char>, Map<Seq<char>, FrameVal>>;

/// The inner map under a key of a composite table, taking an absent entry as
/// the empty map.
pub open spec fn inner_of(
    c: Map<Seq<char>, Map<Seq<char>, FrameVal>>,
    key: Seq<char>,
) -> Map<Seq<char>, FrameVal> {
    if c.contains_key(key) {
        c[key]
    } else {
        Map::empty()
    }
}

/// The field names of a snapshot's pairs.
pub open spec fn field_views(pairs: Seq<(String, RespFrame)>) -> Seq<Seq<char>> {
    pairs.map_values(|p: (String, RespFrame)| p.0@)
}

/// The pairs list exactly the entries of the map `m`, each field once, in
/// some order.
pub open spec fn pairs_represent(
    pairs: Seq<(String, RespFrame)>,
    m: Map<Seq<char>, FrameVal>,
) -> bool {
    &&& field_views(pairs).no_duplicates()
    &&& forall|i: int|
        0 <= i < pairs.len() ==> m.contains_key(#[trigger] pairs[i].0@) && m[pairs[i].0@]
            == pairs[i].1@
    &&& forall|f: Seq<char>| m.contains_key(f) ==> field_views(pairs).contains(f)
}

/// Relies on dashmap::DashMap::new: creates an empty map.
#[verifier::external_body]
pub(crate) fn new_string_table() -> (m: StringTable)
    ensures
        map_is_empty(string_table_view(m)),
{
    DashMap::new()
}

/// Relies on dashmap::DashMap::new: creates an empty map.
#[verifier::external_body]
pub(crate) fn new_composite_table() -> (m: CompositeTable)
    ensures
        map_is_empty(composite_table_view(m)),
{
    DashMap::new()
}

/// Relies on dashmap::DashMap::get: returns the value stored under the key,
/// if any.
#[verifier::external_body]
pub(crate) fn string_table_get(m: &StringTable, key: &str) -> (r: Option<RespFrame>)
    ensures
        match r {
            Some(f) => string_table_view(*m).contains_key(key@) && f@ == string_table_view(
                *m,
            )[key@],
            None => !string_table_view(*m).contains_key(key@),
        },
{
    m.get(key).map(|guard| guard.value().clone())
}

/// Relies on dashmap::DashMap::insert: maps the key to the value, replacing
/// any value stored under it before.
#[verifier::external_body]
pub(crate) fn string_table_insert(
    m: &mut StringTable,
    key: String,
    value: RespFrame,
)
    ensures
        string_table_view(*final(m)) == string_table_view(*old(m)).insert(key@, value@),
{
    m.insert(key, value);
}

/// Relies on dashmap::DashMap::get on the outer and on the inner map: returns
/// the value stored under the field of the key's inner map, if both exist.
#[verifier::external_body]
pub(crate) fn composite_table_get(
    m: &CompositeTable,
    key: &str,
    field: &str,
) -> (r: Option<RespFrame>)
    ensures
        match r {
            Some(f) => {
                &&& composite_table_view(*m).contains_key(key@)
                &&& composite_table_view(*m)[key@].contains_key(field@)
                &&& f@ == composite_table_view(*m)[key@][field@]
            },
            None => !(composite_table_view(*m).contains_key(key@) && composite_table_view(
                *m,
            )[key@].contains_key(field@)),
        },
{
    m.get(key).and_then(|inner| inner.get(field).map(|guard| guard.value().clone()))
}

/// Relies on dashmap::DashMap::entry and dashmap::Entry::or_default: creates
/// the inner map under the key on first use and leaves an existing one as it
/// is.
#[verifier::external_body]
pub(crate) fn composite_table_ensure(
    m: &mut CompositeTable,
    key: &str,
)
    ensures
        composite_table_view(*final(m)) == composite_table_view(*old(m)).insert(
            key@,
            inner_of(composite_table_view(*old(m)), key@),
        ),
{
    m.entry(key.to_owned()).or_default();
}

/// Relies on dashmap::DashMap::entry, dashmap::Entry::or_default and
/// dashmap::DashMap::insert: creates the inner map under the key on first
/// use, maps the field to the value there, and tells whether the field was
/// absent before.
#[verifier::external_body]
pub(crate) fn composite_table_insert(
    m: &mut CompositeTable,
    key: &str,
    field: String,
    value: RespFrame,
) -> (was_new: bool)
    ensures
        composite_table_view(*final(m)) == composite_table_view(*old(m)).insert(
            key@,
            inner_of(composite_table_view(*old(m)), key@).insert(field@, value@),
        ),
        was_new == !inner_of(composite_table_view(*old(m)), key@).contains_key(field@),
{
    m.entry(key.to_owned()).or_default().insert(field, value).is_none()
}

/// Relies on dashmap::DashMap::get and on iteration over the inner map: hands
/// out every (field, value) pair of the key's inner map, each once, in no
/// fixed order.
#[verifier::external_body]
pub(crate) fn composite_table_snapshot(
    m: &CompositeTable,
    key: &str,
) -> (r: Option<Vec<(String, RespFrame)>>)
    ensures
        match r {
            Some(pairs) => composite_table_view(*m).contains_key(key@) && pairs_represent(
                pairs@,
                composite_table_view(*m)[key@],
            ),
            None => !composite_table_view(*m).contains_key(key@),
        },
{
    m.get(key).map(|inner| inner.iter().map(|e| (e.key().clone(), e.value().clone())).collect())
}

} // verus!
