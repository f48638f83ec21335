//! The command model and the parsing, validation and execution pipeline.
//!
//! A request arrives as an array frame. Parsing validates the command name
//! (exact match on the literal first token), the argument count and the type
//! of every textual argument, and decodes textual arguments as UTF-8; on
//! success it yields a typed command, on failure an error value, and it never
//! touches the store. Execution maps a command and the store to a reply
//! frame.
use vstd::prelude::*;

use crate::backend::{
    composite_lookup, composite_update, member_views, new_member_count, sadd_update, str_lookup,
    Backend,
};
use crate::frame::{frames_view, lemma_frames_view, lemma_frames_view_push, ok_frame, resp_ok,
    FrameVal, RespArray, RespFrame};
use crate::sorting::{pairs_sorted, sort_pairs};
use crate::tables::{field_views, inner_of, pairs_represent};
use vstd::utf8::{decode_utf8, encode_utf8, valid_utf8};

verus! {

broadcast use
    vstd::seq_lib::group_to_multiset_ensures,
    vstd::slice::axiom_spec_len,
;

/// Why a request was rejected: a bad name, count or argument type, or textual
/// bytes that are not valid UTF-8. A failed parse never mutates the store.
#[derive(Debug, PartialEq)]
pub enum CommandError {
    /// Unknown or wrong command name, wrong argument count, or a non-textual
    /// frame in a textual position.
    InvalidArgument(String),
    /// A textual argument whose bytes are not valid UTF-8.
    DecodeError,
}

/// GET key: read one scalar value.
#[derive(Debug, PartialEq)]
pub struct Get {
    pub key: String,
}

/// SET key value: store one scalar value; the value may be any frame.
#[derive(Debug, PartialEq)]
pub struct SetCmd {
    pub key: String,
    pub value: RespFrame,
}

/// HGET key field: read one field of a hash.
#[derive(Debug, PartialEq)]
pub struct HGet {
    pub key: String,
    pub field: String,
}

/// HSET key field value: write one field of a hash; the value may be any
/// frame.
#[derive(Debug, PartialEq)]
pub struct HSet {
    pub key: String,
    pub field: String,
    pub value: RespFrame,
}

/// HGETALL key: list every (field, value) pair of a hash. The sort flag is
/// not client-supplied: parsing always leaves it false and the caller decides
/// the ordering.
#[derive(Debug, PartialEq)]
pub struct HGetAll {
    pub key: String,
    pub sort: bool,
}

/// HMGET key field...: read several fields of a hash, in request order.
#[derive(Debug, PartialEq)]
pub struct HMGet {
    pub key: String,
    pub fields: Vec<String>,
}

/// SADD key member...: add members to a set.
#[derive(Debug, PartialEq)]
pub struct SAdd {
    pub key: String,
    pub members: Vec<String>,
}

/// SISMEMBER key member: test membership in a set.
#[derive(Debug, PartialEq)]
pub struct SIsMember {
    pub key: String,
    pub member: String,
}

/// The wire name of GET.
pub open spec fn get_name() -> Seq<u8> {
    encode_utf8("get"@)
}

/// The wire name of SET.
pub open spec fn set_name() -> Seq<u8> {
    encode_utf8("set"@)
}

/// The wire name of HGET.
pub open spec fn hget_name() -> Seq<u8> {
    encode_utf8("hget"@)
}

/// The wire name of HSET.
pub open spec fn hset_name() -> Seq<u8> {
    encode_utf8("hset"@)
}

/// The wire name of HGETALL.
pub open spec fn hgetall_name() -> Seq<u8> {
    encode_utf8("hgetall"@)
}

/// The wire name of HMGET.
pub open spec fn hmget_name() -> Seq<u8> {
    encode_utf8("hmget"@)
}

/// The wire name of SADD.
pub open spec fn sadd_name() -> Seq<u8> {
    encode_utf8("sadd"@)
}

/// The wire name of SISMEMBER.
pub open spec fn sismember_name() -> Seq<u8> {
    encode_utf8("sismember"@)
}

/// The payload of a textual token.
pub open spec fn bulk_of(f: FrameVal) -> Seq<u8>
    recommends
        f is Bulk,
{
    f->Bulk_0
}

/// A fixed-arity request is well-shaped: the name token, then `n_text`
/// textual arguments, then `n_value` arguments of any frame type.
pub open spec fn fixed_shape_ok(v: Seq<FrameVal>, name: Seq<u8>, n_text: int, n_value: int) -> bool {
    &&& v.len() == 1 + n_text + n_value
    &&& v[0] == FrameVal::Bulk(name)
    &&& forall|i: int| 1 <= i <= n_text ==> v[i] is Bulk
}

/// A variable-arity request is well-shaped: the name token, a key and at
/// least one further argument, all textual.
pub open spec fn vararg_shape_ok(v: Seq<FrameVal>, name: Seq<u8>) -> bool {
    &&& v.len() >= 3
    &&& v[0] == FrameVal::Bulk(name)
    &&& forall|i: int| 1 <= i < v.len() ==> v[i] is Bulk
}

/// Every textual argument decodes as UTF-8.
pub open spec fn texts_decode_ok(v: Seq<FrameVal>, n_text: int) -> bool {
    forall|i: int| 1 <= i <= n_text ==> valid_utf8(bulk_of(v[i]))
}

/// The decoded characters of the textual token at position `i`.
pub open spec fn text_at(v: Seq<FrameVal>, i: int) -> Seq<char> {
    decode_utf8(bulk_of(v[i]))
}

/// A frame's value is a textual token exactly when the frame is a bulk
/// string.
proof fn lemma_bulk_view(f: &RespFrame)
    ensures
        (f@ is Bulk) == (f matches RespFrame::BulkString(_)),
{
    match f {
        RespFrame::Null => {},
        RespFrame::Integer(_) => {},
        RespFrame::SimpleString(_) => {},
        RespFrame::Error(_) => {},
        RespFrame::BulkString(_) => {},
        RespFrame::Array(_) => {},
    }
}

/// Compares two byte strings for equality.
#[verifier::loop_isolation(false)]
fn bytes_eq(a: &[u8], b: &[u8]) -> (r: bool)
    ensures
        r == (a@ == b@),
{
    if a.len() != b.len() {
        return false;
    }
    let mut i: usize = 0;
    while i < a.len()
        invariant
            i <= a@.len(),
            a@.len() == b@.len(),
            forall|k: int| 0 <= k < i ==> a@[k] == b@[k],
        decreases a@.len() - i,
    {
        if a[i] != b[i] {
            return false;
        }
        i = i + 1;
    }
    proof {
        assert(a@ =~= b@);
    }
    true
}

/// Checks a fixed-arity request's shape against a command name.
#[verifier::loop_isolation(false)]
fn check_fixed(v: &RespArray, name: &str, n_text: usize, n_value: usize) -> (ok: bool)
    requires
        n_text <= 8,
        n_value <= 8,
    ensures
        ok == fixed_shape_ok(v@, encode_utf8(name@), n_text as int, n_value as int),
{
    proof {
        lemma_frames_view(v.0@);
    }
    if v.0.len() != 1 + n_text + n_value {
        return false;
    }
    let first = &v.0[0];
    proof {
        lemma_bulk_view(first);
    }
    match first {
        RespFrame::BulkString(b) => {
            if !bytes_eq(b.as_slice(), name.as_bytes()) {
                return false;
            }
        },
        _ => {
            return false;
        },
    }
    let mut i: usize = 1;
    while i <= n_text
        invariant
            1 <= i <= n_text + 1,
            n_text < v.0@.len(),
            v@ == frames_view(v.0@),
            v@.len() == v.0@.len(),
            forall|k: int| 0 <= k < v.0@.len() ==> v@[k] == v.0@[k]@,
            forall|k: int| 1 <= k < i ==> v@[k] is Bulk,
        decreases n_text + 1 - i,
    {
        let arg = &v.0[i];
        proof {
            lemma_bulk_view(arg);
        }
        match arg {
            RespFrame::BulkString(_) => {},
            _ => {
                proof {
                    assert(*arg == v.0@[i as int]);
                    assert(!(arg@ is Bulk));
                    assert(!(v@[i as int] is Bulk));
                }
                return false;
            },
        }
        i = i + 1;
    }
    true
}

/// Checks a variable-arity request's shape against a command name.
#[verifier::loop_isolation(false)]
fn check_vararg(v: &RespArray, name: &str) -> (ok: bool)
    ensures
        ok == vararg_shape_ok(v@, encode_utf8(name@)),
{
    proof {
        lemma_frames_view(v.0@);
    }
    if v.0.len() < 3 {
        return false;
    }
    let first = &v.0[0];
    proof {
        lemma_bulk_view(first);
    }
    match first {
        RespFrame::BulkString(b) => {
            if !bytes_eq(b.as_slice(), name.as_bytes()) {
                return false;
            }
        },
        _ => {
            return false;
        },
    }
    let mut i: usize = 1;
    while i < v.0.len()
        invariant
            1 <= i <= v.0@.len(),
            v@ == frames_view(v.0@),
            v@.len() == v.0@.len(),
            forall|k: int| 0 <= k < v.0@.len() ==> v@[k] == v.0@[k]@,
            forall|k: int| 1 <= k < i ==> v@[k] is Bulk,
        decreases v.0@.len() - i,
    {
        let arg = &v.0[i];
        proof {
            lemma_bulk_view(arg);
        }
        match arg {
            RespFrame::BulkString(_) => {},
            _ => {
                proof {
                    assert(*arg == v.0@[i as int]);
                    assert(!(arg@ is Bulk));
                    assert(!(v@[i as int] is Bulk));
                }
                return false;
            },
        }
        i = i + 1;
    }
    true
}

/// Relies on String::from_utf8: it succeeds exactly on valid UTF-8 bytes,
/// and the characters it decodes are a function of the bytes alone.
#[verifier::external_body]
fn decode_text(bytes: Vec<u8>) -> (r: Option<String>)
    ensures
        match r {
            Some(s) => valid_utf8(bytes@) && s@ == decode_utf8(bytes@),
            None => !valid_utf8(bytes@),
        },
{
    String::from_utf8(bytes).ok()
}

/// Strips the name token, decodes the `n_text` textual arguments and hands
/// back the remaining `n_value` value arguments unchanged.
#[verifier::loop_isolation(false)]
fn extract_args(value: RespArray, n_text: usize, n_value: usize) -> (r: Result<
    (Vec<String>, Vec<RespFrame>),
    CommandError,
>)
    requires
        value@.len() == 1 + n_text + n_value,
        forall|i: int| 1 <= i <= n_text ==> value@[i] is Bulk,
    ensures
        match r {
            Ok(tv) => {
                &&& texts_decode_ok(value@, n_text as int)
                &&& tv.0@.len() == n_text
                &&& tv.1@.len() == n_value
                &&& forall|i: int| 0 <= i < n_text ==> tv.0@[i]@ == text_at(value@, i + 1)
                &&& forall|i: int| 0 <= i < n_value ==> tv.1@[i]@ == value@[1 + n_text + i]
            },
            Err(e) => e is DecodeError && !texts_decode_ok(value@, n_text as int),
        },
{
    let ghost orig = value.0@;
    proof {
        lemma_frames_view(orig);
    }
    let RespArray(mut frames) = value;
    let _name = frames.remove(0);
    let mut texts: Vec<String> = Vec::new();
    let mut j: usize = 0;
    while j < n_text
        invariant
            j <= n_text,
            orig.len() == 1 + n_text + n_value,
            frames@ == orig.skip(1 + j as int),
            frames_view(orig).len() == orig.len(),
            forall|k: int| 0 <= k < orig.len() ==> frames_view(orig)[k] == orig[k]@,
            forall|i: int| 1 <= i <= n_text ==> frames_view(orig)[i] is Bulk,
            texts@.len() == j,
            forall|i: int|
                #![trigger frames_view(orig)[i]]
                1 <= i <= j ==> valid_utf8(bulk_of(frames_view(orig)[i])),
            forall|i: int|
                #![trigger texts@[i]]
                0 <= i < j ==> texts@[i]@ == text_at(frames_view(orig), i + 1),
        decreases n_text - j,
    {
        let f = frames.remove(0);
        proof {
            assert(f == orig[1 + j as int]);
            assert(frames@ =~= orig.skip(1 + j as int + 1));
            lemma_bulk_view(&f);
            assert(f@ == frames_view(orig)[1 + j as int]);
        }
        let b = match f {
            RespFrame::BulkString(b) => b,
            _ => {
                proof {
                    assert(false);
                }
                Vec::new()
            },
        };
        match decode_text(b) {
            Some(s) => {
                proof {
                    assert(f == RespFrame::BulkString(b));
                    assert(frames_view(orig)[1 + j as int] == FrameVal::Bulk(b@));
                    assert(s@ == text_at(frames_view(orig), 1 + j as int));
                }
                let ghost texts0 = texts@;
                texts.push(s);
                proof {
                    assert forall|i: int|
                        #![trigger texts@[i]]
                        0 <= i < j + 1 implies texts@[i]@ == text_at(frames_view(orig), i + 1) by {
                        if i < j {
                            assert(texts@[i] == texts0[i]);
                        } else {
                            assert(texts@[i] == s);
                        }
                    }
                }
            },
            None => {
                proof {
                    assert(value@ == frames_view(orig));
                    assert(!texts_decode_ok(value@, n_text as int)) by {
                        assert(!valid_utf8(bulk_of(value@[1 + j as int])));
                    }
                }
                return Err(CommandError::DecodeError);
            },
        }
        j = j + 1;
    }
    proof {
        assert(value@ == frames_view(orig));
        assert(frames@ =~= orig.skip(1 + n_text as int));
        assert forall|i: int| 0 <= i < n_value implies frames@[i]@ == frames_view(orig)[1
            + n_text as int + i] by {
            assert(frames@[i] == orig[1 + n_text as int + i]);
        }
        assert forall|i: int| 0 <= i < n_text implies texts@[i]@ == text_at(value@, i + 1) by {
            assert(texts@[i]@ == text_at(frames_view(orig), i + 1));
        }
    }
    Ok((texts, frames))
}

/// The parsed GET command for a well-shaped, well-encoded request.
pub open spec fn get_ok(v: Seq<FrameVal>, c: Get) -> bool {
    &&& fixed_shape_ok(v, get_name(), 1, 0)
    &&& texts_decode_ok(v, 1)
    &&& c.key@ == text_at(v, 1)
}

/// The parsed SET command for a well-shaped, well-encoded request.
pub open spec fn set_ok(v: Seq<FrameVal>, c: SetCmd) -> bool {
    &&& fixed_shape_ok(v, set_name(), 1, 1)
    &&& texts_decode_ok(v, 1)
    &&& c.key@ == text_at(v, 1)
    &&& c.value@ == v[2]
}

/// The parsed HGET command for a well-shaped, well-encoded request.
pub open spec fn hget_ok(v: Seq<FrameVal>, c: HGet) -> bool {
    &&& fixed_shape_ok(v, hget_name(), 2, 0)
    &&& texts_decode_ok(v, 2)
    &&& c.key@ == text_at(v, 1)
    &&& c.field@ == text_at(v, 2)
}

/// The parsed HSET command for a well-shaped, well-encoded request.
pub open spec fn hset_ok(v: Seq<FrameVal>, c: HSet) -> bool {
    &&& fixed_shape_ok(v, hset_name(), 2, 1)
    &&& texts_decode_ok(v, 2)
    &&& c.key@ == text_at(v, 1)
    &&& c.field@ == text_at(v, 2)
    &&& c.value@ == v[3]
}

/// The parsed HGETALL command for a well-shaped, well-encoded request: its
/// sort flag always starts out false.
pub open spec fn hgetall_ok(v: Seq<FrameVal>, c: HGetAll) -> bool {
    &&& fixed_shape_ok(v, hgetall_name(), 1, 0)
    &&& texts_decode_ok(v, 1)
    &&& c.key@ == text_at(v, 1)
    &&& c.sort == false
}

/// The parsed HMGET command for a well-shaped, well-encoded request:
/// requested fields keep their order and their duplicates.
pub open spec fn hmget_ok(v: Seq<FrameVal>, c: HMGet) -> bool {
    &&& vararg_shape_ok(v, hmget_name())
    &&& texts_decode_ok(v, v.len() - 1)
    &&& c.key@ == text_at(v, 1)
    &&& c.fields@.len() == v.len() - 2
    &&& forall|i: int| 0 <= i < c.fields@.len() ==> c.fields@[i]@ == text_at(v, i + 2)
}

/// The parsed SADD command for a well-shaped, well-encoded request.
pub open spec fn sadd_ok(v: Seq<FrameVal>, c: SAdd) -> bool {
    &&& vararg_shape_ok(v, sadd_name())
    &&& texts_decode_ok(v, v.len() - 1)
    &&& c.key@ == text_at(v, 1)
    &&& c.members@.len() == v.len() - 2
    &&& forall|i: int| 0 <= i < c.members@.len() ==> c.members@[i]@ == text_at(v, i + 2)
}

/// The parsed SISMEMBER command for a well-shaped, well-encoded request.
pub open spec fn sismember_ok(v: Seq<FrameVal>, c: SIsMember) -> bool {
    &&& fixed_shape_ok(v, sismember_name(), 2, 0)
    &&& texts_decode_ok(v, 2)
    &&& c.key@ == text_at(v, 1)
    &&& c.member@ == text_at(v, 2)
}

impl Get {
    /// Parses a GET request, validating name, count and argument types.
    pub fn try_from(value: RespArray) -> (r: Result<Get, CommandError>)
        ensures
            match r {
                Ok(c) => get_ok(value@, c),
                Err(CommandError::InvalidArgument(_)) => !fixed_shape_ok(value@, get_name(), 1, 0),
                Err(CommandError::DecodeError) => fixed_shape_ok(value@, get_name(), 1, 0)
                    && !texts_decode_ok(value@, 1),
            },
    {
        if !check_fixed(&value, "get", 1, 0) {
            return Err(CommandError::InvalidArgument("Invalid key".to_owned()));
        }
        let (mut texts, _values) = match extract_args(value, 1, 0) {
            Ok(tv) => tv,
            Err(e) => {
                return Err(e);
            },
        };
        let key = texts.remove(0);
        Ok(Get { key })
    }
}

impl SetCmd {
    /// Parses a SET request; the stored value may be any frame type.
    pub fn try_from(value: RespArray) -> (r: Result<SetCmd, CommandError>)
        ensures
            match r {
                Ok(c) => set_ok(value@, c),
                Err(CommandError::InvalidArgument(_)) => !fixed_shape_ok(value@, set_name(), 1, 1),
                Err(CommandError::DecodeError) => fixed_shape_ok(value@, set_name(), 1, 1)
                    && !texts_decode_ok(value@, 1),
            },
    {
        if !check_fixed(&value, "set", 1, 1) {
            return Err(CommandError::InvalidArgument("Invalid key or value".to_owned()));
        }
        let (mut texts, mut values) = match extract_args(value, 1, 1) {
            Ok(tv) => tv,
            Err(e) => {
                return Err(e);
            },
        };
        let key = texts.remove(0);
        let value = values.remove(0);
        Ok(SetCmd { key, value })
    }
}

impl HGet {
    /// Parses an HGET request, validating name, count and argument types.
    pub fn try_from(value: RespArray) -> (r: Result<HGet, CommandError>)
        ensures
            match r {
                Ok(c) => hget_ok(value@, c),
                Err(CommandError::InvalidArgument(_)) => !fixed_shape_ok(value@, hget_name(), 2, 0),
                Err(CommandError::DecodeError) => fixed_shape_ok(value@, hget_name(), 2, 0)
                    && !texts_decode_ok(value@, 2),
            },
    {
        if !check_fixed(&value, "hget", 2, 0) {
            return Err(CommandError::InvalidArgument("Invalid key or field".to_owned()));
        }
        let (mut texts, _values) = match extract_args(value, 2, 0) {
            Ok(tv) => tv,
            Err(e) => {
                return Err(e);
            },
        };
        let key = texts.remove(0);
        let field = texts.remove(0);
        Ok(HGet { key, field })
    }
}

impl HSet {
    /// Parses an HSET request; a non-textual key or field is rejected, a
    /// non-textual value is accepted.
    pub fn try_from(value: RespArray) -> (r: Result<HSet, CommandError>)
        ensures
            match r {
                Ok(c) => hset_ok(value@, c),
                Err(CommandError::InvalidArgument(_)) => !fixed_shape_ok(value@, hset_name(), 2, 1),
                Err(CommandError::DecodeError) => fixed_shape_ok(value@, hset_name(), 2, 1)
                    && !texts_decode_ok(value@, 2),
            },
    {
        if !check_fixed(&value, "hset", 2, 1) {
            return Err(CommandError::InvalidArgument("Invalid key, field or value".to_owned()));
        }
        let (mut texts, mut values) = match extract_args(value, 2, 1) {
            Ok(tv) => tv,
            Err(e) => {
                return Err(e);
            },
        };
        let key = texts.remove(0);
        let field = texts.remove(0);
        let value = values.remove(0);
        Ok(HSet { key, field, value })
    }
}

impl HGetAll {
    /// Parses an HGETALL request; the sort flag always starts out false.
    pub fn try_from(value: RespArray) -> (r: Result<HGetAll, CommandError>)
        ensures
            match r {
                Ok(c) => hgetall_ok(value@, c),
                Err(CommandError::InvalidArgument(_)) => !fixed_shape_ok(
                    value@,
                    hgetall_name(),
                    1,
                    0,
                ),
                Err(CommandError::DecodeError) => fixed_shape_ok(value@, hgetall_name(), 1, 0)
                    && !texts_decode_ok(value@, 1),
            },
    {
        if !check_fixed(&value, "hgetall", 1, 0) {
            return Err(CommandError::InvalidArgument("Invalid key".to_owned()));
        }
        let (mut texts, _values) = match extract_args(value, 1, 0) {
            Ok(tv) => tv,
            Err(e) => {
                return Err(e);
            },
        };
        let key = texts.remove(0);
        Ok(HGetAll { key, sort: false })
    }
}

impl HMGet {
    /// Parses an HMGET request: a key and one or more fields, all textual;
    /// the zero-field form is rejected.
    pub fn try_from(value: RespArray) -> (r: Result<HMGet, CommandError>)
        ensures
            match r {
                Ok(c) => hmget_ok(value@, c),
                Err(CommandError::InvalidArgument(_)) => !vararg_shape_ok(value@, hmget_name()),
                Err(CommandError::DecodeError) => vararg_shape_ok(value@, hmget_name())
                    && !texts_decode_ok(value@, value@.len() - 1),
            },
    {
        if !check_vararg(&value, "hmget") {
            return Err(
                CommandError::InvalidArgument(
                    "command hmget must have at least 2 arguments".to_owned(),
                ),
            );
        }
        let n_text = value.0.len() - 1;
        proof {
            lemma_frames_view(value.0@);
        }
        let (mut texts, _values) = match extract_args(value, n_text, 0) {
            Ok(tv) => tv,
            Err(e) => {
                return Err(e);
            },
        };
        let key = texts.remove(0);
        Ok(HMGet { key, fields: texts })
    }
}

impl SAdd {
    /// Parses an SADD request: a key and one or more members, all textual;
    /// the zero-member form is rejected.
    pub fn try_from(value: RespArray) -> (r: Result<SAdd, CommandError>)
        ensures
            match r {
                Ok(c) => sadd_ok(value@, c),
                Err(CommandError::InvalidArgument(_)) => !vararg_shape_ok(value@, sadd_name()),
                Err(CommandError::DecodeError) => vararg_shape_ok(value@, sadd_name())
                    && !texts_decode_ok(value@, value@.len() - 1),
            },
    {
        if !check_vararg(&value, "sadd") {
            return Err(
                CommandError::InvalidArgument(
                    "command sadd must have at least 2 arguments".to_owned(),
                ),
            );
        }
        let n_text = value.0.len() - 1;
        proof {
            lemma_frames_view(value.0@);
        }
        let (mut texts, _values) = match extract_args(value, n_text, 0) {
            Ok(tv) => tv,
            Err(e) => {
                return Err(e);
            },
        };
        let key = texts.remove(0);
        Ok(SAdd { key, members: texts })
    }
}

impl SIsMember {
    /// Parses a SISMEMBER request, validating name, count and argument types.
    pub fn try_from(value: RespArray) -> (r: Result<SIsMember, CommandError>)
        ensures
            match r {
                Ok(c) => sismember_ok(value@, c),
                Err(CommandError::InvalidArgument(_)) => !fixed_shape_ok(
                    value@,
                    sismember_name(),
                    2,
                    0,
                ),
                Err(CommandError::DecodeError) => fixed_shape_ok(value@, sismember_name(), 2, 0)
                    && !texts_decode_ok(value@, 2),
            },
    {
        if !check_fixed(&value, "sismember", 2, 0) {
            return Err(CommandError::InvalidArgument("Invalid key or member".to_owned()));
        }
        let (mut texts, _values) = match extract_args(value, 2, 0) {
            Ok(tv) => tv,
            Err(e) => {
                return Err(e);
            },
        };
        let key = texts.remove(0);
        let member = texts.remove(0);
        Ok(SIsMember { key, member })
    }
}


/// The reply for a read: the stored value, or Null when nothing is stored.
pub open spec fn value_or_null(o: Option<FrameVal>) -> FrameVal {
    match o {
        Some(v) => v,
        None => FrameVal::Null,
    }
}

/// The HMGET reply items: one per requested field, in request order, each the
/// stored value or Null.
pub open spec fn hmget_items(
    c: Map<Seq<char>, Map<Seq<char>, FrameVal>>,
    key: Seq<char>,
    fields: Seq<String>,
) -> Seq<FrameVal> {
    Seq::new(fields.len(), |i: int| value_or_null(composite_lookup(c, key, fields[i]@)))
}

/// A snapshot flattened into the alternating field, value, ... reply items,
/// fields as bulk strings.
pub open spec fn flat_pairs(pairs: Seq<(String, RespFrame)>) -> Seq<FrameVal>
    decreases pairs.len(),
{
    if pairs.len() == 0 {
        Seq::empty()
    } else {
        seq![FrameVal::Bulk(encode_utf8(pairs[0].0@)), pairs[0].1@] + flat_pairs(
            pairs.drop_first(),
        )
    }
}

/// The HGETALL reply: the flattening of some listing of exactly the hash's
/// pairs, sorted by field-name bytes when the sort flag is set.
pub open spec fn hgetall_reply(r: FrameVal, m: Map<Seq<char>, FrameVal>, sort: bool) -> bool {
    exists|pairs: Seq<(String, RespFrame)>|
        {
            &&& #[trigger] pairs_represent(pairs, m)
            &&& sort ==> pairs_sorted(pairs)
            &&& r == FrameVal::Array(flat_pairs(pairs))
        }
}

/// Listing the same pairs in another order still lists exactly the map's
/// entries.
proof fn lemma_represent_permutation(
    a: Seq<(String, RespFrame)>,
    b: Seq<(String, RespFrame)>,
    m: Map<Seq<char>, FrameVal>,
)
    requires
        pairs_represent(a, m),
        b.to_multiset() == a.to_multiset(),
    ensures
        pairs_represent(b, m),
{
    vstd::seq_lib::to_multiset_len(a);
    vstd::seq_lib::to_multiset_len(b);
    assert(b.len() == a.len());
    assert forall|p: (String, RespFrame)| #[trigger] b.contains(p) implies a.contains(p) by {
        assert(b.to_multiset().count(p) > 0);
    }
    assert forall|p: (String, RespFrame)| #[trigger] a.contains(p) implies b.contains(p) by {
        assert(a.to_multiset().count(p) > 0);
    }
    assert forall|i: int|
        0 <= i < b.len() implies m.contains_key(#[trigger] b[i].0@) && m[b[i].0@] == b[i].1@ by {
        assert(b.contains(b[i]));
        let j = choose|j: int| 0 <= j < a.len() && a[j] == b[i];
        assert(m.contains_key(a[j].0@) && m[a[j].0@] == a[j].1@);
    }
    assert forall|f: Seq<char>| m.contains_key(f) implies field_views(b).contains(f) by {
        assert(field_views(a).contains(f));
        let i = choose|i: int| 0 <= i < field_views(a).len() && field_views(a)[i] == f;
        assert(a.contains(a[i]));
        let j = choose|j: int| 0 <= j < b.len() && b[j] == a[i];
        assert(field_views(b)[j] == f);
    }
    // pairs with one field are one pair, so a permutation keeps fields unique
    assert(a.no_duplicates()) by {
        assert forall|i: int, j: int| 0 <= i < a.len() && 0 <= j < a.len() && i != j implies a[i]
            != a[j] by {
            assert(field_views(a)[i] == a[i].0@);
            assert(field_views(a)[j] == a[j].0@);
        }
    }
    a.lemma_multiset_has_no_duplicates();
    b.lemma_multiset_has_no_duplicates_conv();
    assert(field_views(b).no_duplicates()) by {
        assert forall|i: int, j: int|
            0 <= i < b.len() && 0 <= j < b.len() && i != j implies field_views(b)[i]
            != field_views(b)[j] by {
            if field_views(b)[i] == field_views(b)[j] {
                assert(b.contains(b[i]));
                assert(b.contains(b[j]));
                let k1 = choose|k: int| 0 <= k < a.len() && a[k] == b[i];
                let k2 = choose|k: int| 0 <= k < a.len() && a[k] == b[j];
                assert(field_views(a)[k1] == a[k1].0@);
                assert(field_views(a)[k2] == a[k2].0@);
                assert(k1 == k2);
                assert(b[i] == b[j]);
            }
        }
    }
}

/// Flattens a snapshot into the alternating field, value, ... reply items.
#[verifier::loop_isolation(false)]
fn flatten_pairs(pairs: Vec<(String, RespFrame)>) -> (r: Vec<RespFrame>)
    ensures
        frames_view(r@) == flat_pairs(pairs@),
{
    let ghost orig = pairs@;
    let mut rest = pairs;
    let mut out: Vec<RespFrame> = Vec::new();
    proof {
        assert(frames_view(out@) =~= Seq::empty());
        assert(flat_pairs(orig) =~= frames_view(out@) + flat_pairs(rest@));
    }
    while rest.len() > 0
        invariant
            flat_pairs(orig) == frames_view(out@) + flat_pairs(rest@),
        decreases rest.len(),
    {
        let ghost rest0 = rest@;
        let ghost out0 = out@;
        let (field, value) = rest.remove(0);
        proof {
            assert(rest@ =~= rest0.drop_first());
            assert((field, value) == rest0[0]);
        }
        let fb = field.as_str().as_bytes_vec();
        let ghost bulk_frame = RespFrame::BulkString(fb);
        out.push(RespFrame::BulkString(fb));
        proof {
            lemma_frames_view_push(out0, bulk_frame);
        }
        let ghost out1 = out@;
        out.push(value);
        proof {
            lemma_frames_view_push(out1, value);
            assert(flat_pairs(rest0) == seq![
                FrameVal::Bulk(encode_utf8(rest0[0].0@)),
                rest0[0].1@,
            ] + flat_pairs(rest0.drop_first()));
            assert(bulk_frame@ == FrameVal::Bulk(encode_utf8(field@)));
            assert(frames_view(out@) =~= frames_view(out0) + seq![
                FrameVal::Bulk(encode_utf8(rest0[0].0@)),
                rest0[0].1@,
            ]);
            assert(frames_view(out@) + flat_pairs(rest@) =~= frames_view(out0) + flat_pairs(
                rest0,
            ));
        }
    }
    proof {
        assert(flat_pairs(rest@) =~= Seq::empty());
        assert(frames_view(out@) + flat_pairs(rest@) =~= frames_view(out@));
    }
    out
}

impl Get {
    /// GET: the stored value, or Null when the key was never written.
    pub fn execute(self, backend: &Backend) -> (r: RespFrame)
        ensures
            r@ == value_or_null(str_lookup(backend.strings(), self.key@)),
    {
        match backend.get(self.key.as_str()) {
            Some(v) => v,
            None => RespFrame::Null,
        }
    }
}

impl SetCmd {
    /// SET: last-writer-wins store of the value, answered with the fixed OK
    /// status.
    pub fn execute(self, backend: &mut Backend) -> (r: RespFrame)
        ensures
            final(backend).strings() == old(backend).strings().insert(self.key@, self.value@),
            final(backend).composites() == old(backend).composites(),
            r@ == ok_frame(),
    {
        backend.set(self.key, self.value);
        resp_ok()
    }
}

impl HGet {
    /// HGET: the stored field value; a missing key and a missing field both
    /// answer Null, indistinguishably.
    pub fn execute(self, backend: &Backend) -> (r: RespFrame)
        ensures
            r@ == value_or_null(composite_lookup(backend.composites(), self.key@, self.field@)),
    {
        match backend.hget(self.key.as_str(), self.field.as_str()) {
            Some(v) => v,
            None => RespFrame::Null,
        }
    }
}

impl HSet {
    /// HSET: last-writer-wins write of the field, answered with the fixed OK
    /// status.
    pub fn execute(self, backend: &mut Backend) -> (r: RespFrame)
        ensures
            final(backend).composites() == composite_update(
                old(backend).composites(),
                self.key@,
                self.field@,
                self.value@,
            ),
            final(backend).strings() == old(backend).strings(),
            r@ == ok_frame(),
    {
        backend.hset(self.key, self.field, self.value);
        resp_ok()
    }
}

impl HGetAll {
    /// HGETALL: every (field, value) pair of the hash, flattened; an absent
    /// key answers the empty array; with the sort flag the fields come in
    /// ascending byte order.
    pub fn execute(self, backend: &Backend) -> (r: RespFrame)
        ensures
            hgetall_reply(r@, inner_of(backend.composites(), self.key@), self.sort),
    {
        let ghost m = inner_of(backend.composites(), self.key@);
        match backend.hgetall(self.key.as_str()) {
            Some(pairs) => {
                let ghost pairs0 = pairs@;
                let pairs = if self.sort {
                    let sorted = sort_pairs(pairs);
                    proof {
                        lemma_represent_permutation(pairs0, sorted@, m);
                    }
                    sorted
                } else {
                    pairs
                };
                let ghost listing = pairs@;
                let items = flatten_pairs(pairs);
                let r = RespFrame::Array(RespArray::new(items));
                proof {
                    assert(pairs_represent(listing, m));
                    assert(r@ == FrameVal::Array(flat_pairs(listing)));
                }
                r
            },
            None => {
                let r = RespFrame::Array(RespArray::new(Vec::new()));
                proof {
                    let empty = Seq::<(String, RespFrame)>::empty();
                    assert(m =~= Map::<Seq<char>, FrameVal>::empty());
                    assert(field_views(empty) =~= Seq::<Seq<char>>::empty());
                    assert(pairs_represent(empty, m));
                    assert(flat_pairs(empty) =~= Seq::empty());
                    assert(frames_view(Seq::<RespFrame>::empty()) =~= Seq::empty());
                    assert(r@ == FrameVal::Array(flat_pairs(empty)));
                }
                r
            },
        }
    }
}

impl HMGet {
    /// HMGET: one reply item per requested field, in request order with
    /// duplicates kept, each the stored value or Null.
    #[verifier::loop_isolation(false)]
    pub fn execute(self, backend: &Backend) -> (r: RespFrame)
        ensures
            r@ == FrameVal::Array(hmget_items(backend.composites(), self.key@, self.fields@)),
    {
        let mut data: Vec<RespFrame> = Vec::new();
        let mut i: usize = 0;
        while i < self.fields.len()
            invariant
                i <= self.fields@.len(),
                data@.len() == i,
                forall|k: int|
                    0 <= k < i ==> frames_view(data@)[k] == value_or_null(
                        composite_lookup(backend.composites(), self.key@, self.fields@[k]@),
                    ),
                frames_view(data@).len() == i,
            decreases self.fields@.len() - i,
        {
            let ghost data0 = data@;
            match backend.hget(self.key.as_str(), self.fields[i].as_str()) {
                Some(v) => {
                    proof {
                        lemma_frames_view_push(data0, v);
                    }
                    data.push(v);
                },
                None => {
                    proof {
                        lemma_frames_view_push(data0, RespFrame::Null);
                    }
                    data.push(RespFrame::Null);
                },
            }
            i = i + 1;
        }
        let r = RespFrame::Array(RespArray::new(data));
        proof {
            assert(frames_view(data@) =~= hmget_items(
                backend.composites(),
                self.key@,
                self.fields@,
            ));
        }
        r
    }
}

impl SAdd {
    /// SADD: inserts the members as sentinel-valued fields and answers with
    /// the count of members that were newly inserted.
    pub fn execute(self, backend: &mut Backend) -> (r: RespFrame)
        requires
            self.members@.len() <= i64::MAX,
        ensures
            final(backend).composites() == sadd_update(
                old(backend).composites(),
                self.key@,
                member_views(self.members@),
            ),
            final(backend).strings() == old(backend).strings(),
            (r@ matches FrameVal::Integer(n) && n == new_member_count(
                inner_of(old(backend).composites(), self.key@),
                member_views(self.members@),
            )),
    {
        let added = backend.sadd(self.key.as_str(), self.members);
        RespFrame::Integer(added)
    }
}

impl SIsMember {
    /// SISMEMBER: Integer 1 when the member was ever added under the key,
    /// else Integer 0; nothing removes a member.
    pub fn execute(self, backend: &Backend) -> (r: RespFrame)
        ensures
            r@ == FrameVal::Integer(
                if inner_of(backend.composites(), self.key@).contains_key(self.member@) {
                    1i64
                } else {
                    0i64
                },
            ),
    {
        if backend.sismember(self.key.as_str(), self.member.as_str()) {
            RespFrame::Integer(1)
        } else {
            RespFrame::Integer(0)
        }
    }
}


/// The closed command model: one variant per supported operation, each
/// holding already-validated fields.
#[derive(Debug, PartialEq)]
pub enum Command {
    Get(Get),
    SetCmd(SetCmd),
    HGet(HGet),
    HSet(HSet),
    HGetAll(HGetAll),
    HMGet(HMGet),
    SAdd(SAdd),
    SIsMember(SIsMember),
}

/// The request is well-shaped for the command its first token names.
pub open spec fn dispatch_shape_ok(v: Seq<FrameVal>) -> bool {
    &&& v.len() > 0
    &&& v[0] is Bulk
    &&& {
        let n = bulk_of(v[0]);
        if n == get_name() {
            fixed_shape_ok(v, get_name(), 1, 0)
        } else if n == set_name() {
            fixed_shape_ok(v, set_name(), 1, 1)
        } else if n == hget_name() {
            fixed_shape_ok(v, hget_name(), 2, 0)
        } else if n == hset_name() {
            fixed_shape_ok(v, hset_name(), 2, 1)
        } else if n == hgetall_name() {
            fixed_shape_ok(v, hgetall_name(), 1, 0)
        } else if n == hmget_name() {
            vararg_shape_ok(v, hmget_name())
        } else if n == sadd_name() {
            vararg_shape_ok(v, sadd_name())
        } else if n == sismember_name() {
            fixed_shape_ok(v, sismember_name(), 2, 0)
        } else {
            false
        }
    }
}

/// Every textual argument of the named command decodes as UTF-8.
pub open spec fn dispatch_decode_ok(v: Seq<FrameVal>) -> bool {
    v.len() > 0 && v[0] is Bulk && {
        let n = bulk_of(v[0]);
        if n == get_name() {
            texts_decode_ok(v, 1)
        } else if n == set_name() {
            texts_decode_ok(v, 1)
        } else if n == hget_name() {
            texts_decode_ok(v, 2)
        } else if n == hset_name() {
            texts_decode_ok(v, 2)
        } else if n == hgetall_name() {
            texts_decode_ok(v, 1)
        } else if n == hmget_name() {
            texts_decode_ok(v, v.len() - 1)
        } else if n == sadd_name() {
            texts_decode_ok(v, v.len() - 1)
        } else if n == sismember_name() {
            texts_decode_ok(v, 2)
        } else {
            true
        }
    }
}

/// The parsed command for a well-shaped, well-encoded request: the variant
/// the name demands, with the decoded fields.
pub open spec fn command_parses(v: Seq<FrameVal>, c: Command) -> bool {
    match c {
        Command::Get(g) => get_ok(v, g),
        Command::SetCmd(sc) => set_ok(v, sc),
        Command::HGet(h) => hget_ok(v, h),
        Command::HSet(h) => hset_ok(v, h),
        Command::HGetAll(h) => hgetall_ok(v, h),
        Command::HMGet(h) => hmget_ok(v, h),
        Command::SAdd(sa) => sadd_ok(v, sa),
        Command::SIsMember(si) => sismember_ok(v, si),
    }
}

impl Command {
    /// Parses a request into its command: the first token picks the
    /// operation, the operation's own rules validate the rest. An unknown
    /// name, a bad shape or a non-textual first token is rejected without
    /// touching the store.
    pub fn try_from(value: RespArray) -> (r: Result<Command, CommandError>)
        ensures
            match r {
                Ok(c) => command_parses(value@, c),
                Err(CommandError::InvalidArgument(_)) => !dispatch_shape_ok(value@),
                Err(CommandError::DecodeError) => dispatch_shape_ok(value@)
                    && !dispatch_decode_ok(value@),
            },
    {
        proof {
            lemma_frames_view(value.0@);
        }
        if value.0.len() == 0 {
            return Err(CommandError::InvalidArgument("Invalid command".to_owned()));
        }
        let first = &value.0[0];
        proof {
            lemma_bulk_view(first);
        }
        let (is_get, is_set, is_hget, is_hset, is_hgetall, is_hmget, is_sadd, is_sismember) =
            match first {
            RespFrame::BulkString(b) => {
                let bs = b.as_slice();
                (
                    bytes_eq(bs, "get".as_bytes()),
                    bytes_eq(bs, "set".as_bytes()),
                    bytes_eq(bs, "hget".as_bytes()),
                    bytes_eq(bs, "hset".as_bytes()),
                    bytes_eq(bs, "hgetall".as_bytes()),
                    bytes_eq(bs, "hmget".as_bytes()),
                    bytes_eq(bs, "sadd".as_bytes()),
                    bytes_eq(bs, "sismember".as_bytes()),
                )
            },
            _ => {
                return Err(CommandError::InvalidArgument("Invalid command".to_owned()));
            },
        };
        if is_get {
            match Get::try_from(value) {
                Ok(c) => Ok(Command::Get(c)),
                Err(e) => Err(e),
            }
        } else if is_set {
            match SetCmd::try_from(value) {
                Ok(c) => Ok(Command::SetCmd(c)),
                Err(e) => Err(e),
            }
        } else if is_hget {
            match HGet::try_from(value) {
                Ok(c) => Ok(Command::HGet(c)),
                Err(e) => Err(e),
            }
        } else if is_hset {
            match HSet::try_from(value) {
                Ok(c) => Ok(Command::HSet(c)),
                Err(e) => Err(e),
            }
        } else if is_hgetall {
            match HGetAll::try_from(value) {
                Ok(c) => Ok(Command::HGetAll(c)),
                Err(e) => Err(e),
            }
        } else if is_hmget {
            match HMGet::try_from(value) {
                Ok(c) => Ok(Command::HMGet(c)),
                Err(e) => Err(e),
            }
        } else if is_sadd {
            match SAdd::try_from(value) {
                Ok(c) => Ok(Command::SAdd(c)),
                Err(e) => Err(e),
            }
        } else if is_sismember {
            match SIsMember::try_from(value) {
                Ok(c) => Ok(Command::SIsMember(c)),
                Err(e) => Err(e),
            }
        } else {
            Err(CommandError::InvalidArgument("Invalid command".to_owned()))
        }
    }

    /// Executes the command against the store: the one exhaustive mapping
    /// from command and store to reply frame. Reads leave the store as it
    /// is; each write mutates it exactly once, then replies.
    pub fn execute(self, backend: &mut Backend) -> (r: RespFrame)
        requires
            self matches Command::SAdd(c) ==> c.members@.len() <= i64::MAX,
        ensures
            match self {
                Command::Get(c) => *final(backend) == *old(backend) && r@ == value_or_null(
                    str_lookup(old(backend).strings(), c.key@),
                ),
                Command::SetCmd(c) => final(backend).strings() == old(backend).strings().insert(
                    c.key@,
                    c.value@,
                ) && final(backend).composites() == old(backend).composites() && r@ == ok_frame(),
                Command::HGet(c) => *final(backend) == *old(backend) && r@ == value_or_null(
                    composite_lookup(old(backend).composites(), c.key@, c.field@),
                ),
                Command::HSet(c) => final(backend).composites() == composite_update(
                    old(backend).composites(),
                    c.key@,
                    c.field@,
                    c.value@,
                ) && final(backend).strings() == old(backend).strings() && r@ == ok_frame(),
                Command::HGetAll(c) => *final(backend) == *old(backend) && hgetall_reply(
                    r@,
                    inner_of(old(backend).composites(), c.key@),
                    c.sort,
                ),
                Command::HMGet(c) => *final(backend) == *old(backend) && r@ == FrameVal::Array(
                    hmget_items(old(backend).composites(), c.key@, c.fields@),
                ),
                Command::SAdd(c) => final(backend).composites() == sadd_update(
                    old(backend).composites(),
                    c.key@,
                    member_views(c.members@),
                ) && final(backend).strings() == old(backend).strings() && (
                r@ matches FrameVal::Integer(n) && n == new_member_count(
                    inner_of(old(backend).composites(), c.key@),
                    member_views(c.members@),
                )),
                Command::SIsMember(c) => *final(backend) == *old(backend) && r@
                    == FrameVal::Integer(
                    if inner_of(old(backend).composites(), c.key@).contains_key(c.member@) {
                        1i64
                    } else {
                        0i64
                    },
                ),
            },
    {
        match self {
            Command::Get(c) => c.execute(&*backend),
            Command::SetCmd(c) => c.execute(backend),
            Command::HGet(c) => c.execute(&*backend),
            Command::HSet(c) => c.execute(backend),
            Command::HGetAll(c) => c.execute(&*backend),
            Command::HMGet(c) => c.execute(&*backend),
            Command::SAdd(c) => c.execute(backend),
            Command::SIsMember(c) => c.execute(&*backend),
        }
    }
}

} // verus!
