//! Parsing and execution of the command families, driven through typed
//! frames as the codec collaborator would hand them over.
use resp_store::backend::Backend;
use resp_store::cmd::{
    Command, CommandError, Get, HGet, HGetAll, HMGet, HSet, SAdd, SIsMember, SetCmd,
};
use resp_store::frame::{resp_ok, RespArray, RespFrame};

fn bulk(s: &str) -> RespFrame {
    RespFrame::BulkString(s.as_bytes().to_vec())
}

fn array(frames: Vec<RespFrame>) -> RespArray {
    RespArray::new(frames)
}

#[test]
fn test_hget_from_resp_array() {
    let frame = array(vec![bulk("hget"), bulk("map"), bulk("hello")]);
    let result = HGet::try_from(frame).unwrap();
    assert_eq!(result.key, "map");
    assert_eq!(result.field, "hello");
}

#[test]
fn test_hgetall_from_resp_array() {
    let frame = array(vec![bulk("hgetall"), bulk("map")]);
    let result = HGetAll::try_from(frame).unwrap();
    assert_eq!(result.key, "map");
}

#[test]
fn test_hset_from_resp_array() {
    let frame = array(vec![bulk("hset"), bulk("map"), bulk("hello"), bulk("world")]);
    let result = HSet::try_from(frame).unwrap();
    assert_eq!(result.key, "map");
    assert_eq!(result.field, "hello");
    assert_eq!(result.value, RespFrame::BulkString(b"world".to_vec()));
}

#[test]
fn test_sadd_from_resp_array() {
    let frame = array(vec![bulk("sadd"), bulk("set"), bulk("hello")]);
    let result = SAdd::try_from(frame).unwrap();
    assert_eq!(result.key, "set");
    assert_eq!(result.members, vec!["hello"]);
}

#[test]
fn test_sismember_from_resp_array() {
    let frame = array(vec![bulk("sismember"), bulk("set"), bulk("hello")]);
    let result = SIsMember::try_from(frame).unwrap();
    assert_eq!(result.key, "set");
    assert_eq!(result.member, "hello");
}

#[test]
fn tset_hmget_from_resp_array() {
    let frame = array(vec![bulk("hmget"), bulk("map"), bulk("hello"), bulk("world")]);
    let result = HMGet::try_from(frame).unwrap();
    assert_eq!(result.key, "map");
    assert_eq!(result.fields, vec!["hello", "world"]);
}

#[test]
fn test_hset_hget_hgetall_commands() {
    let mut backend = Backend::new();
    let cmd = HSet {
        key: "map".to_string(),
        field: "hello".to_string(),
        value: RespFrame::BulkString(b"world".to_vec()),
    };
    let result = cmd.execute(&mut backend);
    assert_eq!(result, resp_ok());

    let cmd = HSet {
        key: "map".to_string(),
        field: "hello1".to_string(),
        value: RespFrame::BulkString(b"world1".to_vec()),
    };
    cmd.execute(&mut backend);

    let cmd = HGet {
        key: "map".to_string(),
        field: "hello".to_string(),
    };
    let result = cmd.execute(&backend);
    assert_eq!(result, RespFrame::BulkString(b"world".to_vec()));

    let cmd = HGetAll {
        key: "map".to_string(),
        sort: true,
    };
    let result = cmd.execute(&backend);

    let expected = array(vec![bulk("hello"), bulk("world"), bulk("hello1"), bulk("world1")]);
    assert_eq!(result, RespFrame::Array(expected));
}

#[test]
fn test_hset_hmget_commands() {
    let mut backend = Backend::new();
    let cmd = HSet {
        key: "map".to_string(),
        field: "hello".to_string(),
        value: RespFrame::BulkString(b"world".to_vec()),
    };
    let result = cmd.execute(&mut backend);
    assert_eq!(result, resp_ok());

    let cmd = HSet {
        key: "map".to_string(),
        field: "hello1".to_string(),
        value: RespFrame::BulkString(b"world1".to_vec()),
    };
    cmd.execute(&mut backend);

    let cmd = HMGet {
        key: "map".to_string(),
        fields: vec!["hello".to_string(), "hello1".to_string()],
    };
    let result = cmd.execute(&backend);

    let expected = array(vec![
        RespFrame::BulkString(b"world".to_vec()),
        RespFrame::BulkString(b"world1".to_vec()),
    ]);
    assert_eq!(result, RespFrame::Array(expected));
}

#[test]
fn test_sadd_commands() {
    let mut backend = Backend::new();
    let cmd = SAdd {
        key: "set".to_string(),
        members: vec!["hello".to_string()],
    };
    let result = cmd.execute(&mut backend);
    assert_eq!(result, RespFrame::Integer(1));

    let cmd = SAdd {
        key: "set".to_string(),
        members: vec!["world".to_string()],
    };
    let result = cmd.execute(&mut backend);
    assert_eq!(result, RespFrame::Integer(1));

    let cmd = SAdd {
        key: "set".to_string(),
        members: vec!["hello".to_string(), "world".to_string()],
    };
    let result = cmd.execute(&mut backend);
    assert_eq!(result, RespFrame::Integer(0));
}

#[test]
fn test_sismember_commands() {
    let mut backend = Backend::new();
    let cmd = SAdd {
        key: "set".to_string(),
        members: vec!["hello".to_string()],
    };
    cmd.execute(&mut backend);

    let cmd = SIsMember {
        key: "set".to_string(),
        member: "hello".to_string(),
    };
    let result = cmd.execute(&backend);
    assert_eq!(result, RespFrame::Integer(1));

    let cmd = SIsMember {
        key: "set".to_string(),
        member: "world".to_string(),
    };
    let result = cmd.execute(&backend);
    assert_eq!(result, RespFrame::Integer(0));
}

#[test]
fn set_then_get_returns_value() {
    let mut backend = Backend::new();
    let cmd = SetCmd {
        key: "greeting".to_string(),
        value: bulk("hi"),
    };
    assert_eq!(cmd.execute(&mut backend), resp_ok());

    let cmd = Get {
        key: "greeting".to_string(),
    };
    assert_eq!(cmd.execute(&backend), bulk("hi"));
}

#[test]
fn get_unwritten_key_returns_null() {
    let backend = Backend::new();
    let cmd = Get {
        key: "nothing".to_string(),
    };
    assert_eq!(cmd.execute(&backend), RespFrame::Null);
}

#[test]
fn set_last_writer_wins() {
    let mut backend = Backend::new();
    SetCmd { key: "k".to_string(), value: bulk("first") }.execute(&mut backend);
    SetCmd { key: "k".to_string(), value: bulk("second") }.execute(&mut backend);
    assert_eq!(Get { key: "k".to_string() }.execute(&backend), bulk("second"));
}

#[test]
fn string_and_composite_tables_are_separate() {
    let mut backend = Backend::new();
    SetCmd { key: "k".to_string(), value: bulk("scalar") }.execute(&mut backend);
    HSet {
        key: "k".to_string(),
        field: "f".to_string(),
        value: bulk("inner"),
    }.execute(&mut backend);
    assert_eq!(Get { key: "k".to_string() }.execute(&backend), bulk("scalar"));
    assert_eq!(
        HGet { key: "k".to_string(), field: "f".to_string() }.execute(&backend),
        bulk("inner"),
    );
}

#[test]
fn hget_missing_key_and_missing_field_both_null() {
    let mut backend = Backend::new();
    let missing_key = HGet { key: "nope".to_string(), field: "f".to_string() };
    assert_eq!(missing_key.execute(&backend), RespFrame::Null);

    HSet {
        key: "map".to_string(),
        field: "present".to_string(),
        value: bulk("v"),
    }.execute(&mut backend);
    let missing_field = HGet { key: "map".to_string(), field: "absent".to_string() };
    assert_eq!(missing_field.execute(&backend), RespFrame::Null);
}

#[test]
fn hgetall_missing_key_is_empty_array() {
    let backend = Backend::new();
    let cmd = HGetAll { key: "none".to_string(), sort: true };
    assert_eq!(cmd.execute(&backend), RespFrame::Array(array(vec![])));
}

#[test]
fn hgetall_sorts_fields_by_bytes() {
    let mut backend = Backend::new();
    HSet { key: "m".to_string(), field: "b".to_string(), value: bulk("2") }.execute(&mut backend);
    HSet { key: "m".to_string(), field: "a".to_string(), value: bulk("1") }.execute(&mut backend);
    HSet { key: "m".to_string(), field: "c".to_string(), value: bulk("3") }.execute(&mut backend);
    let result = HGetAll { key: "m".to_string(), sort: true }.execute(&backend);
    let expected = array(vec![bulk("a"), bulk("1"), bulk("b"), bulk("2"), bulk("c"), bulk("3")]);
    assert_eq!(result, RespFrame::Array(expected));
}

#[test]
fn hmget_keeps_order_and_length() {
    let mut backend = Backend::new();
    HSet { key: "m".to_string(), field: "f1".to_string(), value: bulk("v1") }.execute(&mut backend);
    let cmd = HMGet {
        key: "m".to_string(),
        fields: vec!["missing".to_string(), "f1".to_string(), "f1".to_string()],
    };
    let result = cmd.execute(&backend);
    let expected = array(vec![RespFrame::Null, bulk("v1"), bulk("v1")]);
    assert_eq!(result, RespFrame::Array(expected));
}

#[test]
fn hmget_missing_key_is_all_nulls() {
    let backend = Backend::new();
    let cmd = HMGet {
        key: "none".to_string(),
        fields: vec!["f1".to_string(), "f2".to_string()],
    };
    let result = cmd.execute(&backend);
    let expected = array(vec![RespFrame::Null, RespFrame::Null]);
    assert_eq!(result, RespFrame::Array(expected));
}

#[test]
fn sadd_overwrites_hash_field_with_sentinel() {
    let mut backend = Backend::new();
    HSet { key: "k".to_string(), field: "f".to_string(), value: bulk("v") }.execute(&mut backend);
    let added = SAdd { key: "k".to_string(), members: vec!["f".to_string()] }.execute(&mut backend);
    assert_eq!(added, RespFrame::Integer(0));
    let got = HGet { key: "k".to_string(), field: "f".to_string() }.execute(&backend);
    assert_eq!(got, RespFrame::Null);
}

#[test]
fn end_to_end_hset_hget_hgetall() {
    let mut backend = Backend::new();
    let request = array(vec![bulk("hset"), bulk("map"), bulk("hello"), bulk("world")]);
    let cmd = Command::try_from(request).unwrap();
    assert_eq!(cmd.execute(&mut backend), resp_ok());

    let request = array(vec![bulk("hget"), bulk("map"), bulk("hello")]);
    let cmd = Command::try_from(request).unwrap();
    assert_eq!(cmd.execute(&mut backend), bulk("world"));

    let request = array(vec![bulk("hgetall"), bulk("map")]);
    let cmd = Command::try_from(request).unwrap();
    let cmd = match cmd {
        Command::HGetAll(inner) => Command::HGetAll(HGetAll { key: inner.key, sort: true }),
        other => other,
    };
    let result = cmd.execute(&mut backend);
    let expected = array(vec![bulk("hello"), bulk("world")]);
    assert_eq!(result, RespFrame::Array(expected));
}

#[test]
fn unknown_command_name_is_invalid() {
    let request = array(vec![bulk("flushall"), bulk("now")]);
    let result = Command::try_from(request);
    assert!(matches!(result, Err(CommandError::InvalidArgument(_))));
}

#[test]
fn command_names_are_case_sensitive() {
    let request = array(vec![bulk("HGET"), bulk("map"), bulk("hello")]);
    let result = Command::try_from(request);
    assert!(matches!(result, Err(CommandError::InvalidArgument(_))));
}
