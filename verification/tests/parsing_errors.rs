//! Rejection of malformed requests: wrong name, wrong count, wrong argument
//! types, and bytes that are not UTF-8. A failed parse never touches a store.
use resp_store::cmd::{Command, CommandError, HGet, HMGet, HSet, SAdd};
use resp_store::frame::{RespArray, RespFrame};

fn bulk(s: &str) -> RespFrame {
    RespFrame::BulkString(s.as_bytes().to_vec())
}

fn array(frames: Vec<RespFrame>) -> RespArray {
    RespArray::new(frames)
}

#[test]
fn hget_missing_field_is_invalid() {
    let request = array(vec![bulk("hget"), bulk("map")]);
    let result = HGet::try_from(request);
    assert!(matches!(result, Err(CommandError::InvalidArgument(_))));
}

#[test]
fn hset_non_bulk_key_is_invalid() {
    let request = array(vec![
        bulk("hset"),
        RespFrame::Integer(7),
        bulk("field"),
        bulk("value"),
    ]);
    let result = HSet::try_from(request);
    assert!(matches!(result, Err(CommandError::InvalidArgument(_))));
}

#[test]
fn hset_non_bulk_value_is_accepted() {
    let request = array(vec![bulk("hset"), bulk("map"), bulk("field"), RespFrame::Integer(7)]);
    let result = HSet::try_from(request).unwrap();
    assert_eq!(result.key, "map");
    assert_eq!(result.field, "field");
    assert_eq!(result.value, RespFrame::Integer(7));
}

#[test]
fn hget_wrong_name_is_invalid() {
    let request = array(vec![bulk("hgot"), bulk("map"), bulk("hello")]);
    let result = HGet::try_from(request);
    assert!(matches!(result, Err(CommandError::InvalidArgument(_))));
}

#[test]
fn hget_extra_argument_is_invalid() {
    let request = array(vec![bulk("hget"), bulk("map"), bulk("hello"), bulk("extra")]);
    let result = HGet::try_from(request);
    assert!(matches!(result, Err(CommandError::InvalidArgument(_))));
}

#[test]
fn hmget_without_fields_is_invalid() {
    let request = array(vec![bulk("hmget"), bulk("map")]);
    let result = HMGet::try_from(request);
    assert!(matches!(result, Err(CommandError::InvalidArgument(_))));
}

#[test]
fn sadd_without_members_is_invalid() {
    let request = array(vec![bulk("sadd"), bulk("set")]);
    let result = SAdd::try_from(request);
    assert!(matches!(result, Err(CommandError::InvalidArgument(_))));
}

#[test]
fn sadd_non_bulk_member_is_invalid() {
    let request = array(vec![bulk("sadd"), bulk("set"), RespFrame::Null]);
    let result = SAdd::try_from(request);
    assert!(matches!(result, Err(CommandError::InvalidArgument(_))));
}

#[test]
fn invalid_utf8_key_is_a_decode_error() {
    let request = array(vec![
        bulk("hget"),
        RespFrame::BulkString(vec![0xff, 0xfe]),
        bulk("hello"),
    ]);
    let result = HGet::try_from(request);
    assert_eq!(result, Err(CommandError::DecodeError));
}

#[test]
fn invalid_utf8_through_dispatch_is_a_decode_error() {
    let request = array(vec![bulk("get"), RespFrame::BulkString(vec![0x80])]);
    let result = Command::try_from(request);
    assert_eq!(result, Err(CommandError::DecodeError));
}

#[test]
fn empty_request_is_invalid() {
    let request = array(vec![]);
    let result = Command::try_from(request);
    assert!(matches!(result, Err(CommandError::InvalidArgument(_))));
}

#[test]
fn non_bulk_name_token_is_invalid() {
    let request = array(vec![RespFrame::Integer(1), bulk("map")]);
    let result = Command::try_from(request);
    assert!(matches!(result, Err(CommandError::InvalidArgument(_))));
}
