use lib::request::{get, int_to_bytes, put, Request};

#[test]
fn int_to_bytes_is_big_endian_modulo_65536() {
    assert_eq!(int_to_bytes(0), [0, 0]);
    assert_eq!(int_to_bytes(258), [1, 2]);
    assert_eq!(int_to_bytes(65535), [255, 255]);
    assert_eq!(int_to_bytes(65536 + 5), [0, 5]);
}

#[test]
fn get_builds_length_op_key() {
    assert_eq!(get("foo"), vec![0, 3, 0, b'f', b'o', b'o']);
    assert_eq!(get(""), vec![0, 0, 0]);
}

#[test]
fn put_builds_length_op_keylen_key_value() {
    assert_eq!(put("foo", "bar"), vec![0, 8, 1, 0, 3, b'f', b'o', b'o', b'b', b'a', b'r']);
    assert_eq!(put("", ""), vec![0, 2, 1, 0, 0]);
}

#[test]
fn request_of_a_long_key() {
    let key = "k".repeat(300);
    let bytes = get(&key);
    let rq = Request::new(&bytes);
    assert_eq!(rq.len(), 300);
    assert_eq!(rq.key_len(), 300);
    assert_eq!(rq.key(), key.as_bytes());
}

#[test]
fn put_request_with_empty_value() {
    let bytes = put("ab", "");
    let rq = Request::new(&bytes);
    assert_eq!(rq.len(), 4);
    assert_eq!(rq.key(), b"ab");
    assert_eq!(rq.val(), b"");
}

#[test]
fn get_key_stops_at_the_announced_length() {
    let mut bytes = get("foo");
    bytes.extend_from_slice(&get("bar"));
    let rq = Request::new(&bytes);
    assert_eq!(rq.len(), 3);
    assert_eq!(rq.key(), b"foo");
}

#[test]
fn put_value_stops_at_the_announced_length() {
    let mut bytes = put("foo", "bar");
    bytes.extend_from_slice(&[9, 9, 9]);
    let rq = Request::new(&bytes);
    assert_eq!(rq.len(), 8);
    assert_eq!(rq.key(), b"foo");
    assert_eq!(rq.val(), b"bar");
}
