use lib::package::build_pkg;
use lib::store::{read_header, ConnError, Store};

fn put_body(key: &[u8], val: &[u8]) -> Vec<u8> {
    let mut body = vec![key.len() as u8];
    body.extend_from_slice(key);
    body.extend_from_slice(val);
    body
}

#[test]
fn get_of_missing_key_answers_nothing() {
    let mut store = Store::new();
    let reply = store.handle_conn([0, 3, 0x00], b"foo".to_vec());
    assert_eq!(reply, Ok(Vec::new()));
}

#[test]
fn get_after_put_answers_the_value() {
    let mut store = Store::new();
    let reply = store.handle_conn([0, 7, 0x01], put_body(b"foo", b"bar"));
    assert_eq!(reply, Ok(vec![0x00]));
    let reply = store.handle_conn([0, 3, 0x00], b"foo".to_vec());
    assert_eq!(reply, Ok(vec![3, b'b', b'a', b'r']));
}

#[test]
fn later_put_replaces_earlier() {
    let mut store = Store::new();
    store.handle_conn([0, 7, 0x01], put_body(b"foo", b"bar")).unwrap();
    store.handle_conn([0, 9, 0x01], put_body(b"foo", b"hello")).unwrap();
    store.handle_conn([0, 6, 0x01], put_body(b"zz", b"top")).unwrap();
    assert_eq!(store.handle_conn([0, 3, 0x00], b"foo".to_vec()), Ok(b"\x05hello".to_vec()));
    assert_eq!(store.handle_conn([0, 2, 0x00], b"zz".to_vec()), Ok(b"\x03top".to_vec()));
    assert_eq!(store.handle_conn([0, 1, 0x00], b"z".to_vec()), Ok(Vec::new()));
}

#[test]
fn empty_key_and_empty_value() {
    let mut store = Store::new();
    assert_eq!(store.handle_conn([0, 1, 0x01], vec![0]), Ok(vec![0]));
    assert_eq!(store.handle_conn([0, 0, 0x00], Vec::new()), Ok(vec![0]));
}

#[test]
fn long_value_length_is_truncated_to_a_byte() {
    let mut store = Store::new();
    let val = vec![7u8; 300];
    store.handle_conn([1, 48, 0x01], put_body(b"k", &val)).unwrap();
    let reply = store.handle_conn([0, 1, 0x00], b"k".to_vec()).unwrap();
    assert_eq!(reply.len(), 301);
    assert_eq!(reply[0], 44);
    assert!(reply[1..].iter().all(|b| *b == 7));
}

#[test]
fn unknown_operation_is_refused() {
    let mut store = Store::new();
    assert_eq!(store.handle_conn([0, 3, 0x02], b"foo".to_vec()), Err(ConnError::InvalidOp(2)));
    assert_eq!(store.handle_conn([0, 3, 0xff], b"foo".to_vec()), Err(ConnError::InvalidOp(0xff)));
}

#[test]
fn handle_put_and_handle_get_directly() {
    let mut store = Store::new();
    let reply = store.handle_put(build_pkg([0, 5, 1], put_body(b"ab", b"cd")));
    assert_eq!(reply, vec![0]);
    let reply = store.handle_get(build_pkg([0, 2, 0], b"ab".to_vec()));
    assert_eq!(reply, vec![2, b'c', b'd']);
}

#[test]
fn header_outcomes() {
    assert_eq!(read_header([0, 0, 0], 0), Err(ConnError::Aborted));
    assert_eq!(read_header([1, 2, 0], 1), Err(ConnError::Incomplete));
    assert_eq!(read_header([1, 2, 0], 2), Err(ConnError::Incomplete));
    assert_eq!(read_header([1, 2, 0], 3), Ok(258));
    assert_eq!(read_header([0xff, 0xff, 1], 3), Ok(65535));
}

#[test]
fn gets_and_refused_messages_leave_the_store_alone() {
    let mut store = Store::new();
    store.handle_conn([0, 5, 0x01], put_body(b"a", b"xyz")).unwrap();
    store.handle_conn([0, 1, 0x00], b"a".to_vec()).unwrap();
    store.handle_conn([0, 1, 0x00], b"b".to_vec()).unwrap();
    assert!(store.handle_conn([0, 5, 0x07], put_body(b"a", b"qqq")).is_err());
    assert_eq!(store.handle_conn([0, 1, 0x00], b"a".to_vec()), Ok(b"\x03xyz".to_vec()));
}

#[test]
fn contains_key_tells_replacement_from_insertion() {
    let mut store = Store::new();
    assert!(!store.contains_key(b"foo"));
    store.handle_conn([0, 7, 0x01], put_body(b"foo", b"bar")).unwrap();
    assert!(store.contains_key(b"foo"));
    assert!(!store.contains_key(b"fo"));
}

#[test]
fn get_answers_the_last_put_of_its_key() {
    let mut store = Store::new();
    store.handle_conn([0, 5, 0x01], put_body(b"k", b"one")).unwrap();
    store.handle_conn([0, 5, 0x01], put_body(b"k", b"two")).unwrap();
    store.handle_conn([0, 5, 0x01], put_body(b"j", b"xxx")).unwrap();
    store.handle_conn([0, 1, 0x00], b"k".to_vec()).unwrap();
    assert!(store.handle_conn([0, 5, 0x05], put_body(b"k", b"bad")).is_err());
    assert_eq!(store.handle_conn([0, 1, 0x00], b"k".to_vec()), Ok(b"\x03two".to_vec()));
}
