use std::str;

use lib::request::{get, put, Request};
use lib::view::{ContiguousView, ContiguousViewIt};

fn collect(mut it: ContiguousViewIt) -> Vec<u8> {
    let mut out = Vec::new();
    while let Some(b) = it.next() {
        out.push(b);
    }
    out
}

#[test]
fn test_test_get() {
    let rq = get("foo");
    println!("{:X?}", rq);
    let rq = Request::new(&rq);
    assert_eq!(3, rq.len());
    assert_eq!(0x00, rq.op());
    assert_eq!(3, rq.key_len());
    assert_eq!("foo", str::from_utf8(rq.key()).unwrap());
}

#[test]
fn test_test_put() {
    let rq = put("foo", "bar");
    println!("{:X?}", rq);
    let rq = Request::new(&rq);
    assert_eq!(8, rq.len());
    assert_eq!(0x01, rq.op());
    assert_eq!(3, rq.key_len());
    assert_eq!("foo", str::from_utf8(rq.key()).unwrap());
    assert_eq!("bar", str::from_utf8(rq.val()).unwrap());
}

#[test]
fn test_view_idx() {
    let s0 = "abc".as_bytes();
    let s1 = "xyz".as_bytes();
    let v = ContiguousView::new(vec![s0, s1]);
    println!("{:X?}", v);
    println!("{:X?}", v.index(0));
    println!("{:X?}", v.index(5));
    assert_eq!("a".as_bytes()[0], v.index(0));
    assert_eq!("b".as_bytes()[0], v.index(1));
    assert_eq!("c".as_bytes()[0], v.index(2));
    assert_eq!("x".as_bytes()[0], v.index(3));
    assert_eq!("y".as_bytes()[0], v.index(4));
    assert_eq!("z".as_bytes()[0], v.index(5));
}

#[test]
fn test_view_range() {
    let s0 = "abc".as_bytes();
    let s1 = "xyz".as_bytes();
    let v = ContiguousView::new(vec![s0, s1]);
    println!("{:X?}", v);
    assert_eq!("abc".as_bytes(), &collect(v.range(0, 3))[..]);
    assert_eq!("xyz".as_bytes(), &collect(v.range(3, 6))[..]);
    assert_eq!("ab".as_bytes(), &collect(v.range(0, 2))[..]);
    assert_eq!("yz".as_bytes(), &collect(v.range(4, 6))[..]);
    assert_eq!("cx".as_bytes(), &collect(v.range(2, 4))[..]);
    println!("{:X?}", collect(v.range(2, 4)));
    assert_eq!("abcxyz".as_bytes(), &collect(v.range(0, 6))[..]);
}

#[test]
fn test_view_iter() {
    let s0 = "abc".as_bytes();
    let s1 = "xyz".as_bytes();
    let v = ContiguousView::new(vec![s0, s1]);
    println!("{:X?}", v);
    let mut vec = Vec::new();
    let mut it = v.into_iter();
    while let Some(b) = it.next() {
        vec.push(b);
    }
    println!("{:?}", vec);
    assert_eq!("abcxyz".as_bytes(), &vec[..]);
}

#[test]
fn test_view_slice_iter() {
    let s0 = "abc".as_bytes();
    let s1 = "xyz".as_bytes();
    let v = ContiguousView::new(vec![s0, s1]);
    println!("{:X?}", v);
    let mut vec = Vec::new();
    let mut it = v.range(0, v.len());
    while let Some(b) = it.next() {
        vec.push(b);
    }
    println!("{:?}", vec);
    assert_eq!("abcxyz".as_bytes(), &vec[..]);
}

#[test]
fn test_view_len() {
    let s0 = "abc".as_bytes();
    let s1 = "xyz".as_bytes();
    let v = ContiguousView::new(vec![s0, s1]);
    assert_eq!(6, v.len());
}
