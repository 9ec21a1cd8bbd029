use lib::package::build_pkg;
use lib::text::desc;

#[test]
fn build_pkg_reads_the_header() {
    let pkg = build_pkg([2, 3, 1], vec![1, 9, 8, 7]);
    assert_eq!(pkg.len, 515);
    assert_eq!(pkg.op, 1);
    assert_eq!(pkg.header, [2, 3, 1]);
    assert_eq!(pkg.data, vec![1, 9, 8, 7]);
}

#[test]
fn value_of_a_put_body() {
    let pkg = build_pkg([0, 4, 1], vec![1, 9, 8, 7]);
    assert_eq!(pkg.val(), &[8, 7]);
    assert_eq!(pkg.val_len(), 2);
    let pkg = build_pkg([0, 3, 1], vec![2, 9, 8]);
    assert_eq!(pkg.val(), &[] as &[u8]);
    assert_eq!(pkg.val_len(), 0);
}

#[test]
fn desc_of_text_is_the_text() {
    assert_eq!(desc(b"foo"), "foo");
    assert_eq!(desc("h\u{e9}".as_bytes()), "h\u{e9}");
    assert_eq!(desc(b""), "");
}

#[test]
fn desc_of_other_bytes_is_a_hex_listing() {
    assert_eq!(desc(&[0xff, 0x00, 0x1a]), "[FF, 0, 1A]");
    assert_eq!(desc(&[0xc3]), "[C3]");
}
