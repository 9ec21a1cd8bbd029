//! A message as the server keeps it: its three header bytes and its body.

use vstd::prelude::*;
use vstd::slice::slice_subrange;

verus! {

/// The length that a two-byte big-endian prefix announces.
pub open spec fn be16(hi: u8, lo: u8) -> nat {
    (256 * hi + lo) as nat
}

/// A received message. A body sent to be stored (a put) holds one byte with the key's
/// length, then the key, then the value.
#[derive(Debug)]
pub struct RcPackage {
    pub header: [u8; 3],
    pub data: Vec<u8>,
    /// The body length announced by the first two header bytes.
    pub len: usize,
    /// The operation code: the third header byte.
    pub op: u8,
}

/// The body of a put is well formed when its key-length byte is present and the key
/// it announces lies inside the body.
pub open spec fn put_body_ok(body: Seq<u8>) -> bool {
    body.len() >= 1 && body[0] + 1 <= body.len()
}

/// The key of a put body: the bytes after the length byte, as many as it announces.
pub open spec fn put_key(body: Seq<u8>) -> Seq<u8> {
    body.subrange(1, body[0] + 1)
}

/// The value of a put body: everything after the key.
pub open spec fn put_value(body: Seq<u8>) -> Seq<u8> {
    body.subrange(body[0] + 1, body.len() as int)
}

impl RcPackage {
    /// The number of value bytes in the body.
    pub fn val_len(&self) -> (n: usize)
        requires
            put_body_ok(self.data@),
        ensures
            n == put_value(self.data@).len(),
    {
        let keylen = self.data[0] as usize;
        let val_len = self.data.len() - keylen - 1;
        val_len
    }

    /// The value bytes of the body.
    pub fn val(&self) -> (v: &[u8])
        requires
            put_body_ok(self.data@),
        ensures
            v@ == put_value(self.data@),
    {
        let keylen = self.data[0] as usize;
        slice_subrange(self.data.as_slice(), keylen + 1, self.data.len())
    }
}

/// Builds a message from its header and its body; the announced length and the
/// operation are read off the header.
pub fn build_pkg(header: [u8; 3], data: Vec<u8>) -> (pkg: RcPackage)
    ensures
        pkg.header == header,
        pkg.data@ == data@,
        pkg.len == be16(header[0], header[1]),
        pkg.op == header[2],
{
    let len = (256 * header[0] as u32 + header[1] as u32) as usize;
    RcPackage { header, data, len, op: header[2] }
}

/// A well-formed put body is its key-length byte, then a key of exactly that length,
/// then the value, with nothing left over.
pub proof fn lemma_put_body_parts(body: Seq<u8>)
    requires
        put_body_ok(body),
    ensures
        put_key(body).len() == body[0],
        body == seq![body[0]] + put_key(body) + put_value(body),
{
    assert(body =~= seq![body[0]] + put_key(body) + put_value(body));
}

/// The body built from a key shorter than 256 bytes and any value is well formed and
/// reads back as exactly that key and that value.
pub proof fn lemma_put_body_of(key: Seq<u8>, val: Seq<u8>)
    requires
        key.len() < 256,
    ensures
        put_body_ok(seq![key.len() as u8] + key + val),
        put_key(seq![key.len() as u8] + key + val) == key,
        put_value(seq![key.len() as u8] + key + val) == val,
{
    let b = seq![key.len() as u8] + key + val;
    assert(b[0] == key.len() as u8);
    assert(b.subrange(1, b[0] + 1) =~= key);
    assert(b.subrange(b[0] + 1, b.len() as int) =~= val);
}

} // verus!
