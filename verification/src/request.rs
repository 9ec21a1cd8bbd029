//! The request layout read by `Request`, and the builders of get and put requests.
//!
//! A request is two bytes of big-endian length, one operation byte, then as many bytes
//! of operation data as the length announces; bytes after those belong to no field. A
//! get's data is its key. A put's data is two bytes of big-endian key length, the key,
//! then the value.

use vstd::prelude::*;
use vstd::slice::{slice_subrange, slice_to_vec};
use vstd::string::StringSliceAdditionalSpecFns;
use crate::package::be16;

verus! {

/// The length a request announces.
pub open spec fn req_len(d: Seq<u8>) -> nat {
    be16(d[0], d[1])
}

/// The operation byte of a request.
pub open spec fn req_op(d: Seq<u8>) -> u8 {
    d[2]
}

/// The key length of a request: the announced length for a get, else the two bytes
/// after the operation byte.
pub open spec fn req_key_len(d: Seq<u8>) -> nat {
    if d[2] == 0 {
        be16(d[0], d[1])
    } else {
        be16(d[3], d[4])
    }
}

/// The key of a request: for a get, the announced length's worth of bytes after the
/// operation byte; else the key length's worth of bytes after the key length.
pub open spec fn req_key(d: Seq<u8>) -> Seq<u8> {
    if d[2] == 0 {
        d.subrange(3, 3 + req_len(d) as int)
    } else {
        d.subrange(5, 5 + req_key_len(d) as int)
    }
}

/// The value of a request: the bytes after a put's key up to the end of the announced
/// length.
pub open spec fn req_val(d: Seq<u8>) -> Seq<u8> {
    d.subrange(5 + req_key_len(d) as int, 3 + req_len(d) as int)
}

/// The bytes that hold the key length are present.
pub open spec fn key_len_ok(d: Seq<u8>) -> bool {
    d.len() >= 3 && (d[2] != 0 ==> d.len() >= 5)
}

/// The key lies inside the request.
pub open spec fn key_ok(d: Seq<u8>) -> bool {
    &&& key_len_ok(d)
    &&& d[2] == 0 ==> 3 + req_len(d) <= d.len()
    &&& d[2] != 0 ==> 5 + req_key_len(d) <= d.len()
}

/// The value lies inside the request: it starts after the key and ends where the
/// announced length ends.
pub open spec fn val_ok(d: Seq<u8>) -> bool {
    key_len_ok(d) && 5 + req_key_len(d) <= 3 + req_len(d) <= d.len()
}

/// A request read in place from a byte slice.
pub struct Request<'a> {
    data: &'a [u8],
}

impl<'a> View for Request<'a> {
    type V = Seq<u8>;

    closed spec fn view(&self) -> Seq<u8> {
        self.data@
    }
}

impl<'a> Request<'a> {
    pub fn new(data: &'a [u8]) -> (r: Request<'a>)
        ensures
            r@ == data@,
    {
        Request { data }
    }

    /// The announced length.
    pub fn len(&self) -> (n: usize)
        requires
            self@.len() >= 2,
        ensures
            n == req_len(self@),
    {
        (256 * self.data[0] as u32 + self.data[1] as u32) as usize
    }

    /// The operation byte.
    pub fn op(&self) -> (op: u8)
        requires
            self@.len() >= 3,
        ensures
            op == req_op(self@),
    {
        self.data[2]
    }

    /// The key length.
    pub fn key_len(&self) -> (n: usize)
        requires
            key_len_ok(self@),
        ensures
            n == req_key_len(self@),
    {
        if self.op() == 0x00 {
            self.len()
        } else {
            (256 * self.data[3] as u32 + self.data[4] as u32) as usize
        }
    }

    /// The key.
    pub fn key(&self) -> (k: &'a [u8])
        requires
            key_ok(self@),
        ensures
            k@ == req_key(self@),
    {
        if self.op() == 0x00 {
            let len = self.len();
            slice_subrange(self.data, 3, len + 3)
        } else {
            let keylen = self.key_len();
            slice_subrange(self.data, 5, keylen + 5)
        }
    }

    /// The value.
    pub fn val(&self) -> (v: &'a [u8])
        requires
            val_ok(self@),
        ensures
            v@ == req_val(self@),
    {
        let keylen = self.key_len();
        let len = self.len();
        slice_subrange(self.data, keylen + 5, len + 3)
    }
}

/// The two bytes, big-endian, of a length taken modulo 65536.
pub open spec fn be16_bytes(n: nat) -> Seq<u8> {
    seq![((n / 256) % 256) as u8, (n % 256) as u8]
}

/// The get request for `key`.
pub open spec fn get_request(key: Seq<u8>) -> Seq<u8> {
    be16_bytes(key.len()) + seq![0u8] + key
}

/// The data of a put request: the key length, the key, the value.
pub open spec fn put_data(key: Seq<u8>, val: Seq<u8>) -> Seq<u8> {
    be16_bytes(key.len()) + key + val
}

/// The put request for `key` and `val`.
pub open spec fn put_request(key: Seq<u8>, val: Seq<u8>) -> Seq<u8> {
    be16_bytes(put_data(key, val).len()) + seq![1u8] + put_data(key, val)
}

/// The two bytes, big-endian, of `val` taken modulo 65536.
pub fn int_to_bytes(val: usize) -> (b: [u8; 2])
    ensures
        b@ == be16_bytes(val as nat),
{
    let b = [(val / 256) as u8, val as u8];
    assert((val / 256) as u8 == ((val / 256) % 256) as u8) by (bit_vector);
    assert(val as u8 == (val % 256) as u8) by (bit_vector);
    assert(b@ =~= be16_bytes(val as nat));
    b
}

/// The bytes of a length prefix, then of `tail`.
fn prefixed(len: usize, tail: &[u8]) -> (v: Vec<u8>)
    ensures
        v@ == be16_bytes(len as nat) + tail@,
{
    let b = int_to_bytes(len);
    let mut v: Vec<u8> = Vec::new();
    v.push(b[0]);
    v.push(b[1]);
    let mut rest = slice_to_vec(tail);
    v.append(&mut rest);
    assert(v@ =~= be16_bytes(len as nat) + tail@);
    v
}

/// Builds the get request for `key`.
pub fn get(key: &str) -> (req: Vec<u8>)
    ensures
        req@ == get_request(key.spec_bytes()),
{
    let key_bytes = key.as_bytes();
    let b = int_to_bytes(key_bytes.len());
    let mut vec: Vec<u8> = Vec::new();
    vec.push(b[0]);
    vec.push(b[1]);
    vec.push(0x00);
    let mut k = slice_to_vec(key_bytes);
    vec.append(&mut k);
    assert(vec@ =~= get_request(key.spec_bytes()));
    vec
}

/// Builds the put request for `key` and `val`.
pub fn put(key: &str, val: &str) -> (req: Vec<u8>)
    ensures
        req@ == put_request(key.spec_bytes(), val.spec_bytes()),
{
    let key_bytes = key.as_bytes();
    let val_bytes = val.as_bytes();
    let mut data = prefixed(key_bytes.len(), key_bytes);
    let mut v = slice_to_vec(val_bytes);
    data.append(&mut v);
    let b = int_to_bytes(data.len());
    let mut vec: Vec<u8> = Vec::new();
    vec.push(b[0]);
    vec.push(b[1]);
    vec.push(0x01);
    vec.append(&mut data);
    assert(vec@ =~= put_request(key.spec_bytes(), val.spec_bytes()));
    vec
}

} // verus!

verus! {

/// A length below 65536 reads back from its two bytes.
proof fn lemma_be16_bytes(n: nat)
    requires
        n < 65536,
    ensures
        be16(be16_bytes(n)[0], be16_bytes(n)[1]) == n,
{
    assert(n / 256 < 256 && (n / 256) % 256 == n / 256 && 256 * (n / 256) + n % 256 == n)
        by (nonlinear_arith)
        requires
            n < 65536,
    ;
}

/// A get request built for a key shorter than 65536 bytes reads back as a get of that
/// key, announcing the key's length.
pub proof fn lemma_get_request_reads_back(key: Seq<u8>)
    requires
        key.len() < 65536,
    ensures
        key_ok(get_request(key)),
        req_op(get_request(key)) == 0,
        req_len(get_request(key)) == key.len(),
        req_key_len(get_request(key)) == key.len(),
        req_key(get_request(key)) == key,
{
    let d = get_request(key);
    lemma_be16_bytes(key.len());
    assert(d.subrange(3, 3 + key.len() as int) =~= key);
}

/// A put request whose data (the two key-length bytes, the key and the value) is
/// shorter than 65536 bytes reads back as a put of `val` under `key`, announcing the
/// data's length.
pub proof fn lemma_put_request_reads_back(key: Seq<u8>, val: Seq<u8>)
    requires
        2 + key.len() + val.len() < 65536,
    ensures
        val_ok(put_request(key, val)),
        key_ok(put_request(key, val)),
        req_op(put_request(key, val)) == 1,
        req_len(put_request(key, val)) == 2 + key.len() + val.len(),
        req_key_len(put_request(key, val)) == key.len(),
        req_key(put_request(key, val)) == key,
        req_val(put_request(key, val)) == val,
{
    let d = put_request(key, val);
    lemma_be16_bytes(key.len());
    lemma_be16_bytes(put_data(key, val).len());
    assert(d[3] == be16_bytes(key.len())[0] && d[4] == be16_bytes(key.len())[1]);
    assert(d.subrange(5, 5 + key.len() as int) =~= key);
    assert(d.subrange(5 + key.len() as int, d.len() as int) =~= val);
}

} // verus!
