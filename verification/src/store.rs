//! The store behind the server: keys and the put bodies that were stored under them,
//! and the answer the server gives to each message.

use vstd::prelude::*;
use vstd::slice::{slice_subrange, slice_to_vec};
use crate::package::{
    RcPackage, be16, build_pkg, lemma_put_body_of, put_body_ok, put_key, put_value,
};

verus! {

/// Why a connection's message got no answer.
#[derive(Debug, PartialEq, Eq, Structural)]
pub enum ConnError {
    /// No header byte came: the peer closed the connection.
    Aborted,
    /// Fewer than three header bytes came.
    Incomplete,
    /// The operation byte names no known operation.
    InvalidOp(u8),
}

/// The operation code of a get.
pub const OP_GET: u8 = 0x00;
/// The operation code of a put.
pub const OP_PUT: u8 = 0x01;

/// What a get of `key` answers: nothing when the key was never stored; else the value's
/// length, truncated to one byte, then the value.
pub open spec fn get_reply(m: Map<Seq<u8>, Seq<u8>>, key: Seq<u8>) -> Seq<u8> {
    if m.contains_key(key) {
        let v = put_value(m[key]);
        seq![(v.len() % 256) as u8] + v
    } else {
        Seq::empty()
    }
}

/// The answer to a put.
pub open spec fn put_reply() -> Seq<u8> {
    seq![0u8]
}

/// The store after, and the answer to, a message with operation `op` and body `body`.
pub open spec fn step(m: Map<Seq<u8>, Seq<u8>>, op: u8, body: Seq<u8>) -> (
    Map<Seq<u8>, Seq<u8>>,
    Result<Seq<u8>, ConnError>,
) {
    if op == OP_GET {
        (m, Ok(get_reply(m, body)))
    } else if op == OP_PUT {
        (m.insert(put_key(body), body), Ok(put_reply()))
    } else {
        (m, Err(ConnError::InvalidOp(op)))
    }
}

/// What a header read of `bytes_read` bytes into `buf` leads to: the length of the body to
/// read next, or the error that ends the connection.
pub open spec fn header_outcome(buf: Seq<u8>, bytes_read: nat) -> Result<nat, ConnError> {
    if bytes_read == 0 {
        Err(ConnError::Aborted)
    } else if bytes_read < 3 {
        Err(ConnError::Incomplete)
    } else {
        Ok(be16(buf[0], buf[1]))
    }
}

/// Decides on a message header of which `bytes_read` bytes arrived: the body length it
/// announces when all three came, else why the connection ends.
pub fn read_header(buf: [u8; 3], bytes_read: usize) -> (res: Result<usize, ConnError>)
    requires
        bytes_read <= 3,
    ensures
        match (res, header_outcome(buf@, bytes_read as nat)) {
            (Ok(n), Ok(m)) => n == m,
            (Err(e), Err(f)) => e == f,
            _ => false,
        },
{
    if bytes_read == 0 {
        Err(ConnError::Aborted)
    } else if bytes_read < 3 {
        Err(ConnError::Incomplete)
    } else {
        Ok((256 * buf[0] as u32 + buf[1] as u32) as usize)
    }
}

/// Whether two byte strings are equal.
fn bytes_equal(a: &[u8], b: &[u8]) -> (eq: bool)
    ensures
        eq == (a@ == b@),
{
    if a.len() != b.len() {
        return false;
    }
    let mut i: usize = 0;
    while i < a.len()
        invariant
            a@.len() == b@.len(),
            i <= a@.len(),
            forall|j: int| 0 <= j < i ==> a@[j] == b@[j],
        decreases a@.len() - i,
    {
        if a[i] != b[i] {
            return false;
        }
        i = i + 1;
    }
    assert(a@ =~= b@);
    true
}

/// The keys and put bodies the server has stored, each key once.
pub struct Store {
    entries: Vec<(Vec<u8>, RcPackage)>,
    contents: Ghost<Map<Seq<u8>, Seq<u8>>>,
}

impl View for Store {
    type V = Map<Seq<u8>, Seq<u8>>;

    /// Each stored key, mapped to the body of the put that stored it.
    closed spec fn view(&self) -> Map<Seq<u8>, Seq<u8>> {
        self.contents@
    }
}

impl Store {
    /// The store's invariant: every entry holds a well-formed put body under that body's
    /// key, no key occurs twice, and the view maps exactly the entries' keys to their bodies.
    pub closed spec fn wf(&self) -> bool {
        let e = self.entries@;
        let m = self.contents@;
        &&& forall|i: int|
            0 <= i < e.len() ==> put_body_ok(#[trigger] e[i].1.data@) && e[i].0@ == put_key(
                e[i].1.data@,
            )
        &&& forall|i: int, j: int| 0 <= i < j < e.len() ==> e[i].0@ != e[j].0@
        &&& forall|i: int|
            0 <= i < e.len() ==> m.contains_key(#[trigger] e[i].0@) && m[e[i].0@] == e[i].1.data@
        &&& forall|k: Seq<u8>|
            m.contains_key(k) ==> exists|i: int| 0 <= i < e.len() && #[trigger] e[i].0@ == k
    }

    /// An empty store.
    pub fn new() -> (s: Store)
        ensures
            s.wf(),
            s@ == Map::<Seq<u8>, Seq<u8>>::empty(),
    {
        Store { entries: Vec::new(), contents: Ghost(Map::empty()) }
    }

    /// Every body in a well-formed store is a well-formed put body stored under its own key.
    pub proof fn lemma_stored_bodies_are_puts(&self)
        requires
            self.wf(),
        ensures
            forall|k: Seq<u8>|
                #[trigger] self@.contains_key(k) ==> put_body_ok(self@[k]) && put_key(self@[k])
                    == k,
    {
        assert forall|k: Seq<u8>| #[trigger] self@.contains_key(k) implies put_body_ok(self@[k])
            && put_key(self@[k]) == k by {
            let i = choose|i: int| 0 <= i < self.entries@.len() && #[trigger] self.entries@[i].0@ == k;
            assert(put_body_ok(self.entries@[i].1.data@));
        }
    }

    /// The position of `key` among the entries, if it is stored.
    fn find(&self, key: &[u8]) -> (pos: Option<usize>)
        requires
            self.wf(),
        ensures
            pos matches Some(i) ==> i < self.entries@.len() && self.entries@[i as int].0@ == key@,
            pos is None ==> !self@.contains_key(key@),
    {
        let mut i: usize = 0;
        while i < self.entries.len()
            invariant
                self.wf(),
                i <= self.entries@.len(),
                forall|j: int| 0 <= j < i ==> self.entries@[j].0@ != key@,
            decreases self.entries@.len() - i,
        {
            if bytes_equal(self.entries[i].0.as_slice(), key) {
                return Some(i);
            }
            i = i + 1;
        }
        None
    }

    /// Whether `key` is stored: a put of it replaces a body rather than adding one.
    pub fn contains_key(&self, key: &[u8]) -> (found: bool)
        requires
            self.wf(),
        ensures
            found == self@.contains_key(key@),
    {
        match self.find(key) {
            Some(_) => true,
            None => false,
        }
    }

    /// Answers a get: the body of the message is the key looked up.
    pub fn handle_get(&self, pkg: RcPackage) -> (reply: Vec<u8>)
        requires
            self.wf(),
        ensures
            reply@ == get_reply(self@, pkg.data@),
    {
        match self.find(pkg.data.as_slice()) {
            Some(i) => {
                let valpkg = &self.entries[i].1;
                let val = valpkg.val();
                let n = valpkg.val_len();
                let mut reply: Vec<u8> = Vec::new();
                reply.push(n as u8);
                let mut rest = slice_to_vec(val);
                reply.append(&mut rest);
                assert(n as u8 == (n % 256) as u8) by (bit_vector);
                assert(reply@ =~= get_reply(self@, pkg.data@));
                reply
            },
            None => Vec::new(),
        }
    }

    /// Answers a put: stores the body under its key, replacing what was stored there.
    pub fn handle_put(&mut self, pkg: RcPackage) -> (reply: Vec<u8>)
        requires
            old(self).wf(),
            put_body_ok(pkg.data@),
        ensures
            final(self).wf(),
            final(self)@ == old(self)@.insert(put_key(pkg.data@), pkg.data@),
            reply@ == put_reply(),
    {
        let keylen = pkg.data[0] as usize;
        let key = slice_to_vec(slice_subrange(pkg.data.as_slice(), 1, 1 + keylen));
        let ghost k = key@;
        let ghost d = pkg.data@;
        let found = self.find(key.as_slice());
        match found {
            Some(i) => {
                self.entries.set(i, (key, pkg));
            },
            None => {
                self.entries.push((key, pkg));
            },
        }
        proof {
            self.contents = Ghost(self.contents@.insert(k, d));
            let e = self.entries@;
            let m = self.contents@;
            assert forall|kk: Seq<u8>| m.contains_key(kk) implies exists|i: int|
                0 <= i < e.len() && #[trigger] e[i].0@ == kk by {
                if kk == k {
                    match found {
                        Some(i) => { assert(e[i as int].0@ == kk); },
                        None => { assert(e[e.len() - 1].0@ == kk); },
                    }
                } else {
                    let i = choose|i: int| 0 <= i < old(self).entries@.len() && #[trigger] old(self).entries@[i].0@ == kk;
                    assert(e[i].0@ == kk);
                }
            }
        }
        let mut reply: Vec<u8> = Vec::new();
        reply.push(0x00);
        assert(reply@ =~= put_reply());
        reply
    }

    /// Answers a message whose header and body were read: a get, a put, or an error for
    /// an unknown operation.
    pub fn handle_conn(&mut self, header: [u8; 3], body: Vec<u8>) -> (res: Result<Vec<u8>, ConnError>)
        requires
            old(self).wf(),
            header[2] == OP_PUT ==> put_body_ok(body@),
        ensures
            final(self).wf(),
            final(self)@ == step(old(self)@, header[2], body@).0,
            match (res, step(old(self)@, header[2], body@).1) {
                (Ok(r), Ok(s)) => r@ == s,
                (Err(e), Err(f)) => e == f,
                _ => false,
            },
    {
        let pkg = build_pkg(header, body);
        if header[2] == OP_GET {
            Ok(self.handle_get(pkg))
        } else if header[2] == OP_PUT {
            Ok(self.handle_put(pkg))
        } else {
            Err(ConnError::InvalidOp(header[2]))
        }
    }
}

} // verus!

verus! {

/// A get of the key a put stored answers that put's value, after its length byte.
pub proof fn lemma_get_after_put(m: Map<Seq<u8>, Seq<u8>>, body: Seq<u8>)
    requires
        put_body_ok(body),
    ensures
        step(step(m, OP_PUT, body).0, OP_GET, put_key(body)).1 == Ok::<Seq<u8>, ConnError>(
            seq![(put_value(body).len() % 256) as u8] + put_value(body),
        ),
{
}

/// A put changes the answer to no get of another key.
pub proof fn lemma_put_keeps_other_keys(m: Map<Seq<u8>, Seq<u8>>, body: Seq<u8>, key: Seq<u8>)
    requires
        key != put_key(body),
    ensures
        get_reply(step(m, OP_PUT, body).0, key) == get_reply(m, key),
{
}

/// Of two puts under one key, the later one alone decides what is stored.
pub proof fn lemma_last_put_wins(m: Map<Seq<u8>, Seq<u8>>, first: Seq<u8>, second: Seq<u8>)
    requires
        put_key(first) == put_key(second),
    ensures
        step(step(m, OP_PUT, first).0, OP_PUT, second).0 == step(m, OP_PUT, second).0,
{
    assert(m.insert(put_key(first), first).insert(put_key(second), second) =~= m.insert(
        put_key(second),
        second,
    ));
}

/// A get, and a message with an unknown operation, leave the store as it was.
pub proof fn lemma_only_puts_change_the_store(m: Map<Seq<u8>, Seq<u8>>, op: u8, body: Seq<u8>)
    requires
        op != OP_PUT,
    ensures
        step(m, op, body).0 == m,
{
}

/// Every put is answered by the single byte zero.
pub proof fn lemma_put_answer(m: Map<Seq<u8>, Seq<u8>>, body: Seq<u8>)
    ensures
        step(m, OP_PUT, body).1 == Ok::<Seq<u8>, ConnError>(seq![0u8]),
{
}

/// A store that was never written answers every get with nothing.
pub proof fn lemma_empty_store_answers_nothing(key: Seq<u8>)
    ensures
        step(Map::empty(), OP_GET, key).1 == Ok::<Seq<u8>, ConnError>(Seq::empty()),
{
}

/// The store after answering `msgs`, each an operation byte and a body, in order.
pub open spec fn run(m: Map<Seq<u8>, Seq<u8>>, msgs: Seq<(u8, Seq<u8>)>) -> Map<Seq<u8>, Seq<u8>>
    decreases msgs.len(),
{
    if msgs.len() == 0 {
        m
    } else {
        step(run(m, msgs.drop_last()), msgs.last().0, msgs.last().1).0
    }
}

/// After any sequence of messages, a get of a key answers the value of the last put of
/// that key in the sequence, after its length byte: later gets, refused messages and
/// puts of other keys change nothing of it.
pub proof fn lemma_get_answers_last_put(m: Map<Seq<u8>, Seq<u8>>, msgs: Seq<(u8, Seq<u8>)>, i: int)
    requires
        0 <= i < msgs.len(),
        msgs[i].0 == OP_PUT,
        put_body_ok(msgs[i].1),
        forall|j: int|
            i < j < msgs.len() && #[trigger] msgs[j].0 == OP_PUT ==> put_key(msgs[j].1) != put_key(
                msgs[i].1,
            ),
    ensures
        get_reply(run(m, msgs), put_key(msgs[i].1)) == seq![
            (put_value(msgs[i].1).len() % 256) as u8,
        ] + put_value(msgs[i].1),
    decreases msgs.len(),
{
    let k = put_key(msgs[i].1);
    let last = msgs.len() - 1;
    if i < last {
        let rest = msgs.drop_last();
        assert forall|j: int| i < j < rest.len() && #[trigger] rest[j].0 == OP_PUT implies put_key(
            rest[j].1,
        ) != k by {
            assert(rest[j] == msgs[j]);
        }
        lemma_get_answers_last_put(m, rest, i);
        assert(msgs[last].0 == OP_PUT ==> put_key(msgs[last].1) != k);
    }
}

/// A get of a key that no put stored answers nothing and changes nothing, whatever
/// else the store holds.
pub proof fn lemma_get_of_unstored_key(m: Map<Seq<u8>, Seq<u8>>, key: Seq<u8>)
    requires
        !m.contains_key(key),
    ensures
        step(m, OP_GET, key) == (m, Ok::<Seq<u8>, ConnError>(Seq::empty())),
{
}

/// A get of a key stored with a value answers the value's length byte, then the value,
/// and changes nothing.
pub proof fn lemma_get_of_stored_key(m: Map<Seq<u8>, Seq<u8>>, key: Seq<u8>, val: Seq<u8>)
    requires
        key.len() < 256,
        m.contains_key(key),
        m[key] == seq![key.len() as u8] + key + val,
    ensures
        step(m, OP_GET, key) == (m, Ok::<Seq<u8>, ConnError>(
            seq![(val.len() % 256) as u8] + val,
        )),
{
    lemma_put_body_of(key, val);
}

/// Every operation byte other than a get's and a put's is refused with that byte, and
/// the store is left as it was.
pub proof fn lemma_unknown_op_refused(m: Map<Seq<u8>, Seq<u8>>, op: u8, body: Seq<u8>)
    requires
        op != 0,
        op != 1,
    ensures
        step(m, op, body) == (m, Err::<Seq<u8>, ConnError>(ConnError::InvalidOp(op))),
{
}

/// A put of a value under a key shorter than 256 bytes stores its whole body under
/// exactly that key and answers zero; a get of that key then answers the value's length
/// byte and every byte of the value.
pub proof fn lemma_put_then_get(m: Map<Seq<u8>, Seq<u8>>, key: Seq<u8>, val: Seq<u8>)
    requires
        key.len() < 256,
    ensures
        step(m, OP_PUT, seq![key.len() as u8] + key + val) == (
            m.insert(key, seq![key.len() as u8] + key + val),
            Ok::<Seq<u8>, ConnError>(seq![0u8]),
        ),
        step(step(m, OP_PUT, seq![key.len() as u8] + key + val).0, OP_GET, key).1 == Ok::<
            Seq<u8>,
            ConnError,
        >(seq![(val.len() % 256) as u8] + val),
{
    lemma_put_body_of(key, val);
}

} // verus!
