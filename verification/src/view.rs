//! `ContiguousView`: several byte slices read as one sequence of bytes, by index, by
//! range, or item by item.

use vstd::prelude::*;

verus! {

/// The bytes of each slice.
pub open spec fn part_bytes<'a>(slices: Seq<&'a [u8]>) -> Seq<Seq<u8>> {
    slices.map_values(|s: &'a [u8]| s@)
}

/// Splitting the concatenation of `p` around its part `k`.
proof fn lemma_split_at(p: Seq<Seq<u8>>, k: int)
    requires
        0 <= k < p.len(),
    ensures
        p.flatten() == p.take(k).flatten() + p[k] + p.skip(k + 1).flatten(),
        p.take(k + 1).flatten() == p.take(k).flatten() + p[k],
{
    broadcast use Seq::lemma_flatten_push, Seq::lemma_flatten_singleton;

    let rest = seq![p[k]] + p.skip(k + 1);
    assert(p =~= p.take(k) + rest);
    vstd::seq_lib::lemma_flatten_concat(p.take(k), rest);
    vstd::seq_lib::lemma_flatten_concat(seq![p[k]], p.skip(k + 1));
    assert(seq![p[k]].flatten() == p[k]);
    assert(p.take(k + 1) =~= p.take(k).push(p[k]));
}

/// A sequence of byte slices, read as their concatenation.
#[derive(Debug)]
pub struct ContiguousView<'a> {
    slices: Vec<&'a [u8]>,
}

impl<'a> View for ContiguousView<'a> {
    type V = Seq<u8>;

    /// The concatenation of the slices, in order.
    closed spec fn view(&self) -> Seq<u8> {
        part_bytes(self.slices@).flatten()
    }
}

impl<'a> ContiguousView<'a> {
    /// The slices the view reads, in order.
    pub closed spec fn slices(&self) -> Seq<&'a [u8]> {
        self.slices@
    }

    /// The view's bytes are its slices' bytes, joined in order.
    pub proof fn lemma_view_joins_slices(&self)
        ensures
            self@ == part_bytes(self.slices()).flatten(),
    {
    }

    /// A view of exactly the given slices, in the given order.
    pub fn new(slices: Vec<&'a [u8]>) -> (v: ContiguousView<'a>)
        ensures
            v.slices() == slices@,
            v@ == part_bytes(slices@).flatten(),
    {
        ContiguousView { slices }
    }

    /// The total number of bytes.
    pub fn len(&self) -> (n: usize)
        requires
            self@.len() <= usize::MAX,
        ensures
            n == self@.len(),
    {
        let ghost p = part_bytes(self.slices@);
        let mut sum: usize = 0;
        let mut k: usize = 0;
        while k < self.slices.len()
            invariant
                p == part_bytes(self.slices@),
                self@ == p.flatten(),
                self@.len() <= usize::MAX,
                k <= self.slices@.len(),
                sum == p.take(k as int).flatten().len(),
            decreases self.slices@.len() - k,
        {
            proof {
                lemma_split_at(p, k as int);
            }
            sum = sum + self.slices[k].len();
            k = k + 1;
        }
        assert(p.take(k as int) =~= p);
        sum
    }

    /// The byte at position `idx`.
    pub fn index(&self, idx: usize) -> (b: u8)
        requires
            idx < self@.len(),
            self@.len() <= usize::MAX,
        ensures
            b == self@[idx as int],
    {
        let ghost p = part_bytes(self.slices@);
        let mut slice_start: usize = 0;
        let mut k: usize = 0;
        loop
            invariant
                p == part_bytes(self.slices@),
                self@ == p.flatten(),
                idx < self@.len() <= usize::MAX,
                k <= self.slices@.len(),
                slice_start == p.take(k as int).flatten().len(),
                slice_start <= idx,
                self@.subrange(0, slice_start as int) == p.take(k as int).flatten(),
            decreases self.slices@.len() - k,
        {
            proof {
                if k == self.slices.len() {
                    assert(p.take(k as int) =~= p);
                }
                lemma_split_at(p, k as int);
            }
            let s = self.slices[k];
            if idx < slice_start + s.len() {
                proof {
                    let pre = p.take(k as int).flatten();
                    assert(self@ == pre + p[k as int] + p.skip(k + 1).flatten());
                    assert(self@[idx as int] == p[k as int][idx - slice_start]);
                }
                return s[idx - slice_start];
            }
            proof {
                assert(self@.subrange(0, slice_start + s.len()) =~= p.take(k + 1).flatten());
            }
            slice_start = slice_start + s.len();
            k = k + 1;
        }
    }

    /// An iterator over all the bytes.
    pub fn iter(&self) -> (it: ContiguousViewIt<'_>)
        requires
            self@.len() <= usize::MAX,
        ensures
            it.source() == self@,
            it.next_pos() == 0,
            it.start_pos() == 0,
            it.calls() == 0,
            it.end_pos() == self@.len(),
            it.remaining() == self@,
    {
        assert(pending(self@, 0, self@.len() as int) =~= self@);
        ContiguousViewIt { view: self, next_idx: 0, end_idx: self.len(), start_idx: Ghost(0) }
    }

    /// An iterator over the bytes at positions `start` up to, not including, `end`.
    pub fn range(&self, start: usize, end: usize) -> (it: ContiguousViewIt<'_>)
        ensures
            it.source() == self@,
            it.next_pos() == start,
            it.start_pos() == start,
            it.calls() == 0,
            it.end_pos() == end,
    {
        ContiguousViewIt { view: self, next_idx: start, end_idx: end, start_idx: Ghost(start as nat) }
    }

    /// An iterator that owns the view and yields all its bytes.
    pub fn into_iter(self) -> (it: ContiguousViewOwningIt<'a>)
        requires
            self@.len() <= usize::MAX,
        ensures
            it.source() == self@,
            it.next_pos() == 0,
            it.calls() == 0,
            it.end_pos() == self@.len(),
            it.remaining() == self@,
    {
        assert(pending(self@, 0, self@.len() as int) =~= self@);
        let end_idx = self.len();
        ContiguousViewOwningIt { view: self, next_idx: 0, end_idx }
    }
}

/// The bytes at positions `next` up to `end` of `source`; none once `next` reaches `end`.
pub open spec fn pending(source: Seq<u8>, next: int, end: int) -> Seq<u8> {
    if next < end {
        source.subrange(next, end)
    } else {
        Seq::empty()
    }
}

/// What the call of `next` numbered `k` (from zero) answers on an iteration over the
/// positions `start` up to `end` of `source`.
pub open spec fn nth_item(source: Seq<u8>, start: int, end: int, k: int) -> Option<u8> {
    if start + k < end {
        Some(source[start + k])
    } else {
        None
    }
}

/// Iterating over a range inside the bytes yields the range's bytes in order, one per
/// call, then nothing.
pub proof fn lemma_iteration_yields_range(source: Seq<u8>, start: int, end: int, k: int)
    requires
        0 <= start,
        end <= source.len(),
        0 <= k,
    ensures
        k < end - start ==> nth_item(source, start, end, k) == Some(
            source.subrange(start, end)[k],
        ),
        k >= end - start ==> nth_item(source, start, end, k) is None,
{
}

/// Iterating over all the bytes yields each byte in order, then nothing.
pub proof fn lemma_iteration_yields_all(source: Seq<u8>, k: int)
    requires
        0 <= k,
    ensures
        k < source.len() ==> nth_item(source, 0, source.len() as int, k) == Some(source[k]),
        k >= source.len() ==> nth_item(source, 0, source.len() as int, k) is None,
{
}

/// Once an iteration has answered nothing, every later call answers nothing.
pub proof fn lemma_iteration_fused(source: Seq<u8>, start: int, end: int, k: int, j: int)
    requires
        k <= j,
        nth_item(source, start, end, k) is None,
    ensures
        nth_item(source, start, end, j) is None,
{
}

/// The length of the bytes of slices joined in order is the sum of the parts' lengths:
/// joining `a` then `b` gives `a`'s bytes followed by `b`'s.
pub proof fn lemma_joined_concat<'a>(a: Seq<&'a [u8]>, b: Seq<&'a [u8]>)
    ensures
        part_bytes(a + b).flatten() == part_bytes(a).flatten() + part_bytes(b).flatten(),
        part_bytes(a + b).flatten().len() == part_bytes(a).flatten().len() + part_bytes(
            b,
        ).flatten().len(),
{
    assert(part_bytes(a + b) =~= part_bytes(a) + part_bytes(b));
    vstd::seq_lib::lemma_flatten_concat(part_bytes(a), part_bytes(b));
}

/// An iterator over a range of a borrowed view.
pub struct ContiguousViewIt<'a> {
    view: &'a ContiguousView<'a>,
    next_idx: usize,
    end_idx: usize,
    /// Where the iteration started.
    start_idx: Ghost<nat>,
}

impl<'a> ContiguousViewIt<'a> {
    /// The bytes of the view iterated over.
    pub closed spec fn source(&self) -> Seq<u8> {
        self.view@
    }

    /// The position of the next byte to yield.
    pub closed spec fn next_pos(&self) -> nat {
        self.next_idx as nat
    }

    /// The position where the range ends.
    pub closed spec fn end_pos(&self) -> nat {
        self.end_idx as nat
    }

    /// The position where the range starts.
    pub closed spec fn start_pos(&self) -> nat {
        self.start_idx@
    }

    /// How many times `next` was called.
    pub closed spec fn calls(&self) -> int {
        self.next_idx - self.start_idx@
    }

    /// The bytes still to come.
    pub open spec fn remaining(&self) -> Seq<u8> {
        pending(self.source(), self.next_pos() as int, self.end_pos() as int)
    }

    /// Yields the next byte of the range, or `None` once the range is done; the position
    /// advances by one either way.
    pub fn next(&mut self) -> (item: Option<u8>)
        requires
            old(self).next_pos() < usize::MAX,
            old(self).source().len() <= usize::MAX,
            old(self).next_pos() < old(self).end_pos() ==> old(self).next_pos() < old(self).source().len(),
        ensures
            final(self).source() == old(self).source(),
            final(self).end_pos() == old(self).end_pos(),
            final(self).next_pos() == old(self).next_pos() + 1,
            final(self).start_pos() == old(self).start_pos(),
            final(self).calls() == old(self).calls() + 1,
            item == nth_item(
                old(self).source(),
                old(self).start_pos() as int,
                old(self).end_pos() as int,
                old(self).calls(),
            ),
            item == (if old(self).next_pos() < old(self).end_pos() {
                Some(old(self).source()[old(self).next_pos() as int])
            } else {
                None
            }),
            old(self).end_pos() <= old(self).source().len() ==> match item {
                Some(b) => old(self).remaining().len() > 0 && b == old(self).remaining()[0]
                    && final(self).remaining() == old(self).remaining().drop_first(),
                None => old(self).remaining().len() == 0 && final(self).remaining().len() == 0,
            },
    {
        let next = if self.next_idx >= self.end_idx {
            None
        } else {
            Some(self.view.index(self.next_idx))
        };
        self.next_idx = self.next_idx + 1;
        proof {
            let s = old(self).source();
            let (n, e) = (old(self).next_pos() as int, old(self).end_pos() as int);
            if n < e && e <= s.len() {
                assert(pending(s, n + 1, e) =~= pending(s, n, e).drop_first());
            }
        }
        next
    }
}

/// An iterator that owns its view and yields all of its bytes.
pub struct ContiguousViewOwningIt<'a> {
    view: ContiguousView<'a>,
    next_idx: usize,
    end_idx: usize,
}

impl<'a> ContiguousViewOwningIt<'a> {
    /// The bytes of the view iterated over.
    pub closed spec fn source(&self) -> Seq<u8> {
        self.view@
    }

    /// The position of the next byte to yield.
    pub closed spec fn next_pos(&self) -> nat {
        self.next_idx as nat
    }

    /// The position where iteration ends.
    pub closed spec fn end_pos(&self) -> nat {
        self.end_idx as nat
    }

    /// How many times `next` was called: iteration starts at position zero.
    pub closed spec fn calls(&self) -> int {
        self.next_idx as int
    }

    /// The bytes still to come.
    pub open spec fn remaining(&self) -> Seq<u8> {
        pending(self.source(), self.next_pos() as int, self.end_pos() as int)
    }

    /// Yields the next byte, or `None` once all came; the position advances by one
    /// either way.
    pub fn next(&mut self) -> (item: Option<u8>)
        requires
            old(self).next_pos() < usize::MAX,
            old(self).source().len() <= usize::MAX,
            old(self).next_pos() < old(self).end_pos() ==> old(self).next_pos() < old(self).source().len(),
        ensures
            final(self).source() == old(self).source(),
            final(self).end_pos() == old(self).end_pos(),
            final(self).next_pos() == old(self).next_pos() + 1,
            final(self).calls() == old(self).calls() + 1,
            item == nth_item(old(self).source(), 0, old(self).end_pos() as int, old(self).calls()),
            item == (if old(self).next_pos() < old(self).end_pos() {
                Some(old(self).source()[old(self).next_pos() as int])
            } else {
                None
            }),
            old(self).end_pos() <= old(self).source().len() ==> match item {
                Some(b) => old(self).remaining().len() > 0 && b == old(self).remaining()[0]
                    && final(self).remaining() == old(self).remaining().drop_first(),
                None => old(self).remaining().len() == 0 && final(self).remaining().len() == 0,
            },
    {
        let next = if self.next_idx >= self.end_idx {
            None
        } else {
            Some(self.view.index(self.next_idx))
        };
        self.next_idx = self.next_idx + 1;
        proof {
            let s = old(self).source();
            let (n, e) = (old(self).next_pos() as int, old(self).end_pos() as int);
            if n < e && e <= s.len() {
                assert(pending(s, n + 1, e) =~= pending(s, n, e).drop_first());
            }
        }
        next
    }

    /// The number of bytes not yet yielded.
    pub fn len(&self) -> (n: usize)
        requires
            self.next_pos() <= self.source().len() <= usize::MAX,
        ensures
            n == self.source().len() - self.next_pos(),
            n == self.source().len() - self.calls(),
    {
        self.view.len() - self.next_idx
    }

    /// Both bounds on the number of bytes still to come: exactly `len()`.
    pub fn size_hint(&self) -> (h: (usize, Option<usize>))
        requires
            self.next_pos() <= self.source().len() <= usize::MAX,
        ensures
            h.0 == self.source().len() - self.next_pos(),
            h.0 == self.source().len() - self.calls(),
            h.1 == Some(h.0),
    {
        (self.len(), Some(self.len()))
    }
}

} // verus!
