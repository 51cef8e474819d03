//! Pull-based streams: the interface that the generators and the adapters of
//! this library share, and a stream over the items of a `Vec`.

use std::collections::VecDeque;
use vstd::prelude::*;

verus! {

/// Moves `items` to the back of `buffer`, keeping their order.
pub(crate) fn extend_back<T>(buffer: &mut VecDeque<T>, items: Vec<T>)
    ensures
        final(buffer)@ == old(buffer)@ + items@,
{
    let ghost start = buffer@;
    for v in it: items
        invariant
            it.seq() == items@,
            buffer@ == start + items@.take(it.index()),
    {
        buffer.push_back(v);
        assert(buffer@ =~= start + items@.take(it.index() + 1));
    }
    assert(items@.take(items@.len() as int) =~= items@);
}

/// The concatenation of `parts`, in order.
pub open spec fn concat<T>(parts: Seq<Seq<T>>) -> Seq<T> {
    parts.flatten()
}

/// The concatenation of a list with a first element is that element followed
/// by the concatenation of the rest.
pub proof fn lemma_concat_first<T>(parts: Seq<Seq<T>>)
    requires
        parts.len() > 0,
    ensures
        concat(parts) == parts[0] + concat(parts.drop_first()),
{
}

/// Every part that holds something adds to the length of the concatenation.
pub proof fn lemma_concat_len<T>(parts: Seq<Seq<T>>)
    requires
        forall|i: int| 0 <= i < parts.len() ==> (#[trigger] parts[i]).len() >= 1,
    ensures
        concat(parts).len() >= parts.len(),
    decreases parts.len(),
{
    if parts.len() > 0 {
        lemma_concat_len(parts.drop_first());
    }
}

/// A single-pass, pull-based stream of items.
pub trait Stream: Sized {
    /// What the stream hands out.
    type Item;

    /// Whether the stream is in a state that its constructors and `next` can
    /// leave it in.
    spec fn wf(&self) -> bool;

    /// The items that are still to come, in the order in which `next` hands
    /// them out.
    spec fn pending(&self) -> Seq<Self::Item>;

    /// Hands out the first pending item, or `None` when none is left.
    fn next(&mut self) -> (r: Option<Self::Item>)
        requires
            old(self).wf(),
        ensures
            final(self).wf(),
            old(self).pending().len() == 0 ==> r is None
                && final(self).pending() == old(self).pending(),
            old(self).pending().len() > 0 ==> r == Some(old(self).pending()[0])
                && final(self).pending() == old(self).pending().drop_first(),
    ;

    /// The bounds on the number of pending items that `size_hint` gives:
    /// a lower one and, where one is known, an upper one.
    spec fn hint(&self) -> (usize, Option<usize>);

    /// A lower and, where one is known, an upper bound on the number of
    /// pending items.
    fn size_hint(&self) -> (r: (usize, Option<usize>))
        requires
            self.wf(),
        ensures
            r == self.hint(),
            r.0 <= self.pending().len(),
            r.1 matches Some(hi) ==> self.pending().len() <= hi,
    ;

    /// Drains the stream into a `Vec`.
    fn collect(self) -> (r: Vec<Self::Item>)
        requires
            self.wf(),
        ensures
            r@ == self.pending(),
    {
        let mut s = self;
        let mut r: Vec<Self::Item> = Vec::new();
        loop
            invariant
                s.wf(),
                r@ + s.pending() == self.pending(),
            ensures
                r@ == self.pending(),
            decreases s.pending().len(),
        {
            let ghost before = s.pending();
            match s.next() {
                Some(x) => {
                    r.push(x);
                    assert(r@ + s.pending() =~= (r@.drop_last() + before));
                },
                None => {
                    assert(r@ + s.pending() =~= r@);
                    break ;
                },
            }
        }
        r
    }

    /// Drains the stream and gives the number of items that it held.
    fn count(self) -> (n: usize)
        requires
            self.wf(),
            self.pending().len() <= usize::MAX,
        ensures
            n == self.pending().len(),
    {
        let mut s = self;
        let mut n: usize = 0;
        loop
            invariant
                s.wf(),
                n + s.pending().len() == self.pending().len(),
                self.pending().len() <= usize::MAX,
            ensures
                n == self.pending().len(),
            decreases s.pending().len(),
        {
            match s.next() {
                Some(_) => {
                    n = n + 1;
                },
                None => {
                    break ;
                },
            }
        }
        n
    }
}

/// A stream over the items of a `Vec`, first to last.
pub struct VecStream<T> {
    items: Vec<T>,
    at: usize,
}

impl<T: Copy> VecStream<T> {
    /// A stream that hands out the items of `items` in order.
    pub fn new(items: Vec<T>) -> (s: Self)
        ensures
            s.wf(),
            s.pending() == items@,
    {
        let s = VecStream { items, at: 0 };
        assert(s.pending() =~= items@);
        s
    }
}

impl<T: Copy> Stream for VecStream<T> {
    type Item = T;

    closed spec fn wf(&self) -> bool {
        self.at <= self.items.len()
    }

    closed spec fn pending(&self) -> Seq<T> {
        self.items@.skip(self.at as int)
    }

    fn next(&mut self) -> (r: Option<T>) {
        if self.at < self.items.len() {
            let v = self.items[self.at];
            self.at = self.at + 1;
            assert(self.pending() =~= old(self).pending().drop_first());
            Some(v)
        } else {
            None
        }
    }

    /// The number of pending items, as both bounds.
    open spec fn hint(&self) -> (usize, Option<usize>) {
        (self.pending().len() as usize, Some(self.pending().len() as usize))
    }

    fn size_hint(&self) -> (r: (usize, Option<usize>))
        ensures
            r.0 == self.pending().len(),
            r.1 == Some(r.0),
    {
        let n = self.items.len() - self.at;
        (n, Some(n))
    }
}

} // verus!
