//! An iterator adaptor with arbitrary lookahead.

use vstd::prelude::*;
use vstd::std_specs::iter::IteratorSpec;

verus! {

/// An adaptor over any iterator that can look any number of elements ahead
/// without consuming them. Elements pulled for lookahead wait in a queue
/// and are handed out, front first, before the iterator is consulted
/// again.
pub struct AheadLooker<I: Iterator> {
    /// The underlying iterator.
    pub iter: I,
    /// Elements pulled from the iterator but not yet handed out.
    pub peeked_queue: Vec<I::Item>,
}

impl<I: Iterator> AheadLooker<I> {
    /// Creates the adaptor with an empty queue.
    pub fn new(iter: I) -> (r: AheadLooker<I>)
        ensures
            r.iter == iter,
            r.peeked_queue@ == Seq::<I::Item>::empty(),
    {
        AheadLooker { iter, peeked_queue: Vec::new() }
    }

    /// Returns a reference to the element `n` places ahead, without
    /// consuming anything, or `None` when the iterator ends first. For a
    /// law-abiding iterator, the stream of upcoming elements is unchanged.
    pub fn peek_nth(&mut self, n: usize) -> (r: Option<&I::Item>)
        requires
            n < usize::MAX,
        ensures
            final(self).iter.obeys_prophetic_iter_laws() == old(
                self,
            ).iter.obeys_prophetic_iter_laws(),
            old(self).iter.obeys_prophetic_iter_laws() ==> ({
                let before = old(self).peeked_queue@ + old(self).iter.remaining();
                let after = final(self).peeked_queue@ + final(self).iter.remaining();
                &&& after == before
                &&& n < before.len() ==> r == Some(&after[n as int])
                &&& n >= before.len() ==> r is None
            }),
    {
        let qlen = self.peeked_queue.len();
        let need_count = if n >= qlen {
            n - qlen + 1
        } else {
            0
        };
        let ghost before = self.peeked_queue@ + self.iter.remaining();
        let mut filled: usize = 0;
        let mut ended = false;
        while filled < need_count && !ended
            invariant
                filled <= need_count,
                need_count == (if n >= qlen {
                    n - qlen + 1
                } else {
                    0int
                }),
                qlen == old(self).peeked_queue@.len(),
                self.peeked_queue@.len() == qlen + filled,
                self.iter.obeys_prophetic_iter_laws() == old(
                    self,
                ).iter.obeys_prophetic_iter_laws(),
                old(self).iter.obeys_prophetic_iter_laws() ==> ({
                    &&& before == old(self).peeked_queue@ + old(self).iter.remaining()
                    &&& self.peeked_queue@ + self.iter.remaining() == before
                    &&& self.peeked_queue@.len() >= old(self).peeked_queue@.len()
                    &&& (ended ==> self.iter.remaining().len() == 0)
                }),
            decreases need_count - filled, (if ended {
                0int
            } else {
                1int
            }),
        {
            let ghost q0 = self.peeked_queue@;
            match self.iter.next() {
                Some(item) => {
                    self.peeked_queue.push(item);
                    proof {
                        if old(self).iter.obeys_prophetic_iter_laws() {
                            assert(self.peeked_queue@ + self.iter.remaining() =~= q0 + (seq![
                                item,
                            ] + self.iter.remaining()));
                        }
                    }
                },
                None => {
                    ended = true;
                },
            }
            if !ended {
                filled = filled + 1;
            }
        }
        if n < self.peeked_queue.len() {
            Some(&self.peeked_queue[n])
        } else {
            None
        }
    }

    /// Returns a reference to the next element without consuming it, or
    /// `None` at the end.
    pub fn peek(&mut self) -> (r: Option<&I::Item>)
        ensures
            final(self).iter.obeys_prophetic_iter_laws() == old(
                self,
            ).iter.obeys_prophetic_iter_laws(),
            old(self).iter.obeys_prophetic_iter_laws() ==> ({
                let before = old(self).peeked_queue@ + old(self).iter.remaining();
                let after = final(self).peeked_queue@ + final(self).iter.remaining();
                &&& after == before
                &&& before.len() > 0 ==> r == Some(&after[0])
                &&& before.len() == 0 ==> r is None
            }),
    {
        self.peek_nth(0)
    }

    /// Consumes and returns the next element: the front of the queue when
    /// one was peeked, otherwise the iterator's next element.
    pub fn next(&mut self) -> (r: Option<I::Item>)
        ensures
            final(self).iter.obeys_prophetic_iter_laws() == old(
                self,
            ).iter.obeys_prophetic_iter_laws(),
            old(self).iter.obeys_prophetic_iter_laws() ==> ({
                let before = old(self).peeked_queue@ + old(self).iter.remaining();
                let after = final(self).peeked_queue@ + final(self).iter.remaining();
                &&& before.len() > 0 ==> r == Some(before[0]) && after == before.drop_first()
                &&& before.len() == 0 ==> r is None && after == before
            }),
    {
        if self.peeked_queue.len() > 0 {
            let item = self.peeked_queue.remove(0);
            proof {
                if old(self).iter.obeys_prophetic_iter_laws() {
                    let before = old(self).peeked_queue@ + old(self).iter.remaining();
                    assert(self.peeked_queue@ + self.iter.remaining() =~= before.drop_first());
                }
            }
            Some(item)
        } else {
            let r = self.iter.next();
            proof {
                if old(self).iter.obeys_prophetic_iter_laws() {
                    let before = old(self).peeked_queue@ + old(self).iter.remaining();
                    assert(before =~= old(self).iter.remaining());
                    assert(self.peeked_queue@ + self.iter.remaining() =~= self.iter.remaining());
                }
            }
            r
        }
    }
}

/// Anything iterable can be wrapped for lookahead.
pub trait Lookahead: Sized + Iterator {
    /// Wraps the iterator in an [`AheadLooker`] that can look any number
    /// of elements ahead without consuming them.
    fn ahead_looker(self) -> (r: AheadLooker<Self>)
        ensures
            r.iter == self,
            r.peeked_queue@ == Seq::<Self::Item>::empty(),
    ;
}

impl<I: Iterator> Lookahead for I {
    fn ahead_looker(self) -> (r: AheadLooker<Self>) {
        AheadLooker::new(self)
    }
}

} // verus!
