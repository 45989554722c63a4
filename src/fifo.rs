//! A fixed-capacity circular queue for one producer and one consumer. A
//! buffer of `n` slots holds at most `n - 1` items: `head == tail` always
//! means empty, so no separate "full" flag is needed.
use vstd::prelude::*;
use vstd::slice::slice_to_vec;

verus! {

#[derive(Debug, PartialEq, Eq, Clone, Copy, Structural)]
pub enum Error {
    /// The items do not all fit; nothing was written.
    OutOfSpace,
}

/// The slot that lies `i` places after `start` in a circle of `n` slots.
pub open spec fn slot(n: nat, start: nat, i: nat) -> nat {
    if start + i < n {
        start + i
    } else {
        (start + i - n) as nat
    }
}

/// Whether `extra` more items fit beside `held` in a buffer of `slots` slots.
pub open spec fn fits(held: nat, extra: nat, slots: nat) -> bool {
    held + extra <= slots - 1
}

pub struct Fifo<T> {
    /// Slot of the next write.
    head: usize,
    /// Slot of the next read.
    tail: usize,
    buffer: Vec<T>,
}

impl<T: Copy> View for Fifo<T> {
    type V = Seq<T>;

    /// The items held, oldest first.
    closed spec fn view(&self) -> Seq<T> {
        Seq::new(
            self.held(),
            |i: int| self.buffer@[slot(self.buffer@.len(), self.tail as nat, i as nat) as int],
        )
    }
}

impl<T: Copy> Fifo<T> {
    /// Number of slots of the backing buffer.
    pub closed spec fn slots(&self) -> nat {
        self.buffer@.len()
    }

    /// Number of items held.
    closed spec fn held(&self) -> nat {
        if self.head >= self.tail {
            (self.head - self.tail) as nat
        } else {
            (self.buffer@.len() - self.tail + self.head) as nat
        }
    }

    proof fn lemma_held_bound(&self)
        requires
            self.wf(),
        ensures
            self@.len() <= self.slots() - 1,
    {
    }

    /// Both indices lie inside a buffer of at least one slot.
    pub closed spec fn wf(&self) -> bool {
        &&& 1 <= self.buffer@.len() <= usize::MAX
        &&& self.head < self.buffer@.len()
        &&& self.tail < self.buffer@.len()
    }

    /// A queue over a copy of `buffer`, one slot per element, holding
    /// nothing yet.
    pub fn new(buffer: &[T]) -> (r: Self)
        requires
            buffer@.len() >= 1,
        ensures
            r.wf(),
            r@ == Seq::<T>::empty(),
            r.slots() == buffer@.len(),
    {
        assert(buffer@.len() == buffer.len());
        let r = Fifo { head: 0, tail: 0, buffer: slice_to_vec(buffer) };
        assert(r@ =~= Seq::<T>::empty());
        r
    }

    /// Appends all of `write_buf`, oldest first, or, where it does not all
    /// fit, nothing.
    pub fn write(&mut self, write_buf: &[T]) -> (r: Result<(), Error>)
        requires
            old(self).wf(),
        ensures
            final(self).wf(),
            final(self).slots() == old(self).slots(),
            r is Ok <==> fits(old(self)@.len(), write_buf@.len(), old(self).slots()),
            r is Ok ==> final(self)@ == old(self)@ + write_buf@,
            r is Err ==> r == Err::<(), Error>(Error::OutOfSpace) && final(self)@ == old(self)@,
    {
        if write_buf.len() > self.remaining() {
            return Err(Error::OutOfSpace);
        }
        let ghost start = self@;
        let mut i: usize = 0;
        while i < write_buf.len()
            invariant
                self.wf(),
                self.slots() == old(self).slots(),
                i <= write_buf@.len(),
                start == old(self)@,
                start.len() + write_buf@.len() <= self.slots() - 1,
                self@ == start + write_buf@.subrange(0, i as int),
            decreases write_buf@.len() - i,
        {
            self.push_one(write_buf[i]);
            i += 1;
            assert(self@ =~= start + write_buf@.subrange(0, i as int));
        }
        assert(write_buf@.subrange(0, i as int) =~= write_buf@);
        Ok(())
    }

    /// Stores one item at the head; there must be room for it.
    fn push_one(&mut self, item: T)
        requires
            old(self).wf(),
            old(self)@.len() + 1 <= old(self).slots() - 1,
        ensures
            final(self).wf(),
            final(self).slots() == old(self).slots(),
            final(self)@ == old(self)@.push(item),
    {
        let ghost before = self@;
        let head = self.head;
        self.buffer[head] = item;
        let n = self.buffer.len();
        if head + 1 == n {
            self.head = 0;
        } else {
            self.head = head + 1;
        }
        assert(self@ =~= before.push(item));
    }

    /// Takes the oldest item out, or `None` when nothing is held.
    pub fn read(&mut self) -> (r: Option<T>)
        requires
            old(self).wf(),
        ensures
            final(self).wf(),
            final(self).slots() == old(self).slots(),
            old(self)@.len() == 0 ==> r is None && final(self)@ == old(self)@,
            old(self)@.len() > 0 ==> r == Some(old(self)@[0])
                && final(self)@ == old(self)@.drop_first(),
    {
        let ghost before = self@;
        let tail = self.tail;
        if self.head != tail {
            let item = self.buffer[tail];
            let n = self.buffer.len();
            if tail + 1 == n {
                self.tail = 0;
            } else {
                self.tail = tail + 1;
            }
            assert(self@ =~= before.drop_first());
            Some(item)
        } else {
            None
        }
    }

    /// The oldest item, left in place, or `None` when nothing is held.
    pub fn peek(&self) -> (r: Option<T>)
        requires
            self.wf(),
        ensures
            self@.len() == 0 ==> r is None,
            self@.len() > 0 ==> r == Some(self@[0]),
    {
        let tail = self.tail;
        if self.head != tail {
            Some(self.buffer[tail])
        } else {
            None
        }
    }

    /// Moves items into `out_buffer`, from its start, until it is full or
    /// nothing is left; returns how many were moved.
    pub fn read_to_buffer(&mut self, out_buffer: &mut [T]) -> (r: usize)
        requires
            old(self).wf(),
        ensures
            final(self).wf(),
            final(self).slots() == old(self).slots(),
            r == if old(out_buffer)@.len() < old(self)@.len() {
                old(out_buffer)@.len()
            } else {
                old(self)@.len()
            },
            final(out_buffer)@ == old(self)@.subrange(0, r as int) + old(out_buffer)@.subrange(
                r as int,
                old(out_buffer)@.len() as int,
            ),
            final(self)@ == old(self)@.subrange(r as int, old(self)@.len() as int),
    {
        let ghost items = self@;
        let ghost outs = out_buffer@;
        let mut i: usize = 0;
        while i < out_buffer.len()
            invariant
                self.wf(),
                self.slots() == old(self).slots(),
                items == old(self)@,
                outs == old(out_buffer)@,
                i <= out_buffer@.len(),
                out_buffer@.len() == outs.len(),
                i <= items.len(),
                self@ == items.subrange(i as int, items.len() as int),
                out_buffer@ == items.subrange(0, i as int) + outs.subrange(i as int, outs.len() as int),
            decreases out_buffer@.len() - i,
        {
            match self.read() {
                Some(item) => {
                    out_buffer[i] = item;
                    assert(out_buffer@ =~= items.subrange(0, i + 1) + outs.subrange(
                        i + 1,
                        outs.len() as int,
                    ));
                    assert(self@ =~= items.subrange(i + 1, items.len() as int));
                },
                None => {
                    return i;
                },
            }
            i += 1;
        }
        out_buffer.len()
    }

    /// Number of items held.
    pub fn len(&self) -> (r: usize)
        requires
            self.wf(),
        ensures
            r == self@.len(),
    {
        let tail = self.tail;
        let head = self.head;
        if head == tail {
            0
        } else if head > tail {
            head - tail
        } else {
            let to_end = self.buffer.len() - tail;
            to_end + head
        }
    }

    /// Largest number of items the queue can hold: one less than its slots.
    pub fn size(&self) -> (r: usize)
        requires
            self.wf(),
        ensures
            r == self.slots() - 1,
    {
        self.buffer.len() - 1
    }

    /// Number of items that can still be written.
    pub fn remaining(&self) -> (r: usize)
        requires
            self.wf(),
        ensures
            r == self.slots() - 1 - self@.len(),
            r + self@.len() == self.slots() - 1,
    {
        self.size() - self.len()
    }

    /// Drops every item held.
    pub fn clear(&mut self)
        requires
            old(self).wf(),
        ensures
            final(self).wf(),
            final(self).slots() == old(self).slots(),
            final(self)@ == Seq::<T>::empty(),
    {
        self.tail = self.head;
        assert(self@ =~= Seq::<T>::empty());
    }
}

/// A fresh queue of `n` slots takes `n - 1` items in one write, and after
/// that not one more until something is read.
pub proof fn lemma_fill_then_full(n: nat)
    requires
        n >= 1,
    ensures
        fits(0, (n - 1) as nat, n),
        !fits((n - 1) as nat, 1, n),
{
}

/// However a well-formed queue got where it is, it holds at most one less
/// than its slots, so the room that `remaining` reports is never negative.
pub proof fn lemma_room_accounting<T: Copy>(f: &Fifo<T>)
    requires
        f.wf(),
    ensures
        f@.len() <= f.slots() - 1,
        f.slots() <= usize::MAX,
{
    f.lemma_held_bound();
}

} // verus!
