use vstd::prelude::*;

use crate::is_default;

verus! {

/// The slot that holds the value pushed `index` pushes before the newest one,
/// in a ring of `size` slots whose newest value sits at `pos`.
pub open spec fn ring_slot(size: nat, pos: nat, index: nat) -> int {
    (pos + size - index) % (size as int)
}

/// The value that `index` pushes ago became the newest one, in a ring whose
/// storage is `slots` and whose newest value sits at `newest`.
pub open spec fn ring_entry<T>(slots: Seq<T>, newest: nat, index: nat) -> T {
    slots[ring_slot(slots.len(), newest, index)]
}

/// The slot that a push writes, in a ring of `size` slots whose newest value
/// sits at `newest`.
pub open spec fn ring_next(size: nat, newest: nat) -> nat {
    (newest + 1) % size
}

/// A value pushed into a ring is what a read of the newest entry gives back.
pub proof fn law_push_then_newest<T>(slots: Seq<T>, newest: nat, value: T)
    requires
        slots.len() > 0,
        newest < slots.len(),
    ensures
        ring_entry(slots.update(ring_next(slots.len(), newest) as int, value), ring_next(slots.len(), newest), 0) == value,
{
    let n = slots.len() as int;
    let next = ring_next(slots.len(), newest) as int;
    assert((next + n - 0) % n == next) by {
        vstd::arithmetic::div_mod::lemma_mod_add_multiples_vanish(next, n);
        vstd::arithmetic::div_mod::lemma_small_mod(next as nat, n as nat);
    }
}

/// A push moves every older value one step further back: what was `index - 1`
/// pushes ago before the push is `index` pushes ago after it, for every index
/// short of the ring's size.
pub proof fn law_push_shifts_history<T>(slots: Seq<T>, newest: nat, value: T, index: nat)
    requires
        slots.len() > 0,
        newest < slots.len(),
        1 <= index < slots.len(),
    ensures
        ring_entry(slots.update(ring_next(slots.len(), newest) as int, value), ring_next(slots.len(), newest), index)
            == ring_entry(slots, newest, (index - 1) as nat),
{
    let n = slots.len() as int;
    let p = newest as int;
    let k = index as int;
    let next = ring_next(slots.len(), newest) as int;
    let a = (next + n - k) % n;
    let b = (p + n - (k - 1)) % n;
    assert(next == (p + 1) % n);
    assert(a == b) by {
        if p + 1 < n {
            vstd::arithmetic::div_mod::lemma_small_mod((p + 1) as nat, n as nat);
        } else {
            assert(p + 1 == n);
            vstd::arithmetic::div_mod::lemma_mod_self_0(n);
            vstd::arithmetic::div_mod::lemma_mod_add_multiples_vanish(p + 1 - k, n);
        }
    }
    assert(a != next) by {
        if p + 1 < n {
            vstd::arithmetic::div_mod::lemma_small_mod((p + 1) as nat, n as nat);
            if p + 1 - k >= 0 {
                vstd::arithmetic::div_mod::lemma_mod_add_multiples_vanish(p + 1 - k, n);
                vstd::arithmetic::div_mod::lemma_small_mod((p + 1 - k) as nat, n as nat);
            } else {
                vstd::arithmetic::div_mod::lemma_small_mod((p + 1 + n - k) as nat, n as nat);
            }
        } else {
            vstd::arithmetic::div_mod::lemma_mod_self_0(n);
            vstd::arithmetic::div_mod::lemma_small_mod((n - k) as nat, n as nat);
        }
    }
}

/// Reading as far back as the ring's size gives the newest value again.
pub proof fn law_read_at_size_is_newest<T>(slots: Seq<T>, newest: nat)
    requires
        slots.len() > 0,
        newest < slots.len(),
    ensures
        ring_entry(slots, newest, slots.len()) == ring_entry(slots, newest, 0),
{
    let n = slots.len() as int;
    let p = newest as int;
    assert((p + n - n) % n == (p + n - 0) % n) by {
        vstd::arithmetic::div_mod::lemma_small_mod(p as nat, n as nat);
        vstd::arithmetic::div_mod::lemma_mod_add_multiples_vanish(p, n);
    }
}

/// The slots and newest position of a ring after pushing `values` in order,
/// starting from `slots` with its newest value at `newest`.
pub open spec fn push_all<T>(slots: Seq<T>, newest: nat, values: Seq<T>) -> (Seq<T>, nat)
    decreases values.len(),
{
    if values.len() == 0 {
        (slots, newest)
    } else {
        let (s, p) = push_all(slots, newest, values.drop_last());
        let next = ring_next(s.len(), p);
        (s.update(next as int, values.last()), next)
    }
}

/// Pushing one more value after `values` is one `RingBuffer::push` step
/// from the ring that pushing `values` left.
pub proof fn lemma_push_all_step<T>(slots: Seq<T>, newest: nat, values: Seq<T>, value: T)
    ensures
        push_all(slots, newest, values.push(value)) == ({
            let (s, p) = push_all(slots, newest, values);
            (s.update(ring_next(s.len(), p) as int, value), ring_next(s.len(), p))
        }),
{
    assert(values.push(value).drop_last() =~= values);
}

/// After pushing `values` in order, the value `index` pushes ago is the
/// pushed value that many pushes back, or, further back than the pushes go,
/// the value that was that many pushes back before them.
pub proof fn law_push_history<T>(slots: Seq<T>, newest: nat, values: Seq<T>, index: nat)
    requires
        slots.len() > 0,
        newest < slots.len(),
        index < slots.len(),
    ensures
        push_all(slots, newest, values).0.len() == slots.len(),
        push_all(slots, newest, values).1 < slots.len(),
        ring_entry(push_all(slots, newest, values).0, push_all(slots, newest, values).1, index) == (if index < values.len() {
            values[values.len() - 1 - index]
        } else {
            ring_entry(slots, newest, (index - values.len()) as nat)
        }),
    decreases values.len(),
{
    if values.len() > 0 {
        let prev = values.drop_last();
        let (s, p) = push_all(slots, newest, prev);
        law_push_history(slots, newest, prev, index);
        assert(s.len() == slots.len());
        assert(p < slots.len());
        if index == 0 {
            law_push_then_newest(s, p, values.last());
        } else {
            law_push_history(slots, newest, prev, (index - 1) as nat);
            law_push_shifts_history(s, p, values.last(), index);
            if index < values.len() {
                assert(prev[prev.len() - 1 - (index - 1)] == values[values.len() - 1 - index]);
            }
        }
    }
}

/// In a ring just made of clones of one value `d` (as `RingBuffer::new`
/// makes it, newest position last), after pushing `values` in order the value
/// `index` pushes ago is the pushed value that many pushes back, and, further
/// back than the pushes go, a clone of `d`.
pub proof fn law_new_ring_history<T: Clone>(fill: Seq<T>, d: T, values: Seq<T>, index: nat)
    requires
        fill.len() > 0,
        forall|i: int| 0 <= i < fill.len() ==> cloned::<T>(d, #[trigger] fill[i]),
        index < fill.len(),
    ensures
        index < values.len() ==> ring_entry(push_all(fill, (fill.len() - 1) as nat, values).0,
            push_all(fill, (fill.len() - 1) as nat, values).1, index) == values[values.len() - 1 - index],
        index >= values.len() ==> cloned::<T>(d, ring_entry(push_all(fill, (fill.len() - 1) as nat, values).0,
            push_all(fill, (fill.len() - 1) as nat, values).1, index)),
{
    let newest = (fill.len() - 1) as nat;
    law_push_history(fill, newest, values, index);
    if index >= values.len() {
        let k = (index - values.len()) as nat;
        let slot = ring_slot(fill.len(), newest, k);
        assert(0 <= slot < fill.len()) by {
            vstd::arithmetic::div_mod::lemma_mod_bound(newest + fill.len() - k, fill.len() as int);
        }
        assert(cloned::<T>(d, fill[slot]));
    }
}

/// A fixed-size delay line: `push` writes the next slot, `get(i)` reads the
/// value pushed `i` pushes ago.
#[derive(Clone)]
pub struct RingBuffer<T: Clone + Default> {
    buffer: Vec<T>,
    pos: usize,
}

impl<T: Clone + Default> RingBuffer<T> {
    /// The ring has at least one slot and its newest position is a slot.
    pub closed spec fn well_formed(&self) -> bool {
        &&& self.buffer.len() > 0
        &&& self.pos < self.buffer.len()
    }

    /// A well-formed ring has slots, and its newest position is one of them.
    pub proof fn lemma_well_formed(&self)
        requires
            self.well_formed(),
        ensures
            self.slots().len() > 0,
            self.newest() < self.slots().len(),
    {
    }

    /// The slots of the ring, in storage order.
    pub closed spec fn slots(&self) -> Seq<T> {
        self.buffer@
    }

    /// The slot that holds the newest value.
    pub closed spec fn newest(&self) -> nat {
        self.pos as nat
    }

    /// The value pushed `index` pushes before the newest one.
    pub open spec fn history(&self, index: nat) -> T {
        ring_entry(self.slots(), self.newest(), index)
    }

    /// Creates a ring of `size` clones of a default value whose newest slot
    /// is the last one.
    pub fn new(size: usize) -> (r: Self)
        requires
            size > 0,
        ensures
            r.well_formed(),
            r.slots().len() == size,
            r.newest() == size - 1,
            exists|d: T| is_default(d) && forall|i: int| 0 <= i < size ==> cloned::<T>(d, #[trigger] r.slots()[i]),
    {
        let fill = T::default();
        let ghost d = fill;
        let buffer = vec![fill; size];
        assert(is_default(d) && forall|i: int| 0 <= i < size ==> cloned::<T>(d, #[trigger] buffer@[i]));
        RingBuffer { buffer, pos: size - 1 }
    }

    /// The number of slots.
    pub fn size(&self) -> (r: usize)
        requires
            self.well_formed(),
        ensures
            r == self.slots().len(),
    {
        self.buffer.len()
    }

    /// Writes `value` into the slot after the newest one, which becomes the newest.
    pub fn push(&mut self, value: T)
        requires
            old(self).well_formed(),
        ensures
            final(self).well_formed(),
            final(self).slots().len() == old(self).slots().len(),
            final(self).newest() == ring_next(old(self).slots().len(), old(self).newest()),
            final(self).slots() == old(self).slots().update(final(self).newest() as int, value),
    {
        let len = self.buffer.len();
        let next = (self.pos + 1) % len;
        self.buffer.set(next, value);
        self.pos = next;
    }

    /// Returns a clone of the value pushed `index` pushes ago; `index` may be
    /// as large as the size, which reads the newest value again.
    pub fn get(&self, index: usize) -> (r: T)
        requires
            self.well_formed(),
            index <= self.slots().len(),
        ensures
            cloned::<T>(self.history(index as nat), r),
    {
        let size = self.buffer.len();
        let i = if index <= self.pos {
            self.pos - index
        } else {
            size - (index - self.pos)
        };
        proof {
            let n = size as int;
            let p = self.pos as int;
            let k = index as int;
            if k <= p {
                assert((p + n - k) % n == p - k) by {
                    vstd::arithmetic::div_mod::lemma_mod_add_multiples_vanish(p - k, n);
                    vstd::arithmetic::div_mod::lemma_small_mod((p - k) as nat, n as nat);
                }
            } else {
                assert((p + n - k) % n == n - (k - p)) by {
                    vstd::arithmetic::div_mod::lemma_small_mod((p + n - k) as nat, n as nat);
                }
            }
        }
        self.buffer[i].clone()
    }

    /// Changes the number of slots to `size`, keeping the first slots and
    /// filling new ones with a default value; the newest position is taken
    /// modulo the new size.
    pub fn fast_resize(&mut self, size: usize)
        requires
            old(self).well_formed(),
            size > 0,
        ensures
            final(self).well_formed(),
            final(self).slots().len() == size,
            final(self).newest() == old(self).newest() % (size as nat),
            size <= old(self).slots().len() ==> final(self).slots() == old(self).slots().subrange(0, size as int),
            size > old(self).slots().len() ==> {
                &&& final(self).slots().subrange(0, old(self).slots().len() as int) == old(self).slots()
                &&& exists|d: T| is_default(d) && forall|i: int| old(self).slots().len() <= i < size ==> cloned::<T>(d, #[trigger] final(self).slots()[i])
            },
    {
        let fill = T::default();
        let ghost d = fill;
        self.pos = self.pos % size;
        self.buffer.resize(size, fill);
        proof {
            if size > old(self).slots().len() {
                assert(is_default(d));
                assert(forall|i: int| old(self).slots().len() <= i < size ==> cloned::<T>(d, #[trigger] self.buffer@[i]));
            }
        }
    }
}

} // verus!
