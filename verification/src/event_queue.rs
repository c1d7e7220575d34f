use std::collections::VecDeque;
use vstd::prelude::*;

verus! {

/// `index` is where an entry at `time` goes: after every entry whose time is
/// not later than `time`, and before the first entry whose time is later.
pub open spec fn is_insert_position<T>(entries: Seq<(u64, T)>, time: u64, index: int) -> bool {
    &&& 0 <= index <= entries.len()
    &&& index < entries.len() ==> entries[index].0 > time
    &&& forall|j: int| 0 <= j < index ==> #[trigger] entries[j].0 <= time
}

/// Where an entry at `time` goes in `entries`.
pub open spec fn insert_position<T>(entries: Seq<(u64, T)>, time: u64) -> int {
    choose|index: int| is_insert_position(entries, time, index)
}

/// Only one index is the insert position.
pub proof fn lemma_insert_position<T>(entries: Seq<(u64, T)>, time: u64, index: int)
    requires
        is_insert_position(entries, time, index),
    ensures
        insert_position(entries, time) == index,
{
    let other = insert_position(entries, time);
    assert(is_insert_position(entries, time, other));
    if other < index {
        assert(entries[other].0 <= time);
    } else if index < other {
        assert(entries[index].0 <= time);
    }
}

/// Every queue has an insert position for every time.
pub proof fn lemma_insert_position_exists<T>(entries: Seq<(u64, T)>, time: u64)
    ensures
        is_insert_position(entries, time, insert_position(entries, time)),
{
    lemma_insert_position_from(entries, time, 0);
}

proof fn lemma_insert_position_from<T>(entries: Seq<(u64, T)>, time: u64, i: int)
    requires
        0 <= i <= entries.len(),
        forall|j: int| 0 <= j < i ==> #[trigger] entries[j].0 <= time,
    ensures
        is_insert_position(entries, time, insert_position(entries, time)),
    decreases entries.len() - i,
{
    if i < entries.len() && entries[i].0 <= time {
        lemma_insert_position_from(entries, time, i + 1);
    } else {
        lemma_insert_position(entries, time, i);
    }
}

/// The entries are in order of time.
pub open spec fn is_time_ordered<T>(entries: Seq<(u64, T)>) -> bool {
    forall|i: int, j: int| 0 <= i <= j < entries.len() ==> entries[i].0 <= entries[j].0
}

/// Inserting at the insert position keeps a time-ordered queue in order, and
/// every entry whose time is not later than the new one stays ahead of it.
pub proof fn law_push_keeps_order<T>(entries: Seq<(u64, T)>, time: u64, event: T, index: int)
    requires
        is_time_ordered(entries),
        is_insert_position(entries, time, index),
    ensures
        is_time_ordered(entries.insert(index, (time, event))),
        forall|j: int| 0 <= j < entries.len() && entries[j].0 <= time ==> j < index,
{
    let e = entries.insert(index, (time, event));
    assert forall|i: int, j: int| 0 <= i <= j < e.len() implies e[i].0 <= e[j].0 by {
        if i < index {
            assert(e[i] == entries[i]);
        }
        if j > index {
            assert(e[j] == entries[j - 1]);
            if index < entries.len() {
                assert(entries[index].0 <= entries[j - 1].0);
            }
        }
        if i > index {
            assert(e[i] == entries[i - 1]);
        }
        if j < index {
            assert(e[j] == entries[j]);
        }
    }
    assert forall|j: int| 0 <= j < entries.len() && entries[j].0 <= time implies j < index by {
        if j >= index {
            assert(entries[index].0 <= entries[j].0);
        }
    }
}

/// Taking the front entry off a time-ordered queue leaves it in order, and
/// the front entry is no later than any that remains.
pub proof fn law_pop_front_is_earliest<T>(entries: Seq<(u64, T)>)
    requires
        is_time_ordered(entries),
        entries.len() > 0,
    ensures
        is_time_ordered(entries.subrange(1, entries.len() as int)),
        forall|j: int| 0 <= j < entries.len() ==> entries[0].0 <= #[trigger] entries[j].0,
{
}

/// The entries after pushing each of `calls` in order at its insert position,
/// starting from `entries`.
pub open spec fn push_entries<T>(entries: Seq<(u64, T)>, calls: Seq<(u64, T)>) -> Seq<(u64, T)>
    decreases calls.len(),
{
    if calls.len() == 0 {
        entries
    } else {
        let h = push_entries(entries, calls.drop_last());
        h.insert(insert_position(h, calls.last().0), calls.last())
    }
}

/// Pushing one more entry after `calls` is one push at its insert position
/// into what pushing `calls` left.
pub proof fn lemma_push_entries_step<T>(entries: Seq<(u64, T)>, calls: Seq<(u64, T)>, time: u64, event: T)
    ensures
        push_entries(entries, calls.push((time, event))) == ({
            let h = push_entries(entries, calls);
            h.insert(insert_position(h, time), (time, event))
        }),
{
    assert(calls.push((time, event)).drop_last() =~= calls);
}

/// Call `j` is the latest of `calls` due by `time`: its time is the latest
/// that is not later than `time`, and no later call has that same time.
pub open spec fn is_latest_due<T>(calls: Seq<(u64, T)>, time: u64, j: int) -> bool {
    &&& 0 <= j < calls.len()
    &&& calls[j].0 <= time
    &&& forall|i: int| 0 <= i < calls.len() && #[trigger] calls[i].0 <= time ==> calls[i].0 <= calls[j].0
    &&& forall|i: int| j < i < calls.len() && #[trigger] calls[i].0 <= time ==> calls[i].0 < calls[j].0
}

/// The last entry of `h` due by `time` is the latest call due by `time`, and
/// none is due where no call is.
pub open spec fn tracks_latest_due<T>(h: Seq<(u64, T)>, calls: Seq<(u64, T)>, time: u64) -> bool {
    let due = insert_position(h, time);
    &&& (due == 0) == (forall|i: int| 0 <= i < calls.len() ==> #[trigger] calls[i].0 > time)
    &&& due > 0 ==> exists|j: int| is_latest_due(calls, time, j)
    &&& forall|j: int| is_latest_due(calls, time, j) ==> due > 0 && h[due - 1] == calls[j]
}

/// A latest due call of `calls` that is not the pushed one is a latest due
/// call of the calls before.
proof fn lemma_latest_due_of_prefix<T>(prev: Seq<(u64, T)>, c: (u64, T), time: u64, j: int)
    requires
        is_latest_due(prev.push(c), time, j),
        j < prev.len(),
    ensures
        is_latest_due(prev, time, j),
{
    let calls = prev.push(c);
    assert forall|i: int| 0 <= i < prev.len() && #[trigger] prev[i].0 <= time implies prev[i].0 <= prev[j].0 by {
        assert(calls[i] == prev[i]);
    }
    assert forall|i: int| j < i < prev.len() && #[trigger] prev[i].0 <= time implies prev[i].0 < prev[j].0 by {
        assert(calls[i] == prev[i]);
    }
}

/// A latest due call of the calls before a push stays the latest due where
/// the pushed call is not due or is due earlier.
proof fn lemma_latest_due_kept<T>(prev: Seq<(u64, T)>, c: (u64, T), time: u64, j: int)
    requires
        is_latest_due(prev, time, j),
        c.0 <= time ==> c.0 < prev[j].0,
    ensures
        is_latest_due(prev.push(c), time, j),
{
    let calls = prev.push(c);
    assert forall|i: int| 0 <= i < calls.len() && #[trigger] calls[i].0 <= time implies calls[i].0 <= calls[j].0 by {
        if i < prev.len() {
            assert(prev[i].0 <= time);
        }
    }
    assert forall|i: int| j < i < calls.len() && #[trigger] calls[i].0 <= time implies calls[i].0 < calls[j].0 by {
        if i < prev.len() {
            assert(prev[i].0 <= time);
        }
    }
}

/// The step of the law below for a pushed call that is not due by `time`.
#[verifier::spinoff_prover]
proof fn lemma_tracks_step_late<T>(h0: Seq<(u64, T)>, prev: Seq<(u64, T)>, c: (u64, T), time: u64)
    requires
        is_time_ordered(h0),
        h0.len() == prev.len(),
        tracks_latest_due(h0, prev, time),
        c.0 > time,
    ensures
        tracks_latest_due(h0.insert(insert_position(h0, c.0), c), prev.push(c), time),
{
    let calls = prev.push(c);
    let n = prev.len() as int;
    lemma_insert_position_exists(h0, c.0);
    lemma_insert_position_exists(h0, time);
    let p = insert_position(h0, c.0);
    let d0 = insert_position(h0, time);
    let h = h0.insert(p, c);
    if p < d0 {
        assert(h0[p].0 <= time);
    }
    assert(is_insert_position(h, time, d0)) by {
        assert forall|j: int| 0 <= j < d0 implies #[trigger] h[j].0 <= time by {
            assert(h[j] == h0[j]);
        }
        if d0 < h.len() {
            if d0 < p {
                assert(h[d0] == h0[d0]);
            } else if d0 > p {
                assert(h[d0] == h0[d0 - 1]);
            }
        }
    }
    lemma_insert_position(h, time, d0);
    if d0 > 0 {
        assert(h[d0 - 1] == h0[d0 - 1]);
        let j0 = choose|j: int| is_latest_due(prev, time, j);
        lemma_latest_due_kept(prev, c, time, j0);
    } else {
        assert forall|i: int| 0 <= i < calls.len() implies #[trigger] calls[i].0 > time by {
            if i < n {
                assert(prev[i] == calls[i]);
            }
        }
    }
    assert forall|j: int| is_latest_due(calls, time, j) implies d0 > 0 && h[d0 - 1] == calls[j] by {
        assert(j != n);
        lemma_latest_due_of_prefix(prev, c, time, j);
    }
}

/// The step of the law below for a pushed call that is due by `time`.
#[verifier::spinoff_prover]
proof fn lemma_tracks_step_due<T>(h0: Seq<(u64, T)>, prev: Seq<(u64, T)>, c: (u64, T), time: u64)
    requires
        is_time_ordered(h0),
        h0.len() == prev.len(),
        tracks_latest_due(h0, prev, time),
        c.0 <= time,
    ensures
        tracks_latest_due(h0.insert(insert_position(h0, c.0), c), prev.push(c), time),
{
    let calls = prev.push(c);
    let n = prev.len() as int;
    lemma_insert_position_exists(h0, c.0);
    lemma_insert_position_exists(h0, time);
    let p = insert_position(h0, c.0);
    let d0 = insert_position(h0, time);
    let h = h0.insert(p, c);
    if p > d0 {
        assert(h0[d0].0 <= c.0);
    }
    assert(is_insert_position(h, time, d0 + 1)) by {
        assert forall|j: int| 0 <= j < d0 + 1 implies #[trigger] h[j].0 <= time by {
            if j < p {
                assert(h[j] == h0[j]);
            } else if j > p {
                assert(h[j] == h0[j - 1]);
            }
        }
        if d0 + 1 < h.len() {
            assert(h[d0 + 1] == h0[d0]);
        }
    }
    lemma_insert_position(h, time, d0 + 1);
    assert(calls[n] == c);
    if d0 == 0 {
        assert(p == 0);
        assert forall|i: int| 0 <= i < calls.len() && #[trigger] calls[i].0 <= time implies i == n by {
            if i < n {
                assert(prev[i] == calls[i]);
            }
        }
        assert(is_latest_due(calls, time, n));
        assert(h[0] == c);
    } else {
        let j0 = choose|j: int| is_latest_due(prev, time, j);
        let m = prev[j0].0;
        if c.0 >= m {
            if p < d0 {
                assert(h0[p].0 <= h0[d0 - 1].0);
            }
            assert(p == d0);
            assert(h[d0] == c);
            assert forall|i: int| 0 <= i < calls.len() && #[trigger] calls[i].0 <= time implies calls[i].0 <= calls[n].0 by {
                if i < n {
                    assert(prev[i] == calls[i]);
                    assert(prev[i].0 <= m);
                }
            }
            assert(is_latest_due(calls, time, n));
            assert forall|j: int| is_latest_due(calls, time, j) implies j == n by {
                if j < n {
                    assert(prev[j] == calls[j]);
                    assert(prev[j].0 <= m);
                }
            }
        } else {
            if p >= d0 {
                assert(h0[d0 - 1].0 <= c.0);
            }
            assert(h[d0] == h0[d0 - 1]);
            lemma_latest_due_kept(prev, c, time, j0);
            assert forall|j: int| is_latest_due(calls, time, j) implies h[d0] == calls[j] by {
                if j == n {
                    assert(calls[j0].0 <= time);
                } else {
                    lemma_latest_due_of_prefix(prev, c, time, j);
                }
            }
        }
    }
}

/// Pushing `calls` in order into an empty queue leaves them in order of time,
/// each entry one of the calls, and the last entry due by `time` is the
/// latest call due by `time`: of the calls with the latest due time, the one
/// made last. No entry is due where no call is.
pub proof fn law_push_entries_latest_due<T>(calls: Seq<(u64, T)>, time: u64)
    ensures
        is_time_ordered(push_entries(Seq::empty(), calls)),
        push_entries(Seq::empty(), calls).len() == calls.len(),
        forall|k: int| 0 <= k < calls.len()
            ==> exists|i: int| 0 <= i < calls.len() && #[trigger] push_entries(Seq::empty(), calls)[k] == calls[i],
        tracks_latest_due(push_entries(Seq::empty(), calls), calls, time),
    decreases calls.len(),
{
    let h = push_entries(Seq::<(u64, T)>::empty(), calls);
    if calls.len() == 0 {
        assert(h.len() == 0);
        lemma_insert_position(h, time, 0);
    } else {
        let n = calls.len() - 1;
        let prev = calls.drop_last();
        let c = calls.last();
        assert(calls =~= prev.push(c));
        let h0 = push_entries(Seq::<(u64, T)>::empty(), prev);
        law_push_entries_latest_due(prev, time);
        lemma_insert_position_exists(h0, c.0);
        let p = insert_position(h0, c.0);
        law_push_keeps_order(h0, c.0, c.1, p);
        assert(h == h0.insert(p, c));
        assert forall|k: int| 0 <= k < calls.len() implies exists|i: int| 0 <= i < calls.len() && #[trigger] h[k] == calls[i] by {
            if k < p {
                let i = choose|i: int| 0 <= i < prev.len() && h0[k] == prev[i];
                assert(h[k] == calls[i]);
            } else if k == p {
                assert(h[k] == calls[n]);
            } else {
                let i = choose|i: int| 0 <= i < prev.len() && h0[k - 1] == prev[i];
                assert(h[k] == calls[i]);
            }
        }
        if c.0 <= time {
            lemma_tracks_step_due(h0, prev, c, time);
        } else {
            lemma_tracks_step_late(h0, prev, c, time);
        }
    }
}

/// Events ordered by a time key. An event goes behind every event whose time
/// is not later than its own, and events leave from the front once their time
/// has come.
pub struct EventQueue<T> {
    queue: VecDeque<(u64, T)>,
}

impl<T> EventQueue<T> {
    /// The queued events with their times, front first.
    pub closed spec fn entries(&self) -> Seq<(u64, T)> {
        self.queue@
    }

    /// An empty queue.
    pub fn new() -> (r: Self)
        ensures
            r.entries() == Seq::<(u64, T)>::empty(),
            is_time_ordered(r.entries()),
    {
        EventQueue { queue: VecDeque::new() }
    }

    /// Inserts `event` at `time` in front of the first event whose time is
    /// later, or at the back where no event is later.
    pub fn push(&mut self, time: u64, event: T)
        ensures
            is_insert_position(old(self).entries(), time, insert_position(old(self).entries(), time)),
            final(self).entries() == old(self).entries().insert(insert_position(old(self).entries(), time), (time, event)),
            is_time_ordered(old(self).entries()) ==> is_time_ordered(final(self).entries()),
    {
        proof {
            lemma_insert_position_exists(old(self).entries(), time);
            if is_time_ordered(old(self).entries()) {
                law_push_keeps_order(old(self).entries(), time, event, insert_position(old(self).entries(), time));
            }
        }
        let len = self.queue.len();
        let mut i: usize = 0;
        while i < len
            invariant
                len == self.queue@.len(),
                self.queue@ == old(self).queue@,
                i <= len,
                forall|j: int| 0 <= j < i ==> #[trigger] self.queue@[j].0 <= time,
            decreases len - i,
        {
            if self.queue[i].0 > time {
                self.queue.insert(i, (time, event));
                proof {
                    lemma_insert_position(old(self).entries(), time, i as int);
                }
                return;
            }
            i += 1;
        }
        self.queue.push_back((time, event));
        proof {
            lemma_insert_position(old(self).entries(), time, len as int);
        }
        assert(self.queue@ =~= old(self).entries().insert(len as int, (time, event)));
    }

    /// The number of queued events.
    pub fn len(&self) -> (r: usize)
        ensures
            r == self.entries().len(),
    {
        self.queue.len()
    }

    /// Takes the front event off the queue if its time is not later than
    /// `current_time`, and returns it with its time; else leaves the queue as
    /// it is and returns `None`.
    pub fn pop_due(&mut self, current_time: u64) -> (r: Option<(u64, T)>)
        ensures
            match r {
                Some(entry) => {
                    &&& old(self).entries().len() > 0
                    &&& entry == old(self).entries()[0]
                    &&& entry.0 <= current_time
                    &&& final(self).entries() == old(self).entries().subrange(1, old(self).entries().len() as int)
                },
                None => {
                    &&& (old(self).entries().len() == 0 || current_time < old(self).entries()[0].0)
                    &&& final(self).entries() == old(self).entries()
                },
            },
            is_time_ordered(old(self).entries()) ==> is_time_ordered(final(self).entries()),
    {
        if self.queue.len() == 0 {
            return None;
        }
        if current_time < self.queue[0].0 {
            return None;
        }
        self.queue.pop_front()
    }
}

} // verus!
