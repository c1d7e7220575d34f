use vstd::prelude::*;

use crate::event_queue::{
    insert_position, is_insert_position, is_latest_due, is_time_ordered, law_push_entries_latest_due,
    law_push_keeps_order, lemma_insert_position, lemma_insert_position_exists, push_entries,
};

verus! {

/// A scheduled change of a parameter, with its values of type `V`.
#[derive(Debug, Clone)]
pub enum Handle<V> {
    /// Jump to `value`.
    SetValue { value: V },
    /// Ramp linearly from the previous value to reach `value`.
    LinearRamp { value: V },
    /// Ramp exponentially from the previous value to reach `value`.
    ExponentialRamp { value: V },
    /// Approach `target` from the time on, with `time_constant`.
    SetTarget { target: V, time_constant: V },
}

impl<V> Handle<V> {
    /// The handle ends a ramp.
    pub open spec fn is_ramp(self) -> bool {
        self is LinearRamp || self is ExponentialRamp
    }

    /// The handle fixes the value at its time: every handle but a target.
    pub open spec fn is_anchor(self) -> bool {
        !(self is SetTarget)
    }
}

/// The last handle below `end` that fixes the value at its time.
pub open spec fn last_anchor<V>(handles: Seq<(u64, Handle<V>)>, end: int) -> Option<int>
    decreases end,
{
    if end <= 0 {
        None
    } else if handles[end - 1].1.is_anchor() {
        Some(end - 1)
    } else {
        last_anchor(handles, end - 1)
    }
}

/// The last anchor below `end`, where there is one, is an anchor below `end`,
/// and every handle after it and below `end` is a target.
pub proof fn lemma_last_anchor<V>(handles: Seq<(u64, Handle<V>)>, end: int)
    requires
        0 <= end <= handles.len(),
    ensures
        match last_anchor(handles, end) {
            Some(i) => 0 <= i < end && handles[i].1.is_anchor() && forall|j: int| i < j < end ==> #[trigger] handles[j].1 is SetTarget,
            None => forall|j: int| 0 <= j < end ==> #[trigger] handles[j].1 is SetTarget,
        },
    decreases end,
{
    if end > 0 && !handles[end - 1].1.is_anchor() {
        lemma_last_anchor(handles, end - 1);
    }
}

/// The value at any time is fixed by a due handle that is no target (or by
/// the value before the timeline), and it moves only along a ramp that is not
/// yet due or toward a target that is due.
pub proof fn law_segment_shape<V>(handles: Seq<(u64, Handle<V>)>, time: u64)
    ensures
        ({
            let due = insert_position(handles, time);
            let (before, after) = segment_spec(handles, time);
            &&& before matches Some(b) ==> 0 <= b < due && handles[b].1.is_anchor() && handles[b].0 <= time
            &&& after matches Some(a) ==> {
                ||| (a == due && handles[a].1.is_ramp() && handles[a].0 > time)
                ||| (a == due - 1 && handles[a].1 is SetTarget && handles[a].0 <= time)
            }
        }),
{
    let due = insert_position(handles, time);
    lemma_insert_position_exists(handles, time);
    lemma_last_anchor(handles, due);
}

/// A timeline of jumps only, scheduled from empty in the order of `calls`
/// (as `set_value_at_time` calls leave it): at `time` the value is fixed by
/// the jump of the latest call due by `time` (of the calls at the latest due
/// time, the one made last), and nothing moves it after; where no call is due
/// yet, no handle fixes it.
pub proof fn law_jumps_hold_latest_due<V>(calls: Seq<(u64, Handle<V>)>, time: u64)
    requires
        forall|i: int| 0 <= i < calls.len() ==> #[trigger] calls[i].1 is SetValue,
    ensures
        segment_spec(push_entries(Seq::empty(), calls), time).1 is None,
        forall|j: int| is_latest_due(calls, time, j) ==> {
            &&& segment_spec(push_entries(Seq::empty(), calls), time).0 matches Some(b)
            &&& push_entries(Seq::empty(), calls)[b] == calls[j]
        },
        (forall|i: int| 0 <= i < calls.len() ==> #[trigger] calls[i].0 > time)
            ==> segment_spec(push_entries(Seq::empty(), calls), time).0 is None,
{
    let h = push_entries(Seq::<(u64, Handle<V>)>::empty(), calls);
    law_push_entries_latest_due(calls, time);
    lemma_insert_position_exists(h, time);
    let due = insert_position(h, time);
    assert forall|k: int| 0 <= k < h.len() implies #[trigger] h[k].1 is SetValue by {
        let i = choose|i: int| 0 <= i < calls.len() && h[k] == calls[i];
        assert(calls[i].1 is SetValue);
    }
    if due > 0 {
        assert(h[due - 1].1 is SetValue);
        assert(last_anchor(h, due) == Some(due - 1));
    }
    if due < h.len() {
        assert(h[due].1 is SetValue);
    }
}

/// Where `time` lies on a ramp, that is, the first change later than `time`
/// is a linear or an exponential ramp, the segment's `after` is that ramp.
/// Else, where the last change due by `time` is a target, `after` is that
/// target, and otherwise nothing moves the value. The segment's `before` is
/// the last due change that is no target, if any.
pub proof fn law_segment_follows_changes<V>(handles: Seq<(u64, Handle<V>)>, time: u64, due: int)
    requires
        is_insert_position(handles, time, due),
    ensures
        due < handles.len() && (handles[due].1 is LinearRamp || handles[due].1 is ExponentialRamp)
            ==> segment_spec(handles, time).1 == Some(due),
        !(due < handles.len() && (handles[due].1 is LinearRamp || handles[due].1 is ExponentialRamp))
            && due > 0 && handles[due - 1].1 is SetTarget ==> segment_spec(handles, time).1 == Some(due - 1),
        !(due < handles.len() && (handles[due].1 is LinearRamp || handles[due].1 is ExponentialRamp))
            && !(due > 0 && handles[due - 1].1 is SetTarget) ==> segment_spec(handles, time).1 is None,
        segment_spec(handles, time).0 matches Some(b) ==> {
            &&& 0 <= b < due
            &&& handles[b].0 <= time
            &&& !(handles[b].1 is SetTarget)
            &&& forall|j: int| b < j < due ==> #[trigger] handles[j].1 is SetTarget
        },
        segment_spec(handles, time).0 is None ==> forall|j: int| 0 <= j < due ==> #[trigger] handles[j].1 is SetTarget,
{
    lemma_insert_position(handles, time, due);
    lemma_last_anchor(handles, due);
}

/// The handles around `time` that decide the parameter's value then.
/// `before` is the last handle due by `time` that fixes a value (`None`:
/// none is, and the value is the one fixed before the timeline began);
/// `after` is the ramp that `time` lies on, or else the target that the value
/// approaches since the last fixed value, if any.
pub struct Segment {
    pub before: Option<usize>,
    pub after: Option<usize>,
}

/// The segment of `handles` that `time` falls in: the handles up to the
/// first one later than `time` count as due.
pub open spec fn segment_spec<V>(handles: Seq<(u64, Handle<V>)>, time: u64) -> (Option<int>, Option<int>) {
    let due = insert_position(handles, time);
    (
        last_anchor(handles, due),
        if due < handles.len() && handles[due].1.is_ramp() {
            Some(due)
        } else if due > 0 && handles[due - 1].1 is SetTarget {
            Some(due - 1)
        } else {
            None
        },
    )
}

/// The change that holds `value` in place of the cancelled change `cancelled`:
/// a ramp of the cancelled kind where a ramp was cancelled, else a jump.
pub fn held_handle<V>(cancelled: &Option<(u64, Handle<V>)>, value: V) -> (r: Handle<V>)
    ensures
        r == (match cancelled {
            Some((_, Handle::LinearRamp { .. })) => Handle::LinearRamp { value },
            Some((_, Handle::ExponentialRamp { .. })) => Handle::ExponentialRamp { value },
            _ => Handle::SetValue { value },
        }),
{
    match cancelled {
        Some((_, Handle::LinearRamp { .. })) => Handle::LinearRamp { value },
        Some((_, Handle::ExponentialRamp { .. })) => Handle::ExponentialRamp { value },
        _ => Handle::SetValue { value },
    }
}

/// An event that the processor receives for a change of the parameter: from
/// `at` on, the parameter holds a value, moves along a ramp, or approaches a
/// target.
pub enum Emission<V> {
    /// From `at` on, the value is `value`.
    Constant { at: u64, value: V },
    /// From `at` on, the value moves linearly from `from` to reach `to` at `until`.
    Linear { at: u64, from: V, until: u64, to: V },
    /// From `at` on, the value moves exponentially from `from` to reach `to` at `until`.
    Exponential { at: u64, from: V, until: u64, to: V },
    /// From `at` on, the value approaches `target` with `time_constant`.
    Target { at: u64, target: V, time_constant: V },
}

/// The value that a change leaves fixed, where `last_value` was fixed
/// before: a target fixes none, so `last_value` stays.
pub open spec fn value_after<V>(last_value: V, handle: Handle<V>) -> V {
    match handle {
        Handle::SetValue { value } => value,
        Handle::LinearRamp { value } => value,
        Handle::ExponentialRamp { value } => value,
        Handle::SetTarget { .. } => last_value,
    }
}

/// The ramp that a change still pending starts at the last change's time
/// `last_time`, from the value `last_value` then: none for a jump or a target.
pub open spec fn ramp_toward<V>(last_time: u64, last_value: V, pending: (u64, Handle<V>)) -> Seq<Emission<V>> {
    match pending.1 {
        Handle::LinearRamp { value } => seq![Emission::Linear { at: last_time, from: last_value, until: pending.0, to: value }],
        Handle::ExponentialRamp { value } => seq![Emission::Exponential { at: last_time, from: last_value, until: pending.0, to: value }],
        _ => Seq::empty(),
    }
}

/// The events that the change `due` emits once its time has come, after the
/// last change took effect at `last_time` with the value `last_value`: a ramp
/// emits its ramp and then its final value.
pub open spec fn due_emissions<V>(last_time: u64, last_value: V, due: (u64, Handle<V>)) -> Seq<Emission<V>> {
    match due.1 {
        Handle::SetValue { value } => seq![Emission::Constant { at: due.0, value }],
        Handle::LinearRamp { value } => ramp_toward(last_time, last_value, due).push(Emission::Constant { at: due.0, value }),
        Handle::ExponentialRamp { value } => ramp_toward(last_time, last_value, due).push(Emission::Constant { at: due.0, value }),
        Handle::SetTarget { target, time_constant } => seq![Emission::Target { at: due.0, target, time_constant }],
    }
}

/// The events that the changes `due` emit in turn, starting after the change
/// `last` with the value `last_value`, with the last change and the value
/// fixed after them.
pub open spec fn emit_all<V>(due: Seq<(u64, Handle<V>)>, last: (u64, Handle<V>), last_value: V) -> (Seq<Emission<V>>, (u64, Handle<V>), V)
    decreases due.len(),
{
    if due.len() == 0 {
        (Seq::empty(), last, last_value)
    } else {
        let (emitted, l, v) = emit_all(due.drop_last(), last, last_value);
        let d = due.last();
        (emitted + due_emissions(l.0, v, d), d, value_after(v, d.1))
    }
}

/// After the changes `due` are taken in turn, the last change is the last one
/// taken (or `last` where none is), and the events are none beyond what came
/// before them, the value unchanged, where none is taken.
pub proof fn law_emit_all_last<V>(due: Seq<(u64, Handle<V>)>, last: (u64, Handle<V>), last_value: V)
    ensures
        due.len() > 0 ==> emit_all(due, last, last_value).1 == due[due.len() - 1],
        due.len() == 0 ==> emit_all(due, last, last_value) == (Seq::<Emission<V>>::empty(), last, last_value),
{
}

/// Taking change `k` after the changes before it: a jump emits its value at
/// its time; a ramp of either kind emits a ramp that starts at the time of the
/// change taken just before it (or of `last`, for the first), from the value
/// fixed then, and reaches the ramp's value at its time, and then that value;
/// a target emits the target at its time and leaves the value as it was. The
/// change taken becomes the last change.
pub proof fn law_emit_step<V>(due: Seq<(u64, Handle<V>)>, last: (u64, Handle<V>), last_value: V, k: int)
    requires
        0 <= k < due.len(),
    ensures
        ({
            let before = emit_all(due.take(k), last, last_value);
            let after = emit_all(due.take(k + 1), last, last_value);
            let start = if k == 0 { last.0 } else { due[k - 1].0 };
            let at = due[k].0;
            &&& after.1 == due[k]
            &&& match due[k].1 {
                Handle::SetValue { value } => after.0 == before.0.push(Emission::Constant { at, value }) && after.2 == value,
                Handle::LinearRamp { value } => after.0 == before.0 + seq![
                    Emission::Linear { at: start, from: before.2, until: at, to: value },
                    Emission::Constant { at, value },
                ] && after.2 == value,
                Handle::ExponentialRamp { value } => after.0 == before.0 + seq![
                    Emission::Exponential { at: start, from: before.2, until: at, to: value },
                    Emission::Constant { at, value },
                ] && after.2 == value,
                Handle::SetTarget { target, time_constant } => after.0 == before.0.push(
                    Emission::Target { at, target, time_constant },
                ) && after.2 == before.2,
            }
        }),
{
    assert(due.take(k + 1).drop_last() =~= due.take(k));
    if k > 0 {
        assert(due.take(k)[k - 1] == due[k - 1]);
        law_emit_all_last(due.take(k), last, last_value);
    }
    let before = emit_all(due.take(k), last, last_value);
    let after = emit_all(due.take(k + 1), last, last_value);
    match due[k].1 {
        Handle::LinearRamp { value } => {
            assert(after.0 =~= before.0 + seq![
                Emission::Linear { at: before.1.0, from: before.2, until: due[k].0, to: value },
                Emission::Constant { at: due[k].0, value },
            ]);
        },
        Handle::ExponentialRamp { value } => {
            assert(after.0 =~= before.0 + seq![
                Emission::Exponential { at: before.1.0, from: before.2, until: due[k].0, to: value },
                Emission::Constant { at: due[k].0, value },
            ]);
        },
        _ => {},
    }
}

/// The first change still pending after the due ones starts its ramp ahead
/// of time where it is a ramp: from the last change's time `last_time` and
/// the value `last_value` then, to reach the ramp's value at its own time. A
/// pending jump or target starts nothing ahead.
pub proof fn law_pending_ramp<V>(last_time: u64, last_value: V, pending: (u64, Handle<V>))
    ensures
        match pending.1 {
            Handle::LinearRamp { value } => ramp_toward(last_time, last_value, pending)
                == seq![Emission::Linear { at: last_time, from: last_value, until: pending.0, to: value }],
            Handle::ExponentialRamp { value } => ramp_toward(last_time, last_value, pending)
                == seq![Emission::Exponential { at: last_time, from: last_value, until: pending.0, to: value }],
            _ => ramp_toward(last_time, last_value, pending).len() == 0,
        },
{
}

/// What `Timeline::take_due` hands back: the events to emit, in order, and
/// the last change with the value fixed after it.
pub struct TakenDue<V> {
    pub emissions: Vec<Emission<V>>,
    pub last: (u64, Handle<V>),
    pub last_value: V,
}

/// An index as an integer.
pub open spec fn index_of(o: Option<usize>) -> Option<int> {
    match o {
        Some(i) => Some(i as int),
        None => None,
    }
}

/// The scheduled changes of a parameter, in order of time; each change goes
/// behind every change whose time is not later than its own.
pub struct Timeline<V> {
    handles: Vec<(u64, Handle<V>)>,
}

impl<V> Timeline<V> {
    /// The scheduled changes with their times, earliest first.
    pub closed spec fn handles(&self) -> Seq<(u64, Handle<V>)> {
        self.handles@
    }

    /// No change scheduled.
    pub fn new() -> (r: Self)
        ensures
            r.handles() == Seq::<(u64, Handle<V>)>::empty(),
            is_time_ordered(r.handles()),
    {
        Timeline { handles: Vec::new() }
    }

    /// Schedules `handle` at `time`, in front of the first change that is
    /// later, or at the back where none is.
    pub fn push_handle(&mut self, time: u64, handle: Handle<V>)
        ensures
            final(self).handles() == old(self).handles().insert(insert_position(old(self).handles(), time), (time, handle)),
            is_time_ordered(old(self).handles()) ==> is_time_ordered(final(self).handles()),
    {
        proof {
            lemma_insert_position_exists(old(self).handles(), time);
            if is_time_ordered(old(self).handles()) {
                law_push_keeps_order(old(self).handles(), time, handle, insert_position(old(self).handles(), time));
            }
        }
        let len = self.handles.len();
        let mut i: usize = 0;
        while i < len
            invariant
                len == self.handles@.len(),
                self.handles@ == old(self).handles@,
                i <= len,
                forall|j: int| 0 <= j < i ==> #[trigger] self.handles@[j].0 <= time,
            decreases len - i,
        {
            if self.handles[i].0 > time {
                self.handles.insert(i, (time, handle));
                proof {
                    lemma_insert_position(old(self).handles(), time, i as int);
                }
                return;
            }
            i += 1;
        }
        self.handles.push((time, handle));
        proof {
            lemma_insert_position(old(self).handles(), time, len as int);
            assert(self.handles@ =~= old(self).handles().insert(len as int, (time, handle)));
        }
    }

    /// Drops every change later than `time` and returns the earliest of the
    /// dropped ones, or `None` where none is later.
    pub fn cancel_scheduled_values(&mut self, time: u64) -> (r: Option<(u64, Handle<V>)>)
        ensures
            ({
                let cut = insert_position(old(self).handles(), time);
                &&& final(self).handles() == old(self).handles().subrange(0, cut)
                &&& cut < old(self).handles().len() ==> r == Some(old(self).handles()[cut])
                &&& cut == old(self).handles().len() ==> r == None::<(u64, Handle<V>)>
            }),
            is_time_ordered(old(self).handles()) ==> is_time_ordered(final(self).handles()),
    {
        let len = self.handles.len();
        let mut i: usize = 0;
        while i < len
            invariant
                len == self.handles@.len(),
                self.handles@ == old(self).handles@,
                i <= len,
                forall|j: int| 0 <= j < i ==> #[trigger] self.handles@[j].0 <= time,
            decreases len - i,
        {
            if self.handles[i].0 > time {
                proof {
                    lemma_insert_position(old(self).handles(), time, i as int);
                }
                let mut dropped = self.handles.split_off(i);
                let first = dropped.remove(0);
                return Some(first);
            }
            i += 1;
        }
        proof {
            lemma_insert_position(old(self).handles(), time, len as int);
            assert(self.handles@ =~= old(self).handles().subrange(0, len as int));
        }
        None
    }

    /// The handles that decide the value at `time` (see [`Segment`]).
    pub fn segment(&self, time: u64) -> (r: Segment)
        ensures
            (index_of(r.before), index_of(r.after)) == segment_spec(self.handles(), time),
    {
        let len = self.handles.len();
        let mut before: Option<usize> = None;
        let mut after: Option<usize> = None;
        let mut i: usize = 0;
        while i < len
            invariant
                len == self.handles@.len(),
                i <= len,
                forall|j: int| 0 <= j < i ==> #[trigger] self.handles@[j].0 <= time,
                index_of(before) == last_anchor(self.handles@, i as int),
                index_of(after) == (if i > 0 && self.handles@[i - 1].1 is SetTarget { Some(i - 1) } else { None::<int> }),
            decreases len - i,
        {
            if time < self.handles[i].0 {
                match self.handles[i].1 {
                    Handle::LinearRamp { .. } | Handle::ExponentialRamp { .. } => {
                        after = Some(i);
                    },
                    _ => {},
                }
                proof {
                    lemma_insert_position(self.handles@, time, i as int);
                }
                return Segment { before, after };
            }
            match self.handles[i].1 {
                Handle::SetTarget { .. } => {
                    after = Some(i);
                },
                _ => {
                    before = Some(i);
                    after = None;
                },
            }
            i += 1;
        }
        proof {
            lemma_insert_position(self.handles@, time, len as int);
        }
        Segment { before, after }
    }

    /// The number of scheduled changes.
    pub fn len(&self) -> (r: usize)
        ensures
            r == self.handles().len(),
    {
        self.handles.len()
    }

    /// The scheduled change at `index`, in order of time.
    pub fn get(&self, index: usize) -> (r: &(u64, Handle<V>))
        requires
            index < self.handles().len(),
        ensures
            *r == self.handles()[index as int],
    {
        &self.handles[index]
    }

    /// The earliest scheduled change, if any.
    pub fn first(&self) -> (r: Option<&(u64, Handle<V>)>)
        ensures
            self.handles().len() == 0 ==> r == None::<&(u64, Handle<V>)>,
            self.handles().len() > 0 ==> r == Some(&self.handles()[0]),
    {
        if self.handles.len() == 0 {
            None
        } else {
            Some(&self.handles[0])
        }
    }

    /// Takes every change due by `end_time` off the front of the timeline and
    /// returns the events they emit in turn (see [`due_emissions`]), starting
    /// after the change `last` that left `last_value`; then the ramp that the
    /// first change still pending starts, if it is a ramp. Also returns the
    /// last change taken (else `last`) and the value fixed after it.
    pub fn take_due(&mut self, end_time: u64, last: (u64, Handle<V>), last_value: V) -> (r: TakenDue<V>)
        where V: Copy
        ensures
            ({
                let cut = insert_position(old(self).handles(), end_time);
                let (emitted, l, v) = emit_all(old(self).handles().subrange(0, cut), last, last_value);
                &&& final(self).handles() == old(self).handles().subrange(cut, old(self).handles().len() as int)
                &&& r.last == l
                &&& r.last_value == v
                &&& r.emissions@ == (if cut < old(self).handles().len() {
                    emitted + ramp_toward(l.0, v, old(self).handles()[cut])
                } else {
                    emitted
                })
            }),
            is_time_ordered(old(self).handles()) ==> is_time_ordered(final(self).handles()),
    {
        let ghost h = old(self).handles();
        let ghost start = last;
        let mut emissions: Vec<Emission<V>> = Vec::new();
        let mut last = last;
        let mut value = last_value;
        let ghost mut taken: int = 0;
        loop
            invariant_except_break
                0 <= taken <= h.len(),
                self.handles() == h.subrange(taken, h.len() as int),
                forall|j: int| 0 <= j < taken ==> #[trigger] h[j].0 <= end_time,
                (emissions@, last, value) == emit_all(h.subrange(0, taken), start, last_value),
                is_time_ordered(h) ==> is_time_ordered(self.handles()),
            ensures
                0 <= taken <= h.len(),
                self.handles() == h.subrange(taken, h.len() as int),
                is_insert_position(h, end_time, taken),
                (emissions@, last, value) == emit_all(h.subrange(0, taken), start, last_value),
                is_time_ordered(h) ==> is_time_ordered(self.handles()),
            decreases self.handles().len(),
        {
            match self.pop_due(end_time) {
                Some(due) => {
                    proof {
                        assert(due == h[taken]);
                        let prefix = h.subrange(0, taken + 1);
                        assert(prefix.drop_last() =~= h.subrange(0, taken));
                        assert(prefix.last() == due);
                    }
                    match due.1 {
                        Handle::SetValue { value: v } => {
                            emissions.push(Emission::Constant { at: due.0, value: v });
                            value = v;
                        },
                        Handle::LinearRamp { value: v } => {
                            emissions.push(Emission::Linear { at: last.0, from: value, until: due.0, to: v });
                            emissions.push(Emission::Constant { at: due.0, value: v });
                            value = v;
                        },
                        Handle::ExponentialRamp { value: v } => {
                            emissions.push(Emission::Exponential { at: last.0, from: value, until: due.0, to: v });
                            emissions.push(Emission::Constant { at: due.0, value: v });
                            value = v;
                        },
                        Handle::SetTarget { target, time_constant } => {
                            emissions.push(Emission::Target { at: due.0, target, time_constant });
                        },
                    }
                    last = due;
                    proof {
                        taken = taken + 1;
                        assert(self.handles() =~= h.subrange(taken, h.len() as int));
                    }
                },
                None => {
                    break;
                },
            }
        }
        proof {
            lemma_insert_position(h, end_time, taken);
        }
        match self.first() {
            Some(pending) => {
                proof {
                    assert(*pending == h[taken]);
                }
                match pending.1 {
                    Handle::LinearRamp { value: v } => {
                        emissions.push(Emission::Linear { at: last.0, from: value, until: pending.0, to: v });
                    },
                    Handle::ExponentialRamp { value: v } => {
                        emissions.push(Emission::Exponential { at: last.0, from: value, until: pending.0, to: v });
                    },
                    _ => {},
                }
            },
            None => {},
        }
        proof {
            if taken < h.len() {
                assert(emissions@ =~= emit_all(h.subrange(0, taken), start, last_value).0 + ramp_toward(last.0, value, h[taken]));
            }
        }
        TakenDue { emissions, last, last_value: value }
    }

    /// Takes the earliest change off the timeline if its time is not later
    /// than `end_time`, and returns it; else leaves the timeline as it is.
    pub fn pop_due(&mut self, end_time: u64) -> (r: Option<(u64, Handle<V>)>)
        ensures
            match r {
                Some(entry) => {
                    &&& old(self).handles().len() > 0
                    &&& entry == old(self).handles()[0]
                    &&& entry.0 <= end_time
                    &&& final(self).handles() == old(self).handles().subrange(1, old(self).handles().len() as int)
                },
                None => {
                    &&& (old(self).handles().len() == 0 || end_time < old(self).handles()[0].0)
                    &&& final(self).handles() == old(self).handles()
                },
            },
            is_time_ordered(old(self).handles()) ==> is_time_ordered(final(self).handles()),
    {
        if self.handles.len() == 0 {
            return None;
        }
        if end_time < self.handles[0].0 {
            return None;
        }
        let first = self.handles.remove(0);
        Some(first)
    }
}

} // verus!
