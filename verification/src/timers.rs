//! The timers: wake-ups that the guest scheduled, in the order in which they
//! come due, and the set of those that were not cancelled.
//!
//! A cancelled timer stays in the queue until its turn comes, and is then
//! dropped without firing. The queue is a vector sorted with the latest
//! entry first, so that the earliest is taken from its end.

use vstd::prelude::*;
use fnv::FnvHashSet;
use std::cmp::Ordering;

verus! {

/// The hasher of `fnv`, which the set of pending identifiers is built on.
#[verifier::external_type_specification]
#[verifier::external_body]
pub struct ExFnvHasher(fnv::FnvHasher);

/// The builder that makes a hasher by `Default`.
#[verifier::external_type_specification]
#[verifier::external_body]
#[verifier::reject_recursive_types(H)]
pub struct ExBuildHasherDefault<H>(core::hash::BuildHasherDefault<H>);

/// The nanoseconds in a millisecond.
pub const NANOS_PER_MILLISECOND: u64 = 1_000_000;

/// A scheduled wake-up: the virtual time at which it comes due, and its
/// identifier.
#[derive(Clone, Copy, Debug, PartialEq, Eq, Structural)]
pub struct TimeoutInfo {
    pub time: u64,
    pub id: u32,
}

impl TimeoutInfo {
    /// Whether this wake-up comes due before `other`: at an earlier time, or
    /// at the same time with a smaller identifier.
    pub open spec fn due_before(self, other: TimeoutInfo) -> bool {
        self.time < other.time || (self.time == other.time && self.id < other.id)
    }

    /// Whether this wake-up comes due before `other`.
    pub fn is_due_before(&self, other: &TimeoutInfo) -> (before: bool)
        ensures
            before == self.due_before(*other),
    {
        self.time < other.time || (self.time == other.time && self.id < other.id)
    }

    /// Orders wake-ups for a queue that hands out its greatest entry first:
    /// the one that comes due earlier is the greater.
    pub fn cmp(&self, other: &TimeoutInfo) -> (order: Ordering)
        ensures
            order == Ordering::Greater <==> self.due_before(*other),
            order == Ordering::Less <==> other.due_before(*self),
            order == Ordering::Equal <==> *self == *other,
    {
        if self.time < other.time {
            Ordering::Greater
        } else if self.time > other.time {
            Ordering::Less
        } else if self.id < other.id {
            Ordering::Greater
        } else if self.id > other.id {
            Ordering::Less
        } else {
            Ordering::Equal
        }
    }

    /// The order of `cmp`, which is total.
    pub fn partial_cmp(&self, other: &TimeoutInfo) -> (order: Option<Ordering>)
        ensures
            order is Some,
            order == Some(Ordering::Greater) <==> self.due_before(*other),
            order == Some(Ordering::Less) <==> other.due_before(*self),
            order == Some(Ordering::Equal) <==> *self == *other,
    {
        Some(self.cmp(other))
    }
}

/// The time at which a wake-up comes due that is scheduled at `now` with a
/// delay of `delay_ms` milliseconds: the sum in nanoseconds, or the largest
/// time where the sum does not fit.
pub open spec fn fire_time(now: u64, delay_ms: u64) -> u64 {
    if delay_ms * NANOS_PER_MILLISECOND + now > u64::MAX {
        u64::MAX
    } else {
        (delay_ms * NANOS_PER_MILLISECOND + now) as u64
    }
}

/// The number of leading entries of `queue` that come due before `entry`.
pub open spec fn entries_before(queue: Seq<TimeoutInfo>, entry: TimeoutInfo) -> int
    decreases queue.len(),
{
    if queue.len() == 0 || !queue[0].due_before(entry) {
        0
    } else {
        1 + entries_before(queue.skip(1), entry)
    }
}

/// The number of leading entries of `queue` whose identifier is not in
/// `pending`.
pub open spec fn cancelled_prefix(queue: Seq<TimeoutInfo>, pending: Set<u32>) -> int
    decreases queue.len(),
{
    if queue.len() == 0 || pending.contains(queue[0].id) {
        0
    } else {
        1 + cancelled_prefix(queue.skip(1), pending)
    }
}

/// The timers as a table: the queue with the earliest wake-up first, the
/// identifiers that were scheduled and not cancelled, and the identifier that
/// the next wake-up gets.
pub struct TimerModel {
    pub queue: Seq<TimeoutInfo>,
    pub pending: Set<u32>,
    pub next_id: u32,
}

impl TimerModel {
    /// Whether the queue is in due order.
    pub open spec fn sorted(self) -> bool {
        forall|i: int, j: int|
            0 <= i < j < self.queue.len() ==> !(#[trigger] self.queue[j]).due_before(
                #[trigger] self.queue[i],
            )
    }

    /// The timers' invariant: the queue is in due order, and every identifier
    /// in the queue or pending was handed out.
    pub open spec fn wf(self) -> bool {
        &&& self.sorted()
        &&& forall|i: int| 0 <= i < self.queue.len() ==> (#[trigger] self.queue[i]).id < self.next_id
        &&& forall|id: u32| #[trigger] self.pending.contains(id) ==> id < self.next_id
    }

    /// No timers.
    pub open spec fn empty() -> TimerModel {
        TimerModel { queue: Seq::empty(), pending: Set::empty(), next_id: 0 }
    }

    /// Whether an identifier is left for one more wake-up.
    pub open spec fn can_schedule(self) -> bool {
        self.next_id < u32::MAX
    }

    /// The wake-up that scheduling at `now` with `delay_ms` adds.
    pub open spec fn scheduled_entry(self, now: u64, delay_ms: u64) -> TimeoutInfo {
        TimeoutInfo { time: fire_time(now, delay_ms), id: self.next_id }
    }

    /// The timers after a wake-up was scheduled: it stands in the queue
    /// behind every entry that comes due before it, and its identifier is
    /// pending.
    pub open spec fn schedule(self, now: u64, delay_ms: u64) -> TimerModel {
        let entry = self.scheduled_entry(now, delay_ms);
        TimerModel {
            queue: self.queue.insert(entries_before(self.queue, entry), entry),
            pending: self.pending.insert(self.next_id),
            next_id: (self.next_id + 1) as u32,
        }
    }

    /// The timers after `id` was cancelled: it is no longer pending, and the
    /// queue is as it was.
    pub open spec fn cancel(self, id: u32) -> TimerModel {
        TimerModel { pending: self.pending.remove(id), ..self }
    }

    /// Whether the wake-up that was delivered last has to be delivered again:
    /// there is one, and its identifier is still pending.
    pub open spec fn fires_again(self, current: Option<TimeoutInfo>) -> bool {
        current matches Some(info) && self.pending.contains(info.id)
    }

    /// The wake-up to deliver next, given the one that was delivered last:
    /// that one again while it is pending, else the earliest entry of the
    /// queue that is pending, or none where the queue holds no such entry.
    pub open spec fn due(self, current: Option<TimeoutInfo>) -> Option<TimeoutInfo> {
        if self.fires_again(current) {
            current
        } else if cancelled_prefix(self.queue, self.pending) < self.queue.len() {
            Some(self.queue[cancelled_prefix(self.queue, self.pending)])
        } else {
            None
        }
    }

    /// The timers after the next wake-up was taken: where the last one fires
    /// again nothing changes, else the queue loses its cancelled leading
    /// entries and the entry that is delivered.
    pub open spec fn after_due(self, current: Option<TimeoutInfo>) -> TimerModel {
        if self.fires_again(current) {
            self
        } else if cancelled_prefix(self.queue, self.pending) < self.queue.len() {
            TimerModel {
                queue: self.queue.skip(cancelled_prefix(self.queue, self.pending) + 1),
                ..self
            }
        } else {
            TimerModel { queue: Seq::empty(), ..self }
        }
    }
}

/// The count of leading entries due before `entry` is the one place where
/// every entry in front comes due before it and the entry at the place does
/// not.
pub proof fn lemma_entries_before(queue: Seq<TimeoutInfo>, entry: TimeoutInfo, place: int)
    requires
        0 <= place <= queue.len(),
        forall|i: int| 0 <= i < place ==> (#[trigger] queue[i]).due_before(entry),
        place < queue.len() ==> !queue[place].due_before(entry),
    ensures
        entries_before(queue, entry) == place,
    decreases place,
{
    if place > 0 {
        assert(queue[0].due_before(entry));
        let rest = queue.skip(1);
        assert forall|i: int| 0 <= i < place - 1 implies (#[trigger] rest[i]).due_before(entry) by {
            assert(rest[i] == queue[i + 1]);
        }
        lemma_entries_before(rest, entry, place - 1);
    }
}

/// The count of cancelled leading entries is the one place where every entry
/// in front is cancelled and the entry at the place is pending.
pub proof fn lemma_cancelled_prefix(queue: Seq<TimeoutInfo>, pending: Set<u32>, place: int)
    requires
        0 <= place <= queue.len(),
        forall|i: int| 0 <= i < place ==> !pending.contains((#[trigger] queue[i]).id),
        place < queue.len() ==> pending.contains(queue[place].id),
    ensures
        cancelled_prefix(queue, pending) == place,
    decreases place,
{
    if place > 0 {
        assert(!pending.contains(queue[0].id));
        let rest = queue.skip(1);
        assert forall|i: int| 0 <= i < place - 1 implies !pending.contains((#[trigger] rest[i]).id) by {
            assert(rest[i] == queue[i + 1]);
        }
        lemma_cancelled_prefix(rest, pending, place - 1);
    }
}

/// The count of cancelled leading entries lies within the queue, the entries
/// in front of it are cancelled, and the entry at it is pending.
pub proof fn lemma_cancelled_prefix_bounds(queue: Seq<TimeoutInfo>, pending: Set<u32>)
    ensures
        0 <= cancelled_prefix(queue, pending) <= queue.len(),
        forall|i: int|
            0 <= i < cancelled_prefix(queue, pending) ==> !pending.contains(
                (#[trigger] queue[i]).id,
            ),
        cancelled_prefix(queue, pending) < queue.len() ==> pending.contains(
            queue[cancelled_prefix(queue, pending)].id,
        ),
    decreases queue.len(),
{
    if queue.len() > 0 && !pending.contains(queue[0].id) {
        let rest = queue.skip(1);
        lemma_cancelled_prefix_bounds(rest, pending);
        assert forall|i: int| 0 <= i < cancelled_prefix(queue, pending) implies !pending.contains(
            (#[trigger] queue[i]).id,
        ) by {
            if i > 0 {
                assert(queue[i] == rest[i - 1]);
            }
        }
    }
}

/// Inserts into a set of identifiers.
///
/// Calls `std::collections::HashSet::insert` on a set that hashes with
/// `fnv::FnvHasher`. That hasher is a pure function of the bytes written to
/// it, so the set behaves as a set of integers: afterwards it holds the
/// identifier besides what it held, and the result tells whether the
/// identifier is new.
#[verifier::external_body]
fn set_insert(set: &mut FnvHashSet<u32>, id: u32) -> (fresh: bool)
    ensures
        final(set)@ == old(set)@.insert(id),
        fresh == !old(set)@.contains(id),
{
    set.insert(id)
}

/// Removes from a set of identifiers.
///
/// Calls `std::collections::HashSet::remove` on a set that hashes with
/// `fnv::FnvHasher`: afterwards the set holds what it held but for the
/// identifier, and the result tells whether the identifier was in it.
#[verifier::external_body]
fn set_remove(set: &mut FnvHashSet<u32>, id: u32) -> (present: bool)
    ensures
        final(set)@ == old(set)@.remove(id),
        present == old(set)@.contains(id),
{
    set.remove(&id)
}

/// Looks an identifier up in a set.
///
/// Calls `std::collections::HashSet::contains` on a set that hashes with
/// `fnv::FnvHasher`: the result tells whether the identifier is in it.
#[verifier::external_body]
fn set_contains(set: &FnvHashSet<u32>, id: u32) -> (present: bool)
    ensures
        present == set@.contains(id),
{
    set.contains(&id)
}

/// The timers of one guest.
pub struct TimeoutState {
    times: Vec<TimeoutInfo>,
    pending_ids: FnvHashSet<u32>,
    next_id: u32,
}

impl View for TimeoutState {
    type V = TimerModel;

    closed spec fn view(&self) -> TimerModel {
        TimerModel {
            queue: Seq::new(self.times@.len(), |i: int| self.times@[self.times@.len() - 1 - i]),
            pending: self.pending_ids@,
            next_id: self.next_id,
        }
    }
}

impl TimeoutState {
    /// The timers' invariant.
    pub open spec fn wf(&self) -> bool {
        self@.wf()
    }

    /// No timers.
    pub fn new() -> (state: Self)
        ensures
            state.wf(),
            state@ == TimerModel::empty(),
    {
        let state = TimeoutState { times: Vec::new(), pending_ids: FnvHashSet::default(), next_id: 0 };
        assert(state@.queue =~= Seq::empty());
        state
    }

    /// Whether an identifier is left for one more wake-up.
    pub fn can_schedule(&self) -> (room: bool)
        ensures
            room == self@.can_schedule(),
    {
        self.next_id < u32::MAX
    }

    /// The number of entries in the queue, cancelled ones included.
    pub fn queued(&self) -> (count: usize)
        ensures
            count == self@.queue.len(),
    {
        self.times.len()
    }

    /// Whether `id` was scheduled and not cancelled since.
    pub fn is_pending(&self, id: u32) -> (pending: bool)
        ensures
            pending == self@.pending.contains(id),
    {
        set_contains(&self.pending_ids, id)
    }

    /// Schedules a wake-up `delay_ms` milliseconds after `now` and returns
    /// its identifier.
    pub fn schedule(&mut self, now: u64, delay_ms: u64) -> (id: u32)
        requires
            old(self).wf(),
            old(self)@.can_schedule(),
        ensures
            final(self).wf(),
            id == old(self)@.next_id,
            final(self)@ == old(self)@.schedule(now, delay_ms),
    {
        let ghost before = self@;
        let scaled: u64 = if delay_ms > u64::MAX / NANOS_PER_MILLISECOND {
            u64::MAX
        } else {
            delay_ms * NANOS_PER_MILLISECOND
        };
        let time: u64 = if scaled > u64::MAX - now {
            u64::MAX
        } else {
            scaled + now
        };
        let id: u32 = self.next_id;
        let entry = TimeoutInfo { time, id };
        assert(entry == before.scheduled_entry(now, delay_ms));
        let len: usize = self.times.len();
        let mut slot: usize = len;
        while slot > 0 && self.times[slot - 1].is_due_before(&entry)
            invariant
                0 <= slot <= len,
                len == self.times@.len(),
                forall|k: int| slot <= k < len ==> (#[trigger] self.times@[k]).due_before(entry),
            decreases slot,
        {
            slot -= 1;
        }
        let ghost place = len - slot;
        proof {
            assert forall|i: int| 0 <= i < place implies (#[trigger] before.queue[i]).due_before(
                entry,
            ) by {
                assert(before.queue[i] == self.times@[len - 1 - i]);
            }
            if place < before.queue.len() {
                assert(before.queue[place] == self.times@[slot - 1]);
            }
            lemma_entries_before(before.queue, entry, place);
        }
        self.times.insert(slot, entry);
        self.next_id = id + 1;
        set_insert(&mut self.pending_ids, id);
        proof {
            let after = self@;
            let target = before.schedule(now, delay_ms);
            assert forall|i: int| 0 <= i < after.queue.len() implies after.queue[i]
                == target.queue[i] by {
                if i < place {
                    assert(after.queue[i] == before.queue[i]);
                } else if i > place {
                    assert(after.queue[i] == before.queue[i - 1]);
                }
            }
            assert(after.queue =~= target.queue);
            lemma_schedule_adds_one(before, now, delay_ms);
        }
        id
    }

    /// Cancels the wake-up `id` and tells whether it was pending.
    pub fn cancel(&mut self, id: u32) -> (was_pending: bool)
        requires
            old(self).wf(),
        ensures
            final(self).wf(),
            was_pending == old(self)@.pending.contains(id),
            final(self)@ == old(self)@.cancel(id),
    {
        let ghost before = self@;
        let was_pending: bool = set_remove(&mut self.pending_ids, id);
        proof {
            assert(self@.queue =~= before.queue);
            assert forall|other: u32| #[trigger] self@.pending.contains(other) implies other
                < self@.next_id by {
                assert(before.pending.contains(other));
            }
        }
        was_pending
    }

    /// Takes the wake-up to deliver next, given the one that was delivered
    /// last: that one again while it is pending, else the earliest pending
    /// entry of the queue. Cancelled entries in front of it leave the queue
    /// with it. `None` means that the queue is exhausted.
    pub fn next_due(&mut self, current: Option<TimeoutInfo>) -> (due: Option<TimeoutInfo>)
        requires
            old(self).wf(),
        ensures
            final(self).wf(),
            due == old(self)@.due(current),
            final(self)@ == old(self)@.after_due(current),
    {
        let ghost before = self@;
        if let Some(info) = current {
            if set_contains(&self.pending_ids, info.id) {
                return Some(info);
            }
        }
        let ghost mut dropped: int = 0;
        while self.times.len() > 0
            invariant
                before == old(self)@,
                before.wf(),
                !before.fires_again(current),
                0 <= dropped <= before.queue.len(),
                self@.queue == before.queue.skip(dropped),
                self@.pending == before.pending,
                self@.next_id == before.next_id,
                forall|i: int| 0 <= i < dropped ==> !before.pending.contains(
                    (#[trigger] before.queue[i]).id,
                ),
            decreases self.times@.len(),
        {
            let ghost shown = self@.queue;
            assert(shown.len() == self.times@.len());
            assert(shown[0] == before.queue[dropped]);
            let taken = self.times.pop();
            let info = taken.unwrap();
            proof {
                assert(info == shown[0]);
                assert(info == before.queue[dropped]);
                assert forall|i: int| 0 <= i < self@.queue.len() implies self@.queue[i]
                    == before.queue[dropped + 1 + i] by {
                    assert(self@.queue[i] == shown[i + 1]);
                }
                assert(self@.queue =~= before.queue.skip(dropped + 1));
            }
            if set_contains(&self.pending_ids, info.id) {
                proof {
                    lemma_cancelled_prefix(before.queue, before.pending, dropped);
                    lemma_due_is_earliest_pending(before, current);
                }
                return Some(info);
            }
            proof {
                dropped = dropped + 1;
            }
        }
        proof {
            assert(dropped == before.queue.len());
            lemma_cancelled_prefix(before.queue, before.pending, dropped);
            assert(self@.queue =~= Seq::<TimeoutInfo>::empty());
        }
        None
    }
}

/// What scheduling adds is pending, stands in the queue, and leaves every
/// other entry in its order; the timers stay well formed.
pub proof fn lemma_schedule_adds_one(timers: TimerModel, now: u64, delay_ms: u64)
    requires
        timers.wf(),
        timers.can_schedule(),
    ensures
        timers.schedule(now, delay_ms).wf(),
        timers.schedule(now, delay_ms).pending.contains(timers.next_id),
        !timers.pending.contains(timers.next_id),
        timers.schedule(now, delay_ms).queue.len() == timers.queue.len() + 1,
        timers.schedule(now, delay_ms).queue.contains(timers.scheduled_entry(now, delay_ms)),
        timers.schedule(now, delay_ms).queue.remove(
            entries_before(timers.queue, timers.scheduled_entry(now, delay_ms)),
        ) == timers.queue,
{
    let entry = timers.scheduled_entry(now, delay_ms);
    let after = timers.schedule(now, delay_ms);
    lemma_entries_before_bounds(timers.queue, entry);
    let place = entries_before(timers.queue, entry);
    assert(after.queue[place] == entry);
    assert(after.queue.remove(place) =~= timers.queue);
    assert forall|i: int, j: int| 0 <= i < j < after.queue.len() implies !(
    #[trigger] after.queue[j]).due_before(#[trigger] after.queue[i]) by {
        if j < place {
            assert(!timers.queue[j].due_before(timers.queue[i]));
        } else if j == place {
            assert(timers.queue[i].due_before(entry));
        } else if i < place {
            assert(!timers.queue[j - 1].due_before(timers.queue[i]));
        } else if i == place {
            assert(!timers.queue[j - 1].due_before(timers.queue[place]));
        } else {
            assert(!timers.queue[j - 1].due_before(timers.queue[i - 1]));
        }
    }
    assert forall|i: int| 0 <= i < after.queue.len() implies (#[trigger] after.queue[i]).id
        < after.next_id by {
        if i < place {
            assert(after.queue[i] == timers.queue[i]);
        } else if i > place {
            assert(after.queue[i] == timers.queue[i - 1]);
        }
    }
}

/// The count of leading entries due before `entry` lies within the queue,
/// the entries in front of it come due before `entry`, and the entry at it
/// does not.
pub proof fn lemma_entries_before_bounds(queue: Seq<TimeoutInfo>, entry: TimeoutInfo)
    ensures
        0 <= entries_before(queue, entry) <= queue.len(),
        forall|i: int|
            0 <= i < entries_before(queue, entry) ==> (#[trigger] queue[i]).due_before(entry),
        entries_before(queue, entry) < queue.len() ==> !queue[entries_before(
            queue,
            entry,
        )].due_before(entry),
    decreases queue.len(),
{
    if queue.len() > 0 && queue[0].due_before(entry) {
        let rest = queue.skip(1);
        lemma_entries_before_bounds(rest, entry);
        assert forall|i: int| 0 <= i < entries_before(queue, entry) implies (
        #[trigger] queue[i]).due_before(entry) by {
            if i > 0 {
                assert(queue[i] == rest[i - 1]);
            }
        }
    }
}

/// A wake-up that is delivered comes due no later than anything left in the
/// queue, and it is pending. Where nothing is delivered, the queue held no
/// pending entry and is empty afterwards.
pub proof fn lemma_due_is_earliest_pending(timers: TimerModel, current: Option<TimeoutInfo>)
    requires
        timers.wf(),
        !timers.fires_again(current),
    ensures
        timers.after_due(current).wf(),
        match timers.due(current) {
            Some(info) => {
                &&& timers.pending.contains(info.id)
                &&& timers.queue.contains(info)
                &&& forall|i: int|
                    0 <= i < timers.after_due(current).queue.len() ==> !(
                    #[trigger] timers.after_due(current).queue[i]).due_before(info)
            },
            None => {
                &&& timers.after_due(current).queue.len() == 0
                &&& forall|i: int|
                    0 <= i < timers.queue.len() ==> !timers.pending.contains(
                        (#[trigger] timers.queue[i]).id,
                    )
            },
        },
{
    lemma_cancelled_prefix_bounds(timers.queue, timers.pending);
    let place = cancelled_prefix(timers.queue, timers.pending);
    let after = timers.after_due(current);
    if place < timers.queue.len() {
        assert forall|i: int, j: int| 0 <= i < j < after.queue.len() implies !(
        #[trigger] after.queue[j]).due_before(#[trigger] after.queue[i]) by {
            assert(!timers.queue[j + place + 1].due_before(timers.queue[i + place + 1]));
        }
        assert forall|i: int| 0 <= i < after.queue.len() implies !(
        #[trigger] after.queue[i]).due_before(timers.queue[place]) by {
            assert(!timers.queue[i + place + 1].due_before(timers.queue[place]));
        }
        assert forall|i: int| 0 <= i < after.queue.len() implies (#[trigger] after.queue[i]).id
            < after.next_id by {
            assert(after.queue[i] == timers.queue[i + place + 1]);
        }
    }
}

/// A wake-up that is scheduled to come due before everything in the queue
/// is the next to be delivered, and the queue behind it is as it was.
pub proof fn lemma_earliest_scheduled_fires_first(timers: TimerModel, now: u64, delay_ms: u64)
    requires
        timers.wf(),
        timers.can_schedule(),
        forall|i: int|
            0 <= i < timers.queue.len() ==> fire_time(now, delay_ms) < (
            #[trigger] timers.queue[i]).time,
    ensures
        timers.schedule(now, delay_ms).due(None) == Some(timers.scheduled_entry(now, delay_ms)),
        timers.schedule(now, delay_ms).after_due(None).queue == timers.queue,
{
    let entry = timers.scheduled_entry(now, delay_ms);
    let after = timers.schedule(now, delay_ms);
    lemma_entries_before(timers.queue, entry, 0);
    assert(after.queue[0] == entry);
    assert(after.pending.contains(entry.id));
    assert(cancelled_prefix(after.queue, after.pending) == 0);
    assert(after.queue.skip(1) =~= timers.queue);
}

/// Every step of the delivery that does not deliver the last wake-up again
/// takes at least one entry from the queue: the delivery ends unless the
/// guest leaves a delivered wake-up pending for ever.
pub proof fn lemma_delivery_shortens_queue(timers: TimerModel, current: Option<TimeoutInfo>)
    requires
        !timers.fires_again(current),
    ensures
        timers.after_due(current).queue.len() <= timers.queue.len(),
        timers.queue.len() > 0 ==> timers.after_due(current).queue.len() < timers.queue.len(),
        timers.after_due(current).pending == timers.pending,
        timers.after_due(current).next_id == timers.next_id,
{
    lemma_cancelled_prefix_bounds(timers.queue, timers.pending);
}

/// Once nothing is pending, nothing is delivered, and the queue is empty
/// after one step.
pub proof fn lemma_nothing_pending_ends_delivery(timers: TimerModel, current: Option<TimeoutInfo>)
    requires
        forall|id: u32| !timers.pending.contains(id),
    ensures
        timers.due(current) is None,
        timers.after_due(current).queue.len() == 0,
{
    lemma_cancelled_prefix(timers.queue, timers.pending, timers.queue.len() as int);
}

/// Every entry that leaves the queue in a step of the delivery is either the
/// wake-up that is delivered or one that was cancelled before its turn.
pub proof fn lemma_entries_leave_fired_or_cancelled(
    timers: TimerModel,
    current: Option<TimeoutInfo>,
)
    requires
        !timers.fires_again(current),
    ensures
        timers.after_due(current).queue.len() <= timers.queue.len(),
        timers.after_due(current).queue == timers.queue.skip(
            timers.queue.len() - timers.after_due(current).queue.len(),
        ),
        forall|i: int|
            0 <= i < timers.queue.len() - timers.after_due(current).queue.len() ==> Some(
                #[trigger] timers.queue[i],
            ) == timers.due(current) || !timers.pending.contains(timers.queue[i].id),
{
    lemma_cancelled_prefix_bounds(timers.queue, timers.pending);
    let place = cancelled_prefix(timers.queue, timers.pending);
    if place >= timers.queue.len() {
        assert(timers.queue.skip(timers.queue.len() as int) =~= Seq::<TimeoutInfo>::empty());
    }
}

/// One thing that the guest does to the timers while it handles a wake-up.
pub enum GuestStep {
    /// It schedules a wake-up `delay_ms` milliseconds after `now`.
    Schedule { now: u64, delay_ms: u64 },
    /// It cancels the wake-up `id`.
    Cancel { id: u32 },
}

/// The number of wake-ups that the steps `steps` schedule.
pub open spec fn schedules_in(steps: Seq<GuestStep>) -> nat
    decreases steps.len(),
{
    if steps.len() == 0 {
        0
    } else {
        (if steps[0] is Schedule {
            1nat
        } else {
            0nat
        }) + schedules_in(steps.skip(1))
    }
}

/// The number of wake-ups that the reactions `reactions` schedule between
/// them.
pub open spec fn schedules_in_all(reactions: Seq<Seq<GuestStep>>) -> nat
    decreases reactions.len(),
{
    if reactions.len() == 0 {
        0
    } else {
        schedules_in(reactions[0]) + schedules_in_all(reactions.skip(1))
    }
}

impl TimerModel {
    /// The timers after the guest took the steps `steps`, in order.
    pub open spec fn handled(self, steps: Seq<GuestStep>) -> TimerModel
        decreases steps.len(),
    {
        if steps.len() == 0 {
            self
        } else {
            (match steps[0] {
                GuestStep::Schedule { now, delay_ms } => self.schedule(now, delay_ms),
                GuestStep::Cancel { id } => self.cancel(id),
            }).handled(steps.skip(1))
        }
    }

    /// The timers when the whole delivery has ended, or nothing where it has
    /// not ended after `rounds` wake-ups.
    ///
    /// The delivery takes the next wake-up, given the one delivered last, and
    /// hands it to the guest. The guest reacts with the steps that
    /// `reactions` holds for this wake-up, with none once `reactions` is used
    /// up, and then cancels the wake-up that it was handed. The delivery ends
    /// when no wake-up is left to take.
    pub open spec fn delivered(
        self,
        current: Option<TimeoutInfo>,
        reactions: Seq<Seq<GuestStep>>,
        rounds: nat,
    ) -> Option<TimerModel>
        decreases rounds,
    {
        match self.due(current) {
            None => Some(self.after_due(current)),
            Some(info) => if rounds == 0 {
                None
            } else if reactions.len() == 0 {
                self.after_due(current).cancel(info.id).delivered(
                    Some(info),
                    reactions,
                    (rounds - 1) as nat,
                )
            } else {
                self.after_due(current).handled(reactions[0]).cancel(info.id).delivered(
                    Some(info),
                    reactions.skip(1),
                    (rounds - 1) as nat,
                )
            },
        }
    }
}

/// The guest's steps lengthen the queue by the wake-ups that they schedule,
/// and by nothing else.
pub proof fn lemma_handled_queue_len(timers: TimerModel, steps: Seq<GuestStep>)
    ensures
        timers.handled(steps).queue.len() == timers.queue.len() + schedules_in(steps),
    decreases steps.len(),
{
    if steps.len() > 0 {
        let next = match steps[0] {
            GuestStep::Schedule { now, delay_ms } => timers.schedule(now, delay_ms),
            GuestStep::Cancel { id } => timers.cancel(id),
        };
        if let GuestStep::Schedule { now, delay_ms } = steps[0] {
            lemma_entries_before_bounds(timers.queue, timers.scheduled_entry(now, delay_ms));
        }
        lemma_handled_queue_len(next, steps.skip(1));
    }
}

/// The delivery ends. A guest that cancels every wake-up that it is handed,
/// and that schedules no more wake-ups than its reactions hold, is handed at
/// most as many wake-ups as the queue holds at the start and the reactions
/// schedule; then no wake-up is left to take, and the queue is empty.
pub proof fn lemma_delivery_ends(
    timers: TimerModel,
    current: Option<TimeoutInfo>,
    reactions: Seq<Seq<GuestStep>>,
    rounds: nat,
)
    requires
        !timers.fires_again(current),
        rounds >= timers.queue.len() + schedules_in_all(reactions),
    ensures
        timers.delivered(current, reactions, rounds) matches Some(end) && end.queue.len() == 0,
    decreases rounds,
{
    lemma_cancelled_prefix_bounds(timers.queue, timers.pending);
    if let Some(info) = timers.due(current) {
        let taken = timers.after_due(current);
        if reactions.len() == 0 {
            let next = taken.cancel(info.id);
            lemma_delivery_ends(next, Some(info), reactions, (rounds - 1) as nat);
        } else {
            let next = taken.handled(reactions[0]).cancel(info.id);
            lemma_handled_queue_len(taken, reactions[0]);
            lemma_delivery_ends(next, Some(info), reactions.skip(1), (rounds - 1) as nat);
        }
    }
}

/// A cancelled wake-up is never delivered from the queue.
pub proof fn lemma_cancelled_is_skipped(timers: TimerModel, id: u32, current: Option<TimeoutInfo>)
    requires
        timers.wf(),
    ensures
        timers.cancel(id).wf(),
        timers.cancel(id).due(current) matches Some(info) ==> info.id != id,
{
    let after = timers.cancel(id);
    lemma_cancelled_prefix_bounds(after.queue, after.pending);
}

} // verus!
