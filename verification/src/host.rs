//! The state of one guest, and the runtime calls on it: time, randomness,
//! timers, and the choice of the stream for a raw write.
//!
//! Every call takes the state and plain values and returns plain values.
//! Reading the guest's stack and memory, writing to the process's streams
//! and resuming the guest are left to the caller.

use vstd::prelude::*;
use crate::clock::{reading_after, Clock, NANOS_PER_SECOND};
use crate::pool::{DynamicObjectPool, EventModel, PendingEvent, PoolModel};
use crate::rng::{position_after, stream_bytes, words_for, Rng};
use crate::timers::{TimeoutInfo, TimeoutState, TimerModel};

verus! {

/// Something that the guest asked for and this layer does not do as asked.
/// None of these stops the guest: the call answers with a value that says
/// so, and the caller may log the anomaly.
#[derive(Clone, Copy, Debug, PartialEq, Eq, Structural)]
pub enum Anomaly {
    /// A timer was cancelled that was not pending.
    NotPending,
    /// A field was read from a value that is no reference.
    ReadFromNonObject,
    /// A field was read that the object does not have.
    UnknownField,
    /// A byte array was constructed without a number for its length.
    BadArrayArguments,
    /// An object of a class was constructed that cannot be.
    UnknownClass,
    /// Bytes were copied between buffers of different lengths; as many as
    /// fit were copied.
    LengthMismatch,
    /// Bytes were copied to or from an object that is no byte array.
    CopyUnsupportedObject,
    /// Bytes were copied to or from a value that is no reference.
    CopyNonObject,
    /// A function wrapper was asked for without a value to wrap.
    BadWrapperArguments,
    /// A write was called with arguments of the wrong shape.
    BadWriteArguments,
    /// A write was called with a descriptor that is neither the output
    /// stream nor the error stream.
    UnknownDescriptor,
    /// A write was called with a buffer that is no byte array.
    BadWriteBuffer,
    /// A write was called with a callback that is no function wrapper.
    BadWriteCallback,
    /// Random values were asked for without a reference to a buffer.
    BadRandomArguments,
    /// Random values were asked for into an object that is no byte array.
    RandomOnBadObject,
    /// Random values were asked for into a reference that names nothing.
    RandomOnUnknownReference,
    /// A method was called on a date that it does not have.
    UnknownDateMethod,
    /// A method was called on an object that has none.
    UnknownObjectMethod,
    /// A method was called on a value that is no reference.
    CallOnNonObject,
    /// A field was written that cannot be.
    UnsupportedWrite,
    /// The length was asked of a value that has none.
    NoLength,
    /// A value was indexed that is no reference.
    IndexNonObject,
    /// An index was given that no buffer of this machine reaches.
    IndexTooLarge,
    /// An index was given at or beyond the length.
    IndexOutOfBounds,
    /// An object was indexed that has no elements.
    IndexUnsupported,
    /// A reference was finalized that names nothing.
    FinalizeUnknown,
    /// A value was finalized that is no reference.
    FinalizeNonObject,
}

/// One of the two streams that the guest can write to.
#[derive(Clone, Copy, Debug, PartialEq, Eq, Structural)]
pub enum OutputStream {
    Stdout,
    Stderr,
}

/// The state of one guest: the arena, the clock, the random stream, the
/// timers, and the callback that waits to be picked up, if there is one.
pub struct GoStub {
    pub pool: DynamicObjectPool,
    pub clock: Clock,
    pub rng: Rng,
    pub timers: TimeoutState,
    pub pending_event: Option<PendingEvent>,
}

/// The state of one guest as plain values.
pub struct StubModel {
    pub pool: PoolModel,
    pub time: u64,
    pub drawn: u64,
    pub timers: TimerModel,
    pub event: Option<EventModel>,
}

impl StubModel {
    /// The invariant of the state: that of the arena, that of the timers,
    /// and that the arguments of a waiting callback fit the machine.
    pub open spec fn wf(self) -> bool {
        &&& self.pool.wf()
        &&& self.timers.wf()
        &&& self.event matches Some(event) ==> event.args.len() <= usize::MAX
    }

    /// The state of a guest that has not called yet.
    pub open spec fn initial() -> StubModel {
        StubModel {
            pool: PoolModel::empty(),
            time: 0,
            drawn: 0,
            timers: TimerModel::empty(),
            event: None,
        }
    }

    /// The state after the clock was read once.
    pub open spec fn read_clock(self) -> StubModel {
        StubModel { time: reading_after(self.time) as u64, ..self }
    }

    /// The state after `len` random bytes were drawn.
    pub open spec fn draw_bytes(self, len: nat) -> StubModel {
        StubModel { drawn: position_after(self.drawn, words_for(len)), ..self }
    }

    /// The state after a timer was scheduled `delay_ms` milliseconds after
    /// the clock's time, which does not move.
    pub open spec fn schedule(self, delay_ms: u64) -> StubModel {
        StubModel { timers: self.timers.schedule(self.time, delay_ms), ..self }
    }

    /// The state after the timer `id` was cancelled.
    pub open spec fn cancel(self, id: u32) -> StubModel {
        StubModel { timers: self.timers.cancel(id), ..self }
    }

    /// The state after the next wake-up was taken: the queue gives up what
    /// is delivered, and the clock moves forward to the wake-up's time unless
    /// it is past it.
    pub open spec fn take_due(self, current: Option<TimeoutInfo>) -> StubModel {
        StubModel {
            timers: self.timers.after_due(current),
            time: match self.timers.due(current) {
                Some(info) => if self.time >= info.time {
                    self.time
                } else {
                    info.time
                },
                None => self.time,
            },
            ..self
        }
    }
}

impl View for GoStub {
    type V = StubModel;

    open spec fn view(&self) -> StubModel {
        StubModel {
            pool: self.pool@,
            time: self.clock.nanos(),
            drawn: self.rng.position(),
            timers: self.timers@,
            event: match self.pending_event {
                Some(event) => Some(event@),
                None => None,
            },
        }
    }
}

impl GoStub {
    /// The invariant of the state.
    pub open spec fn wf(&self) -> bool {
        self@.wf()
    }

    /// The state of a guest that has not called yet.
    pub fn new() -> (stub: Self)
        ensures
            stub.wf(),
            stub@ == StubModel::initial(),
    {
        GoStub {
            pool: DynamicObjectPool::new(),
            clock: Clock::new(),
            rng: Rng::new(),
            timers: TimeoutState::new(),
            pending_event: None,
        }
    }
}

/// The stream that a raw write to the descriptor `fd` goes to: the error
/// stream for descriptor two, the output stream for every other.
#[allow(non_snake_case)]
pub fn go__runtime_wasmWrite(fd: u64) -> (stream: OutputStream)
    ensures
        stream == if fd == 2 {
            OutputStream::Stderr
        } else {
            OutputStream::Stdout
        },
{
    if fd == 2 {
        OutputStream::Stderr
    } else {
        OutputStream::Stdout
    }
}

/// Reads the clock in nanoseconds.
#[allow(non_snake_case)]
pub fn go__runtime_nanotime1(stub: &mut GoStub) -> (time: u64)
    requires
        old(stub).clock.can_read(),
    ensures
        final(stub)@ == old(stub)@.read_clock(),
        time == reading_after(old(stub)@.time),
{
    stub.clock.now()
}

/// Reads the clock as seconds and nanoseconds, the latter in 32 bits.
#[allow(non_snake_case)]
pub fn go__runtime_walltime(stub: &mut GoStub) -> (parts: (u64, u32))
    requires
        old(stub).clock.can_read(),
    ensures
        final(stub)@ == old(stub)@.read_clock(),
        parts.0 * NANOS_PER_SECOND + parts.1 == reading_after(old(stub)@.time),
        parts.1 < NANOS_PER_SECOND,
{
    stub.clock.now_split()
}

/// Reads the clock as seconds and nanoseconds, the latter in 64 bits.
#[allow(non_snake_case)]
pub fn go__runtime_walltime1(stub: &mut GoStub) -> (parts: (u64, u64))
    requires
        old(stub).clock.can_read(),
    ensures
        final(stub)@ == old(stub)@.read_clock(),
        parts.0 * NANOS_PER_SECOND + parts.1 == reading_after(old(stub)@.time),
        parts.1 < NANOS_PER_SECOND,
{
    stub.clock.now_split_wide()
}

/// Draws `len` random bytes for the guest's memory.
#[allow(non_snake_case)]
pub fn go__runtime_getRandomData(stub: &mut GoStub, len: usize) -> (bytes: Vec<u8>)
    ensures
        final(stub)@ == old(stub)@.draw_bytes(len as nat),
        bytes@ == stream_bytes(old(stub)@.drawn, len as nat),
{
    let mut bytes: Vec<u8> = vec![0u8; len];
    stub.rng.fill(&mut bytes);
    bytes
}

/// Schedules a timer `delay_ms` milliseconds from the clock's time and
/// returns its identifier.
#[allow(non_snake_case)]
pub fn go__runtime_scheduleTimeoutEvent(stub: &mut GoStub, delay_ms: u64) -> (id: u32)
    requires
        old(stub).wf(),
        old(stub)@.timers.can_schedule(),
    ensures
        final(stub).wf(),
        final(stub)@ == old(stub)@.schedule(delay_ms),
        id == old(stub)@.timers.next_id,
{
    let now: u64 = stub.clock.peek();
    stub.timers.schedule(now, delay_ms)
}

/// Cancels the timer `id`. Cancelling one that is not pending is an anomaly
/// and changes nothing.
#[allow(non_snake_case)]
pub fn go__runtime_clearTimeoutEvent(stub: &mut GoStub, id: u32) -> (anomaly: Option<Anomaly>)
    requires
        old(stub).wf(),
    ensures
        final(stub).wf(),
        final(stub)@ == old(stub)@.cancel(id),
        anomaly == if old(stub)@.timers.pending.contains(id) {
            None
        } else {
            Some(Anomaly::NotPending)
        },
{
    if stub.timers.cancel(id) {
        None
    } else {
        Some(Anomaly::NotPending)
    }
}

/// One step of the delivery of timers once the guest has run: given the
/// wake-up that was delivered last, takes the one to deliver next and moves
/// the clock to its time. The caller resumes the guest for each wake-up that
/// comes back and hands it in again, until none comes back.
#[allow(non_snake_case)]
pub fn wavm__go_after_run(stub: &mut GoStub, current: Option<TimeoutInfo>) -> (due: Option<
    TimeoutInfo,
>)
    requires
        old(stub).wf(),
    ensures
        final(stub).wf(),
        final(stub)@ == old(stub)@.take_due(current),
        due == old(stub)@.timers.due(current),
{
    let due = stub.timers.next_due(current);
    if let Some(info) = due {
        stub.clock.advance_to(info.time);
    }
    due
}

} // verus!
