//! Method calls of the guest's bridge: the wrapper for a callback, the write
//! to the filesystem, random values, and the time zone of a date.
//!
//! A write does not answer with what was written. It stages a pending event
//! that carries the callback and the count of bytes, hands the bytes to the
//! caller, and asks the caller to resume the guest, which picks the event
//! up, before the call itself answers null.

use vstd::prelude::*;
use crate::bridge::{answered, least, number_of, refused, Reply};
use crate::host::{Anomaly, GoStub, OutputStream, StubModel};
use crate::names::{name_of, parse_name, Name};
use crate::number::{number_from_u64, number_to_u64, truncated, ONE_BITS, TWO_BITS};
use crate::pool::{
    lemma_changed_is_replaced,
    DynamicObject,
    EventModel,
    ObjectModel,
    PendingEvent,
};
use crate::rng::{position_after, stream_bytes, words_for};
use crate::value::{
    interpret_value,
    read_value_slice,
    interpreted,
    GoValue,
    InterpValue,
    CRYPTO_ID,
    FS_ID,
    GO_ID,
    NULL_ID,
};

verus! {

/// The bytes that a write hands to the caller, the stream they are for, and
/// whether the offset and the length that the guest gave were cut to the
/// buffer.
pub struct FsWrite {
    pub stream: OutputStream,
    pub data: Vec<u8>,
    pub offset_clamped: bool,
    pub length_clamped: bool,
}

/// What a write hands to the caller.
pub struct WriteModel {
    pub stream: OutputStream,
    pub data: Seq<u8>,
    pub offset_clamped: bool,
    pub length_clamped: bool,
}

impl View for FsWrite {
    type V = WriteModel;

    open spec fn view(&self) -> WriteModel {
        WriteModel {
            stream: self.stream,
            data: self.data@,
            offset_clamped: self.offset_clamped,
            length_clamped: self.length_clamped,
        }
    }
}

/// What a call that succeeded comes to: a value for the guest, or a write,
/// after which the guest is resumed and then answered with null.
pub enum Called {
    Value(GoValue),
    Write(FsWrite),
}

/// What a call that succeeded comes to.
pub enum CalledModel {
    Value(GoValue),
    Write(WriteModel),
}

impl View for Called {
    type V = CalledModel;

    open spec fn view(&self) -> CalledModel {
        match self {
            Called::Value(value) => CalledModel::Value(*value),
            Called::Write(write) => CalledModel::Write(write@),
        }
    }
}

/// The outcome of a call as plain values.
pub open spec fn outcome_view(outcome: Result<Called, Anomaly>) -> Result<CalledModel, Anomaly> {
    match outcome {
        Ok(called) => Ok(called@),
        Err(anomaly) => Err(anomaly),
    }
}

/// The stream of the descriptor `fd`, a number: the output stream for one,
/// the error stream for two. No other descriptor can be written to.
pub open spec fn stream_of(fd: u64) -> Option<OutputStream> {
    if fd == ONE_BITS {
        Some(OutputStream::Stdout)
    } else if fd == TWO_BITS {
        Some(OutputStream::Stderr)
    } else {
        None
    }
}

/// Whether the arguments of a write have their shape: a number for the
/// descriptor, a reference to the buffer, numbers for offset and length,
/// null, and a reference to the callback. What follows them is ignored.
/// Which descriptor the number names is not a matter of the shape.
pub open spec fn write_shape(args: Seq<InterpValue>) -> bool {
    &&& args.len() >= 6
    &&& args[0] is Number
    &&& args[1] is Ref
    &&& args[2] is Number
    &&& args[3] is Number
    &&& args[4] == InterpValue::Ref(NULL_ID)
    &&& args[5] is Ref
}

/// Where a write starts in a buffer of `len` bytes: at the offset asked
/// for, cut to an integer, or at the end of the buffer where that lies
/// beyond it.
pub open spec fn write_start(len: nat, offset: u64) -> int {
    least(truncated(offset), len as int)
}

/// How many bytes a write takes from a buffer of `len` bytes: the length
/// asked for, cut to an integer, or what is left behind the start where
/// that is less.
pub open spec fn write_count(len: nat, offset: u64, length: u64) -> int {
    least(truncated(length), len - write_start(len, offset))
}

/// What a write of `length` bytes at `offset` of the buffer `bytes` to the
/// stream `stream` hands to the caller.
pub open spec fn planned_write(
    bytes: Seq<u8>,
    stream: OutputStream,
    offset: u64,
    length: u64,
) -> WriteModel {
    WriteModel {
        stream,
        data: bytes.subrange(
            write_start(bytes.len(), offset),
            write_start(bytes.len(), offset) + write_count(bytes.len(), offset, length),
        ),
        offset_clamped: truncated(offset) > bytes.len(),
        length_clamped: truncated(length) > bytes.len() - write_start(bytes.len(), offset),
    }
}

/// The event that a write stages: the callback's target and receiver, and
/// as arguments null, for no error, and the count of bytes.
pub open spec fn write_event(target: InterpValue, this: InterpValue, count: nat) -> EventModel {
    EventModel { id: target, this, args: seq![GoValue::Null, number_of(count)] }
}

/// What calling the method `method` of `object` with `args` comes to.
///
/// The Go object wraps a value into a function. The filesystem writes to
/// one of the two streams, and rejects every other descriptor before it
/// looks at the buffer. The crypto object fills a byte array with random
/// bytes. A date in the arena tells its time zone offset, which is zero.
/// Every other call fails.
pub open spec fn call_outcome(
    state: StubModel,
    object: InterpValue,
    method: Name,
    args: Seq<InterpValue>,
) -> Result<CalledModel, Anomaly> {
    if object == InterpValue::Ref(GO_ID) && method == Name::MakeFuncWrapper {
        if args.len() == 0 {
            Err(Anomaly::BadWrapperArguments)
        } else {
            Ok(CalledModel::Value(GoValue::Function(state.pool.next_id())))
        }
    } else if object == InterpValue::Ref(FS_ID) && method == Name::Write {
        if !write_shape(args) {
            Err(Anomaly::BadWriteArguments)
        } else if stream_of(args[0]->Number_0) is None {
            Err(Anomaly::UnknownDescriptor)
        } else {
            match state.pool.get(args[1]->Ref_0) {
                Some(ObjectModel::Uint8Array(bytes)) => match state.pool.get(args[5]->Ref_0) {
                    Some(ObjectModel::FunctionWrapper(_, _)) => Ok(
                        CalledModel::Write(
                            planned_write(
                                bytes,
                                stream_of(args[0]->Number_0)->Some_0,
                                args[2]->Number_0,
                                args[3]->Number_0,
                            ),
                        ),
                    ),
                    _ => Err(Anomaly::BadWriteCallback),
                },
                _ => Err(Anomaly::BadWriteBuffer),
            }
        }
    } else if object == InterpValue::Ref(CRYPTO_ID) && method == Name::GetRandomValues {
        if args.len() > 0 && args[0] is Ref {
            match state.pool.get(args[0]->Ref_0) {
                Some(ObjectModel::Uint8Array(_)) => Ok(CalledModel::Value(GoValue::Undefined)),
                Some(_) => Err(Anomaly::RandomOnBadObject),
                None => Err(Anomaly::RandomOnUnknownReference),
            }
        } else {
            Err(Anomaly::BadRandomArguments)
        }
    } else if object is Ref {
        match state.pool.get(object->Ref_0) {
            Some(ObjectModel::Date) => if method == Name::GetTimezoneOffset {
                Ok(CalledModel::Value(GoValue::Number(0)))
            } else {
                Err(Anomaly::UnknownDateMethod)
            },
            _ => Err(Anomaly::UnknownObjectMethod),
        }
    } else {
        Err(Anomaly::CallOnNonObject)
    }
}

/// The state after the method `method` of `object` was called with `args`.
///
/// A call that fails changes nothing. The wrapper goes into the arena,
/// bound to the Go object as its receiver. A write replaces the pending
/// event by its own. Random values overwrite the whole byte array with the
/// next bytes of the random stream. The time zone changes nothing.
pub open spec fn call_state(
    state: StubModel,
    object: InterpValue,
    method: Name,
    args: Seq<InterpValue>,
) -> StubModel {
    if call_outcome(state, object, method, args) is Err {
        state
    } else if method == Name::MakeFuncWrapper {
        StubModel {
            pool: state.pool.insert(ObjectModel::FunctionWrapper(args[0], object)),
            ..state
        }
    } else if method == Name::Write {
        let bytes = state.pool.get(args[1]->Ref_0)->Some_0->Uint8Array_0;
        let callback = state.pool.get(args[5]->Ref_0)->Some_0;
        StubModel {
            event: Some(
                write_event(
                    callback->FunctionWrapper_0,
                    callback->FunctionWrapper_1,
                    write_count(bytes.len(), args[2]->Number_0, args[3]->Number_0) as nat,
                ),
            ),
            ..state
        }
    } else if method == Name::GetRandomValues {
        let bytes = state.pool.get(args[0]->Ref_0)->Some_0->Uint8Array_0;
        StubModel {
            pool: state.pool.replace(
                args[0]->Ref_0,
                ObjectModel::Uint8Array(stream_bytes(state.drawn, bytes.len())),
            ),
            drawn: position_after(state.drawn, words_for(bytes.len())),
            ..state
        }
    } else {
        state
    }
}

/// Whether the call puts a fresh object into the arena, for which an
/// identifier has to be left: the wrapper of a callback does.
pub open spec fn call_stores(object: InterpValue, method: Name, args: Seq<InterpValue>) -> bool {
    object == InterpValue::Ref(GO_ID) && method == Name::MakeFuncWrapper && args.len() > 0
}

/// A fresh vector with `count` bytes of `bytes`, from `start` on.
pub fn copy_range(bytes: &Vec<u8>, start: usize, count: usize) -> (copy: Vec<u8>)
    requires
        start + count <= bytes@.len(),
    ensures
        copy@ == bytes@.subrange(start as int, start + count),
{
    let len: usize = bytes.len();
    let mut copy: Vec<u8> = Vec::new();
    let mut i: usize = 0;
    while i < count
        invariant
            0 <= i <= count,
            len == bytes@.len(),
            start + count <= bytes@.len(),
            copy@ == bytes@.subrange(start as int, start + i),
        decreases count - i,
    {
        copy.push(bytes[start + i]);
        i += 1;
        assert(copy@ =~= bytes@.subrange(start as int, start + i));
    }
    copy
}

/// Tells the stream of the descriptor `fd`, a number.
pub fn descriptor_stream(fd: u64) -> (stream: Option<OutputStream>)
    ensures
        stream == stream_of(fd),
{
    if fd == ONE_BITS {
        Some(OutputStream::Stdout)
    } else if fd == TWO_BITS {
        Some(OutputStream::Stderr)
    } else {
        None
    }
}

/// Cuts the write that the guest asked for to the buffer `bytes` and copies
/// what is to be written.
pub fn plan_write(bytes: &Vec<u8>, stream: OutputStream, offset: u64, length: u64) -> (write:
    FsWrite)
    ensures
        write@ == planned_write(bytes@, stream, offset, length),
        write.data@.len() == write_count(bytes@.len(), offset, length),
{
    let len: usize = bytes.len();
    let wanted_start: u64 = number_to_u64(offset);
    let offset_clamped: bool = wanted_start > len as u64;
    let start: usize = if offset_clamped {
        len
    } else {
        wanted_start as usize
    };
    let wanted_count: u64 = number_to_u64(length);
    let length_clamped: bool = wanted_count > (len - start) as u64;
    let count: usize = if length_clamped {
        len - start
    } else {
        wanted_count as usize
    };
    FsWrite { stream, data: copy_range(bytes, start, count), offset_clamped, length_clamped }
}

/// Calls the method `method` of `object` with `args`.
pub fn value_call_impl(
    stub: &mut GoStub,
    object: InterpValue,
    method: Name,
    args: &Vec<InterpValue>,
) -> (outcome: Result<Called, Anomaly>)
    requires
        old(stub).wf(),
        call_stores(object, method, args@) ==> old(stub)@.pool.has_room(),
    ensures
        final(stub).wf(),
        final(stub)@ == call_state(old(stub)@, object, method, args@),
        outcome_view(outcome) == call_outcome(old(stub)@, object, method, args@),
{
    if object == InterpValue::Ref(GO_ID) && method == Name::MakeFuncWrapper {
        if args.len() == 0 {
            return Err(Anomaly::BadWrapperArguments);
        }
        let id: u32 = stub.pool.insert(DynamicObject::FunctionWrapper(args[0], object));
        Ok(Called::Value(GoValue::Function(id)))
    } else if object == InterpValue::Ref(FS_ID) && method == Name::Write {
        if args.len() < 6 {
            return Err(Anomaly::BadWriteArguments);
        }
        let (fd, buffer_id, offset, length, callback_id): (u64, u32, u64, u64, u32) = match (
            args[0],
            args[1],
            args[2],
            args[3],
            args[4],
            args[5],
        ) {
            (
                InterpValue::Number(fd),
                InterpValue::Ref(buffer_id),
                InterpValue::Number(offset),
                InterpValue::Number(length),
                InterpValue::Ref(null_id),
                InterpValue::Ref(callback_id),
            ) => {
                if null_id != NULL_ID {
                    return Err(Anomaly::BadWriteArguments);
                }
                (fd, buffer_id, offset, length, callback_id)
            },
            _ => {
                return Err(Anomaly::BadWriteArguments);
            },
        };
        let stream: OutputStream = match descriptor_stream(fd) {
            Some(stream) => stream,
            None => {
                return Err(Anomaly::UnknownDescriptor);
            },
        };
        let write: FsWrite = match stub.pool.get(buffer_id) {
            Some(DynamicObject::Uint8Array(bytes)) => plan_write(bytes, stream, offset, length),
            _ => {
                return Err(Anomaly::BadWriteBuffer);
            },
        };
        let (target, this): (InterpValue, InterpValue) = match stub.pool.get(callback_id) {
            Some(DynamicObject::FunctionWrapper(target, this)) => (*target, *this),
            _ => {
                return Err(Anomaly::BadWriteCallback);
            },
        };
        let written: GoValue = GoValue::Number(number_from_u64(write.data.len() as u64));
        let event_args: Vec<GoValue> = vec![GoValue::Null, written];
        proof {
            let ghost bytes = stub@.pool.get(buffer_id)->Some_0->Uint8Array_0;
            assert(event_args@ =~= write_event(
                target,
                this,
                write_count(bytes.len(), offset, length) as nat,
            ).args);
        }
        stub.pending_event = Some(PendingEvent { id: target, this, args: event_args });
        Ok(Called::Write(write))
    } else if object == InterpValue::Ref(CRYPTO_ID) && method == Name::GetRandomValues {
        if args.len() == 0 {
            return Err(Anomaly::BadRandomArguments);
        }
        let id: u32 = match args[0] {
            InterpValue::Ref(id) => id,
            _ => {
                return Err(Anomaly::BadRandomArguments);
            },
        };
        match stub.pool.get(id) {
            Some(DynamicObject::Uint8Array(_)) => {},
            Some(_) => {
                return Err(Anomaly::RandomOnBadObject);
            },
            None => {
                return Err(Anomaly::RandomOnUnknownReference);
            },
        }
        let ghost before = stub.pool@;
        let ghost len = before.get(id)->Some_0->Uint8Array_0.len();
        let ghost drawn = stub.rng.position();
        match stub.pool.get_mut(id) {
            Some(DynamicObject::Uint8Array(buffer)) => {
                stub.rng.fill(buffer);
            },
            _ => {},
        }
        proof {
            lemma_changed_is_replaced(
                stub.pool@,
                before,
                id,
                ObjectModel::Uint8Array(stream_bytes(drawn, len)),
            );
        }
        Ok(Called::Value(GoValue::Undefined))
    } else if let InterpValue::Ref(id) = object {
        match stub.pool.get(id) {
            Some(DynamicObject::Date) => {
                if method == Name::GetTimezoneOffset {
                    Ok(Called::Value(GoValue::Number(0)))
                } else {
                    Err(Anomaly::UnknownDateMethod)
                }
            },
            _ => Err(Anomaly::UnknownObjectMethod),
        }
    } else {
        Err(Anomaly::CallOnNonObject)
    }
}

/// What goes back from a method call: the reply for the guest, and the
/// write, if the call was one. Where there is a write, the caller writes its
/// bytes and resumes the guest before it hands the reply over.
pub struct CallReply {
    pub reply: Reply,
    pub write: Option<FsWrite>,
}

/// Calls the method named by `method` of the value `object` with the
/// guest's words `args`.
#[allow(non_snake_case)]
pub fn go__syscall_js_valueCall(stub: &mut GoStub, object: u64, method: &[u8], args: &[u64]) -> (called:
    CallReply)
    requires
        old(stub).wf(),
        call_stores(
            interpreted(object),
            name_of(method@),
            args@.map_values(|word: u64| interpreted(word)),
        ) ==> old(stub)@.pool.has_room(),
    ensures
        final(stub).wf(),
        final(stub)@ == call_state(
            old(stub)@,
            interpreted(object),
            name_of(method@),
            args@.map_values(|word: u64| interpreted(word)),
        ),
        match call_outcome(
            old(stub)@,
            interpreted(object),
            name_of(method@),
            args@.map_values(|word: u64| interpreted(word)),
        ) {
            Ok(CalledModel::Value(value)) => called.reply == answered(value) && called.write is None,
            Ok(CalledModel::Write(write)) => {
                &&& called.reply == answered(GoValue::Null)
                &&& called.write matches Some(handed) && handed@ == write
            },
            Err(anomaly) => called.reply == refused(anomaly) && called.write is None,
        },
{
    let object = interpret_value(object);
    let method = parse_name(method);
    let args = read_value_slice(args);
    match value_call_impl(stub, object, method, &args) {
        Ok(Called::Value(value)) => CallReply {
            reply: Reply { value: value.encode(), ok: true, anomaly: None },
            write: None,
        },
        Ok(Called::Write(write)) => CallReply {
            reply: Reply { value: GoValue::Null.encode(), ok: true, anomaly: None },
            write: Some(write),
        },
        Err(anomaly) => CallReply {
            reply: Reply { value: GoValue::Null.encode(), ok: false, anomaly: Some(anomaly) },
            write: None,
        },
    }
}

} // verus!
