//! The calls of the guest's bridge to its host: fields, constructors,
//! lengths, elements, copies of bytes, and the end of a reference's life.
//!
//! Each call takes the guest's words as they are, reads them with the value
//! codec, and answers with the words that go back to the guest, together
//! with the anomaly that the caller may log.

use vstd::prelude::*;
use crate::host::{Anomaly, GoStub, StubModel};
use crate::names::{name_of, parse_name, Name};
use crate::number::{nearest_number, number_from_u64, number_to_u64, truncated, MINUS_ONE_BITS};
use crate::pool::{
    copy_values,
    lemma_changed_is_replaced,
    lemma_insert_takes_unused_id,
    DynamicObject,
    ObjectModel,
    PoolModel,
};
use crate::value::{
    as_num_or_object,
    encoded,
    interpret_value,
    interpreted,
    GoValue,
    InterpValue,
    ARRAY_ID,
    CRYPTO_ID,
    DATE_ID,
    DYNAMIC_OBJECT_ID_BASE,
    FS_CONSTANTS_ID,
    FS_ID,
    GLOBAL_ID,
    GO_ID,
    NULL_ID,
    OBJECT_ID,
    PROCESS_ID,
    UINT8_ARRAY_ID,
};

verus! {

/// What goes back to the guest from a call: a word, a flag that tells
/// whether the call did what was asked, and the anomaly where it did not or
/// did so only in part. A call whose guest-side signature has no flag, or no
/// word, still reports both here.
#[derive(Clone, Copy, Debug, PartialEq, Eq, Structural)]
pub struct Reply {
    pub value: u64,
    pub ok: bool,
    pub anomaly: Option<Anomaly>,
}

/// The reply of a call that did what was asked and answers `value`.
pub open spec fn answered(value: GoValue) -> Reply {
    Reply { value: encoded(value), ok: true, anomaly: None }
}

/// The reply of a call that did not do what was asked: null, not ok, and
/// the reason.
pub open spec fn refused(anomaly: Anomaly) -> Reply {
    Reply { value: encoded(GoValue::Null), ok: false, anomaly: Some(anomaly) }
}

/// The word of the number `n`.
pub open spec fn number_of(n: nat) -> GoValue {
    GoValue::Number(nearest_number(n) as u64)
}

/// `len` zero bytes.
pub open spec fn zeros(len: nat) -> Seq<u8> {
    Seq::new(len, |i: int| 0u8)
}

/// The smaller of two integers.
pub open spec fn least(a: int, b: int) -> int {
    if a <= b {
        a
    } else {
        b
    }
}

fn answer(value: GoValue) -> (reply: Reply)
    ensures
        reply == answered(value),
{
    Reply { value: value.encode(), ok: true, anomaly: None }
}

fn refuse(anomaly: Anomaly) -> (reply: Reply)
    ensures
        reply == refused(anomaly),
{
    Reply { value: GoValue::Null.encode(), ok: false, anomaly: Some(anomaly) }
}

fn number(n: usize) -> (value: GoValue)
    ensures
        value == number_of(n as nat),
{
    GoValue::Number(number_from_u64(n as u64))
}

/// What reading a field finds: a value, an object that is made for the
/// occasion and goes into the arena, or nothing.
pub enum FieldModel {
    Known(GoValue),
    Fresh(ObjectModel),
    Unknown,
}

/// The field `field` of the object `source`.
///
/// The global object has the constructors and the well-known objects, and
/// `fetch` as undefined. The filesystem has its constants, each of which is
/// minus one. The Go object has the pending event: null where none waits,
/// else a fresh copy of the one that waits. A pending event in the arena has
/// its target, its receiver, and its arguments as a fresh array. Nothing else
/// has fields.
pub open spec fn field_of(state: StubModel, source: u32, field: Name) -> FieldModel {
    if source == GLOBAL_ID {
        match field {
            Name::Object => FieldModel::Known(GoValue::Function(OBJECT_ID)),
            Name::Array => FieldModel::Known(GoValue::Function(ARRAY_ID)),
            Name::Process => FieldModel::Known(GoValue::Object(PROCESS_ID)),
            Name::Fs => FieldModel::Known(GoValue::Object(FS_ID)),
            Name::Uint8Array => FieldModel::Known(GoValue::Function(UINT8_ARRAY_ID)),
            Name::Crypto => FieldModel::Known(GoValue::Object(CRYPTO_ID)),
            Name::Date => FieldModel::Known(GoValue::Object(DATE_ID)),
            Name::Fetch => FieldModel::Known(GoValue::Undefined),
            _ => FieldModel::Unknown,
        }
    } else if source == FS_ID {
        match field {
            Name::Constants => FieldModel::Known(GoValue::Object(FS_CONSTANTS_ID)),
            _ => FieldModel::Unknown,
        }
    } else if source == FS_CONSTANTS_ID {
        match field {
            Name::OpenFlag => FieldModel::Known(GoValue::Number(MINUS_ONE_BITS)),
            _ => FieldModel::Unknown,
        }
    } else if source == GO_ID {
        match field {
            Name::PendingEvent => match state.event {
                Some(event) => FieldModel::Fresh(ObjectModel::PendingEvent(event)),
                None => FieldModel::Known(GoValue::Null),
            },
            _ => FieldModel::Unknown,
        }
    } else {
        match state.pool.get(source) {
            Some(ObjectModel::PendingEvent(event)) => match field {
                Name::Id => FieldModel::Known(as_num_or_object(event.id)),
                Name::This => FieldModel::Known(as_num_or_object(event.this)),
                Name::Args => FieldModel::Fresh(ObjectModel::ValueArray(event.args)),
                _ => FieldModel::Unknown,
            },
            _ => FieldModel::Unknown,
        }
    }
}

/// The state after the field `field` of `source` was read: a fresh object
/// goes into the arena, and nothing else changes.
pub open spec fn get_state(state: StubModel, source: InterpValue, field: Name) -> StubModel {
    match source {
        InterpValue::Ref(id) => match field_of(state, id, field) {
            FieldModel::Fresh(object) => StubModel { pool: state.pool.insert(object), ..state },
            _ => state,
        },
        _ => state,
    }
}

/// The reply to reading the field `field` of `source`: the value that was
/// found, a reference to the fresh object, undefined for a field that the
/// object does not have, or null for a source that is no reference.
pub open spec fn get_reply(state: StubModel, source: InterpValue, field: Name) -> Reply {
    match source {
        InterpValue::Ref(id) => match field_of(state, id, field) {
            FieldModel::Known(value) => answered(value),
            FieldModel::Fresh(_) => answered(GoValue::Object(state.pool.next_id())),
            FieldModel::Unknown => Reply {
                value: encoded(GoValue::Undefined),
                ok: false,
                anomaly: Some(Anomaly::UnknownField),
            },
        },
        _ => refused(Anomaly::ReadFromNonObject),
    }
}

/// What reading a field finds.
pub enum FieldFound {
    Known(GoValue),
    Fresh(DynamicObject),
    Unknown,
}

impl View for FieldFound {
    type V = FieldModel;

    open spec fn view(&self) -> FieldModel {
        match self {
            FieldFound::Known(value) => FieldModel::Known(*value),
            FieldFound::Fresh(object) => FieldModel::Fresh(object@),
            FieldFound::Unknown => FieldModel::Unknown,
        }
    }
}

/// Finds the field `field` of the object `source`.
pub fn get_field(stub: &GoStub, source: u32, field: Name) -> (found: FieldFound)
    requires
        stub.wf(),
    ensures
        found@ == field_of(stub@, source, field),
{
    if source == GLOBAL_ID {
        match field {
            Name::Object => FieldFound::Known(GoValue::Function(OBJECT_ID)),
            Name::Array => FieldFound::Known(GoValue::Function(ARRAY_ID)),
            Name::Process => FieldFound::Known(GoValue::Object(PROCESS_ID)),
            Name::Fs => FieldFound::Known(GoValue::Object(FS_ID)),
            Name::Uint8Array => FieldFound::Known(GoValue::Function(UINT8_ARRAY_ID)),
            Name::Crypto => FieldFound::Known(GoValue::Object(CRYPTO_ID)),
            Name::Date => FieldFound::Known(GoValue::Object(DATE_ID)),
            Name::Fetch => FieldFound::Known(GoValue::Undefined),
            _ => FieldFound::Unknown,
        }
    } else if source == FS_ID {
        match field {
            Name::Constants => FieldFound::Known(GoValue::Object(FS_CONSTANTS_ID)),
            _ => FieldFound::Unknown,
        }
    } else if source == FS_CONSTANTS_ID {
        match field {
            Name::OpenFlag => FieldFound::Known(GoValue::Number(MINUS_ONE_BITS)),
            _ => FieldFound::Unknown,
        }
    } else if source == GO_ID {
        match field {
            Name::PendingEvent => match &stub.pending_event {
                Some(event) => FieldFound::Fresh(DynamicObject::PendingEvent(event.duplicate())),
                None => FieldFound::Known(GoValue::Null),
            },
            _ => FieldFound::Unknown,
        }
    } else {
        match stub.pool.get(source) {
            Some(DynamicObject::PendingEvent(event)) => match field {
                Name::Id => FieldFound::Known(event.id.assume_num_or_object()),
                Name::This => FieldFound::Known(event.this.assume_num_or_object()),
                Name::Args => FieldFound::Fresh(DynamicObject::ValueArray(copy_values(&event.args))),
                _ => FieldFound::Unknown,
            },
            _ => FieldFound::Unknown,
        }
    }
}

/// Whether reading the field `field` of `source` puts a fresh object into
/// the arena, for which an identifier has to be left.
pub open spec fn get_stores(state: StubModel, source: InterpValue, field: Name) -> bool {
    source matches InterpValue::Ref(id) && field_of(state, id, field) is Fresh
}

/// Reads the field named by `field` of the value `source`.
#[allow(non_snake_case)]
pub fn go__syscall_js_valueGet(stub: &mut GoStub, source: u64, field: &[u8]) -> (reply: Reply)
    requires
        old(stub).wf(),
        get_stores(old(stub)@, interpreted(source), name_of(field@)) ==> old(
            stub,
        )@.pool.has_room(),
    ensures
        final(stub).wf(),
        final(stub)@ == get_state(old(stub)@, interpreted(source), name_of(field@)),
        reply == get_reply(old(stub)@, interpreted(source), name_of(field@)),
{
    let source = interpret_value(source);
    let field = parse_name(field);
    match source {
        InterpValue::Ref(id) => match get_field(stub, id, field) {
            FieldFound::Known(value) => answer(value),
            FieldFound::Fresh(object) => {
                let fresh: u32 = stub.pool.insert(object);
                answer(GoValue::Object(fresh))
            },
            FieldFound::Unknown => Reply {
                value: GoValue::Undefined.encode(),
                ok: false,
                anomaly: Some(Anomaly::UnknownField),
            },
        },
        _ => refuse(Anomaly::ReadFromNonObject),
    }
}

/// A reference that is handed to the guest for a fresh object reads back, as
/// an object and as a function, as a reference to an identifier of the
/// arena under which the object is live.
pub proof fn lemma_fresh_reference_is_live(pool: PoolModel, object: ObjectModel)
    requires
        pool.wf(),
        pool.has_room(),
        object.fits(),
    ensures
        pool.next_id() >= DYNAMIC_OBJECT_ID_BASE,
        interpreted(encoded(GoValue::Object(pool.next_id()))) == InterpValue::Ref(pool.next_id()),
        interpreted(encoded(GoValue::Function(pool.next_id()))) == InterpValue::Ref(
            pool.next_id(),
        ),
        pool.insert(object).get(pool.next_id()) == Some(object),
{
    lemma_insert_takes_unused_id(pool);
}

/// The length of the byte array that is constructed for the number `size`:
/// the number cut to an integer, and to what a buffer can hold.
pub open spec fn array_length(size: u64) -> nat {
    least(truncated(size), usize::MAX as int) as nat
}

/// The object that constructing the class `class` with `args` makes. A byte
/// array takes its length from its first argument, which has to be a number,
/// and is filled with zeros. A date takes nothing. No other class can be
/// constructed.
pub open spec fn constructed(class: u32, args: Seq<u64>) -> Result<ObjectModel, Anomaly> {
    if class == UINT8_ARRAY_ID {
        if args.len() > 0 && interpreted(args[0]) is Number {
            Ok(ObjectModel::Uint8Array(zeros(array_length(interpreted(args[0])->Number_0))))
        } else {
            Err(Anomaly::BadArrayArguments)
        }
    } else if class == DATE_ID {
        Ok(ObjectModel::Date)
    } else {
        Err(Anomaly::UnknownClass)
    }
}

/// The state after a construction: what was made is in the arena.
pub open spec fn new_state(state: StubModel, class: u32, args: Seq<u64>) -> StubModel {
    match constructed(class, args) {
        Ok(object) => StubModel { pool: state.pool.insert(object), ..state },
        Err(_) => state,
    }
}

/// The reply to a construction: a reference to what was made, or the reason
/// why nothing was.
pub open spec fn new_reply(state: StubModel, class: u32, args: Seq<u64>) -> Reply {
    match constructed(class, args) {
        Ok(_) => answered(GoValue::Object(state.pool.next_id())),
        Err(anomaly) => refused(anomaly),
    }
}

/// Constructs an object of the class `class` from the arguments `args`.
#[allow(non_snake_case)]
pub fn go__syscall_js_valueNew(stub: &mut GoStub, class: u32, args: &[u64]) -> (reply: Reply)
    requires
        old(stub).wf(),
        constructed(class, args@) is Ok ==> old(stub)@.pool.has_room(),
    ensures
        final(stub).wf(),
        final(stub)@ == new_state(old(stub)@, class, args@),
        reply == new_reply(old(stub)@, class, args@),
{
    if class == UINT8_ARRAY_ID {
        if args.len() > 0 {
            if let InterpValue::Number(size) = interpret_value(args[0]) {
                let wanted: u64 = number_to_u64(size);
                let len: usize = if wanted > usize::MAX as u64 {
                    usize::MAX
                } else {
                    wanted as usize
                };
                let bytes: Vec<u8> = vec![0u8; len];
                assert(bytes@ =~= zeros(array_length(size)));
                let id: u32 = stub.pool.insert(DynamicObject::Uint8Array(bytes));
                return answer(GoValue::Object(id));
            }
        }
        refuse(Anomaly::BadArrayArguments)
    } else if class == DATE_ID {
        let id: u32 = stub.pool.insert(DynamicObject::Date);
        answer(GoValue::Object(id))
    } else {
        refuse(Anomaly::UnknownClass)
    }
}

/// The number of elements of the value `source`: the length of a byte array
/// or of an array of values. Nothing else has a length.
pub open spec fn length_of(state: StubModel, source: InterpValue) -> Option<nat> {
    match source {
        InterpValue::Ref(id) => match state.pool.get(id) {
            Some(ObjectModel::Uint8Array(bytes)) => Some(bytes.len()),
            Some(ObjectModel::ValueArray(values)) => Some(values.len()),
            _ => None,
        },
        _ => None,
    }
}

/// The length of a value in a well-formed state is one that an index of
/// this machine reaches, so that its word is the plain length; and an index
/// that is too large for the machine lies beyond every length.
pub proof fn lemma_lengths_fit(state: StubModel, source: InterpValue, index: u64)
    requires
        state.wf(),
    ensures
        length_of(state, source) matches Some(len) ==> len <= usize::MAX && len as u64 == len,
        indexed(state, source, index) == Err::<GoValue, Anomaly>(Anomaly::IndexTooLarge)
            ==> !(length_of(state, source) matches Some(len) && index < len),
{
}

/// Tells the length of the value `source`. The word of the reply is the
/// length as an integer, not as a number of the guest; it is zero for a value
/// without a length.
#[allow(non_snake_case)]
pub fn go__syscall_js_valueLength(stub: &GoStub, source: u64) -> (reply: Reply)
    requires
        stub.wf(),
    ensures
        reply == match length_of(stub@, interpreted(source)) {
            Some(len) => Reply { value: len as u64, ok: true, anomaly: None },
            None => Reply { value: 0, ok: false, anomaly: Some(Anomaly::NoLength) },
        },
{
    let len: Option<usize> = match interpret_value(source) {
        InterpValue::Ref(id) => match stub.pool.get(id) {
            Some(DynamicObject::Uint8Array(bytes)) => Some(bytes.len()),
            Some(DynamicObject::ValueArray(values)) => Some(values.len()),
            _ => None,
        },
        _ => None,
    };
    match len {
        Some(len) => Reply { value: len as u64, ok: true, anomaly: None },
        None => Reply { value: 0, ok: false, anomaly: Some(Anomaly::NoLength) },
    }
}

/// The element `index` of the value `source`: a byte of a byte array as a
/// number, or a value of an array of values.
pub open spec fn indexed(state: StubModel, source: InterpValue, index: u64) -> Result<
    GoValue,
    Anomaly,
> {
    match source {
        InterpValue::Ref(id) => if index > usize::MAX {
            Err(Anomaly::IndexTooLarge)
        } else {
            match state.pool.get(id) {
                Some(ObjectModel::Uint8Array(bytes)) => if index < bytes.len() {
                    Ok(number_of(bytes[index as int] as nat))
                } else {
                    Err(Anomaly::IndexOutOfBounds)
                },
                Some(ObjectModel::ValueArray(values)) => if index < values.len() {
                    Ok(values[index as int])
                } else {
                    Err(Anomaly::IndexOutOfBounds)
                },
                _ => Err(Anomaly::IndexUnsupported),
            }
        },
        _ => Err(Anomaly::IndexNonObject),
    }
}

/// Finds the element `index` of the value `source`.
pub fn value_index_impl(stub: &GoStub, source: InterpValue, index: u64) -> (element: Result<
    GoValue,
    Anomaly,
>)
    requires
        stub.wf(),
    ensures
        element == indexed(stub@, source, index),
{
    let id: u32 = match source {
        InterpValue::Ref(id) => id,
        _ => {
            return Err(Anomaly::IndexNonObject);
        },
    };
    if index > usize::MAX as u64 {
        return Err(Anomaly::IndexTooLarge);
    }
    let index: usize = index as usize;
    match stub.pool.get(id) {
        Some(DynamicObject::Uint8Array(bytes)) => {
            if index < bytes.len() {
                Ok(number(bytes[index] as usize))
            } else {
                Err(Anomaly::IndexOutOfBounds)
            }
        },
        Some(DynamicObject::ValueArray(values)) => {
            if index < values.len() {
                Ok(values[index])
            } else {
                Err(Anomaly::IndexOutOfBounds)
            }
        },
        _ => Err(Anomaly::IndexUnsupported),
    }
}

/// Reads the element `index` of the value `source`; null where there is
/// none.
#[allow(non_snake_case)]
pub fn go__syscall_js_valueIndex(stub: &GoStub, source: u64, index: u64) -> (reply: Reply)
    requires
        stub.wf(),
    ensures
        reply == match indexed(stub@, interpreted(source), index) {
            Ok(value) => answered(value),
            Err(anomaly) => refused(anomaly),
        },
{
    match value_index_impl(stub, interpret_value(source), index) {
        Ok(value) => answer(value),
        Err(anomaly) => refuse(anomaly),
    }
}

/// Whether a write clears the pending event: null goes to the field of
/// that name on the Go object.
pub open spec fn clears_event(source: InterpValue, field: Name, value: InterpValue) -> bool {
    source == InterpValue::Ref(GO_ID) && field == Name::PendingEvent && value == InterpValue::Ref(
        NULL_ID,
    )
}

/// Whether a write is the result that the guest hands to a pending event in
/// the arena, which is accepted and dropped.
pub open spec fn sets_result(state: StubModel, source: InterpValue, field: Name) -> bool {
    source matches InterpValue::Ref(id) && state.pool.get(id) matches Some(
        ObjectModel::PendingEvent(_),
    ) && field == Name::Result
}

/// The state after a write to a field: the pending event is gone where the
/// write clears it, and nothing else changes.
pub open spec fn set_state(
    state: StubModel,
    source: InterpValue,
    field: Name,
    value: InterpValue,
) -> StubModel {
    if clears_event(source, field, value) {
        StubModel { event: None, ..state }
    } else {
        state
    }
}

/// Writes the value `value` to the field named by `field` of the value
/// `source`. Two writes are known; any other is an anomaly and does
/// nothing.
#[allow(non_snake_case)]
pub fn go__syscall_js_valueSet(stub: &mut GoStub, source: u64, field: &[u8], value: u64) -> (anomaly:
    Option<Anomaly>)
    requires
        old(stub).wf(),
    ensures
        final(stub).wf(),
        final(stub)@ == set_state(
            old(stub)@,
            interpreted(source),
            name_of(field@),
            interpreted(value),
        ),
        anomaly == if clears_event(interpreted(source), name_of(field@), interpreted(value))
            || sets_result(old(stub)@, interpreted(source), name_of(field@)) {
            None
        } else {
            Some(Anomaly::UnsupportedWrite)
        },
{
    let source = interpret_value(source);
    let field = parse_name(field);
    let value = interpret_value(value);
    if source == InterpValue::Ref(GO_ID) && field == Name::PendingEvent && value
        == InterpValue::Ref(NULL_ID) {
        stub.pending_event = None;
        return None;
    }
    if let InterpValue::Ref(id) = source {
        if let Some(DynamicObject::PendingEvent(_)) = stub.pool.get(id) {
            if field == Name::Result {
                return None;
            }
        }
    }
    Some(Anomaly::UnsupportedWrite)
}

/// The state after a value was finalized: a reference at or above the
/// arena's base leaves the arena, and nothing else changes.
pub open spec fn finalize_state(state: StubModel, value: InterpValue) -> StubModel {
    match value {
        InterpValue::Ref(id) => if id < DYNAMIC_OBJECT_ID_BASE {
            state
        } else {
            StubModel { pool: state.pool.remove(id), ..state }
        },
        _ => state,
    }
}

/// The anomaly of a finalization: none for a reserved reference and for a
/// live one, one for a reference that names nothing, another for a value
/// that is no reference.
pub open spec fn finalize_anomaly(state: StubModel, value: InterpValue) -> Option<Anomaly> {
    match value {
        InterpValue::Ref(id) => if id < DYNAMIC_OBJECT_ID_BASE || state.pool.get(id) is Some {
            None
        } else {
            Some(Anomaly::FinalizeUnknown)
        },
        _ => Some(Anomaly::FinalizeNonObject),
    }
}

/// Ends the life of the reference `value`.
#[allow(non_snake_case)]
pub fn go__syscall_js_finalizeRef(stub: &mut GoStub, value: u64) -> (anomaly: Option<Anomaly>)
    requires
        old(stub).wf(),
    ensures
        final(stub).wf(),
        final(stub)@ == finalize_state(old(stub)@, interpreted(value)),
        anomaly == finalize_anomaly(old(stub)@, interpreted(value)),
{
    match interpret_value(value) {
        InterpValue::Ref(id) => {
            if id < DYNAMIC_OBJECT_ID_BASE {
                None
            } else if stub.pool.remove(id).is_none() {
                Some(Anomaly::FinalizeUnknown)
            } else {
                None
            }
        },
        _ => Some(Anomaly::FinalizeNonObject),
    }
}

/// The byte array under the reference `value`, or the reason why bytes
/// cannot be copied to or from it.
pub open spec fn buffer_of(state: StubModel, value: InterpValue) -> Result<Seq<u8>, Anomaly> {
    match value {
        InterpValue::Ref(id) => match state.pool.get(id) {
            Some(ObjectModel::Uint8Array(bytes)) => Ok(bytes),
            _ => Err(Anomaly::CopyUnsupportedObject),
        },
        _ => Err(Anomaly::CopyNonObject),
    }
}

/// The reply to a copy of `count` bytes between buffers of the lengths
/// `from` and `to`: the count as a number, with the anomaly of a mismatch
/// where the lengths differ.
pub open spec fn copied_reply(count: nat, from: nat, to: nat) -> Reply {
    Reply {
        value: encoded(number_of(count)),
        ok: true,
        anomaly: if from == to {
            None
        } else {
            Some(Anomaly::LengthMismatch)
        },
    }
}

/// The state after bytes were copied into the byte array under `dest`: the
/// array starts with as many bytes of `src` as it has room for, and keeps
/// what lies behind them.
pub open spec fn copy_in_state(state: StubModel, dest: InterpValue, src: Seq<u8>) -> StubModel {
    match buffer_of(state, dest) {
        Ok(bytes) => StubModel {
            pool: state.pool.replace(
                dest->Ref_0,
                ObjectModel::Uint8Array(
                    src.take(least(src.len() as int, bytes.len() as int)) + bytes.skip(
                        least(src.len() as int, bytes.len() as int),
                    ),
                ),
            ),
            ..state
        },
        Err(_) => state,
    }
}

/// Copies the guest's bytes `src` into the byte array under `dest`.
#[allow(non_snake_case)]
pub fn go__syscall_js_copyBytesToJS(stub: &mut GoStub, dest: u64, src: &[u8]) -> (reply: Reply)
    requires
        old(stub).wf(),
    ensures
        final(stub).wf(),
        final(stub)@ == copy_in_state(old(stub)@, interpreted(dest), src@),
        reply == match buffer_of(old(stub)@, interpreted(dest)) {
            Ok(bytes) => copied_reply(
                least(src@.len() as int, bytes.len() as int) as nat,
                src@.len(),
                bytes.len(),
            ),
            Err(anomaly) => refused(anomaly),
        },
{
    let id: u32 = match interpret_value(dest) {
        InterpValue::Ref(id) => id,
        _ => {
            return refuse(Anomaly::CopyNonObject);
        },
    };
    let is_buffer: bool = match stub.pool.get(id) {
        Some(DynamicObject::Uint8Array(_)) => true,
        _ => false,
    };
    if !is_buffer {
        return refuse(Anomaly::CopyUnsupportedObject);
    }
    let ghost before = stub.pool@;
    let ghost held = before.get(id)->Some_0->Uint8Array_0;
    let ghost mut written: Seq<u8> = held;
    let mut count: usize = 0;
    let mut mismatch: bool = false;
    match stub.pool.get_mut(id) {
        Some(DynamicObject::Uint8Array(buffer)) => {
            mismatch = buffer.len() != src.len();
            count = if src.len() < buffer.len() {
                src.len()
            } else {
                buffer.len()
            };
            let mut i: usize = 0;
            while i < count
                invariant
                    0 <= i <= count,
                    count <= src@.len(),
                    count <= buffer@.len(),
                    buffer@.len() == held.len(),
                    forall|j: int| 0 <= j < i ==> buffer@[j] == src@[j],
                    forall|j: int| i <= j < held.len() ==> buffer@[j] == held[j],
                decreases count - i,
            {
                buffer[i] = src[i];
                i += 1;
            }
            proof {
                written = buffer@;
                assert(written =~= src@.take(count as int) + held.skip(count as int));
            }
        },
        _ => {},
    }
    proof {
        lemma_changed_is_replaced(stub.pool@, before, id, ObjectModel::Uint8Array(written));
    }
    Reply {
        value: number(count).encode(),
        ok: true,
        anomaly: if mismatch {
            Some(Anomaly::LengthMismatch)
        } else {
            None
        },
    }
}

/// What a copy out of the arena hands back: the bytes for the guest's
/// memory, the count as a number of the guest, and whether the lengths
/// differed.
pub struct CopiedOut {
    pub bytes: Vec<u8>,
    pub count: u64,
    pub mismatch: bool,
}

/// Copies from the byte array under `src` as many bytes as the guest's
/// buffer of `dest_len` bytes has room for. Where `src` is no byte array,
/// nothing goes back to the guest but the flag that says so.
#[allow(non_snake_case)]
pub fn go__syscall_js_copyBytesToGo(stub: &GoStub, dest_len: u64, src: u64) -> (copied: Result<
    CopiedOut,
    Anomaly,
>)
    requires
        stub.wf(),
    ensures
        match buffer_of(stub@, interpreted(src)) {
            Ok(bytes) => copied matches Ok(out) && {
                &&& out.bytes@ == bytes.take(least(bytes.len() as int, dest_len as int))
                &&& out.count == encoded(
                    number_of(least(bytes.len() as int, dest_len as int) as nat),
                )
                &&& out.mismatch == (bytes.len() != dest_len)
            },
            Err(anomaly) => copied == Err::<CopiedOut, Anomaly>(anomaly),
        },
{
    let id: u32 = match interpret_value(src) {
        InterpValue::Ref(id) => id,
        _ => {
            return Err(Anomaly::CopyNonObject);
        },
    };
    match stub.pool.get(id) {
        Some(DynamicObject::Uint8Array(buffer)) => {
            let count: usize = if (buffer.len() as u64) < dest_len {
                buffer.len()
            } else {
                dest_len as usize
            };
            let mut bytes: Vec<u8> = Vec::new();
            let mut i: usize = 0;
            while i < count
                invariant
                    0 <= i <= count,
                    count <= buffer@.len(),
                    bytes@ == buffer@.take(i as int),
                decreases count - i,
            {
                bytes.push(buffer[i]);
                i += 1;
                assert(bytes@ =~= buffer@.take(i as int));
            }
            Ok(
                CopiedOut {
                    bytes,
                    count: number(count).encode(),
                    mismatch: buffer.len() as u64 != dest_len,
                },
            )
        },
        _ => Err(Anomaly::CopyUnsupportedObject),
    }
}

} // verus!
