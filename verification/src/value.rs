//! The value codec: 64-bit guest words on one side, tagged values on the
//! other.
//!
//! A guest word is a double. Ordinary numbers travel as themselves; every other
//! value is packed into the payload of a NaN, with a kind in the upper half of
//! the payload and an identifier in the lower 32 bits.

use vstd::prelude::*;
use crate::number::{is_nan, is_zero, number_is_nan, number_is_zero, same_number, CANONICAL_NAN};

verus! {

/// The identifier whose reference stands for the number zero.
pub const ZERO_ID: u32 = 1;

/// The identifier of `null`.
pub const NULL_ID: u32 = 2;

/// The identifier of the global object.
pub const GLOBAL_ID: u32 = 5;

/// The identifier of the Go runtime object.
pub const GO_ID: u32 = 6;

/// The identifier of the `Object` constructor.
pub const OBJECT_ID: u32 = 100;

/// The identifier of the `Array` constructor.
pub const ARRAY_ID: u32 = 101;

/// The identifier of the `process` object.
pub const PROCESS_ID: u32 = 102;

/// The identifier of the filesystem object.
pub const FS_ID: u32 = 103;

/// The identifier of the `Uint8Array` constructor.
pub const UINT8_ARRAY_ID: u32 = 104;

/// The identifier of the crypto object.
pub const CRYPTO_ID: u32 = 105;

/// The identifier of the `Date` constructor.
pub const DATE_ID: u32 = 106;

/// The identifier of the filesystem's table of constants.
pub const FS_CONSTANTS_ID: u32 = 200;

/// The first identifier that the arena hands out. Everything below is
/// reserved for the well-known objects above.
pub const DYNAMIC_OBJECT_ID_BASE: u32 = 10000;

/// Two to the 32nd: the weight of the kind in a packed word.
pub const KIND_UNIT: u64 = 0x1_0000_0000;

/// A guest word as this layer reads it. A number is held as its binary64
/// word.
#[derive(Clone, Copy, Debug, PartialEq, Eq, Structural)]
pub enum InterpValue {
    Undefined,
    Number(u64),
    Ref(u32),
}

/// A value as this layer hands it to the guest. A number is held as its
/// binary64 word.
#[derive(Clone, Copy, Debug, PartialEq, Eq, Structural)]
pub enum GoValue {
    Undefined,
    Number(u64),
    Null,
    Object(u32),
    String(u32),
    Symbol(u32),
    Function(u32),
}

/// The lower 32 bits of a word.
pub open spec fn low_word(repr: u64) -> u32 {
    (repr % KIND_UNIT) as u32
}

/// What a guest word means: zero is undefined, a word that is no NaN is that
/// number, a NaN whose lower half is the zero identifier is the number zero,
/// and any other NaN refers to the object named by its lower half.
pub open spec fn interpreted(repr: u64) -> InterpValue {
    if repr == 0 {
        InterpValue::Undefined
    } else if is_nan(repr) {
        if low_word(repr) == ZERO_ID {
            InterpValue::Number(0)
        } else {
            InterpValue::Ref(low_word(repr))
        }
    } else {
        InterpValue::Number(repr)
    }
}

/// The NaN that carries `kind` and `id`.
pub open spec fn packed(kind: u64, id: u32) -> u64 {
    (CANONICAL_NAN + kind * KIND_UNIT + id) as u64
}

/// The guest word of a value. Undefined is the zero word. A NaN becomes the
/// canonical NaN, whatever its payload was: that word carries no kind and the
/// identifier zero, and so reads back as a reference to the identifier zero,
/// not as a number. Both zeros become the reference to the zero identifier;
/// any other number is its own word. Null and the four kinds of reference
/// are packed.
pub open spec fn encoded(value: GoValue) -> u64 {
    match value {
        GoValue::Undefined => 0,
        GoValue::Number(bits) => if is_nan(bits) {
            CANONICAL_NAN
        } else if is_zero(bits) {
            packed(0, ZERO_ID)
        } else {
            bits
        },
        GoValue::Null => packed(0, NULL_ID),
        GoValue::Object(id) => packed(1, id),
        GoValue::String(id) => packed(2, id),
        GoValue::Symbol(id) => packed(3, id),
        GoValue::Function(id) => packed(4, id),
    }
}

/// The value under which a guest word is handed back to the guest: a
/// reference goes back as an object.
pub open spec fn as_num_or_object(value: InterpValue) -> GoValue {
    match value {
        InterpValue::Undefined => GoValue::Undefined,
        InterpValue::Number(bits) => GoValue::Number(bits),
        InterpValue::Ref(id) => GoValue::Object(id),
    }
}

/// Reads a guest word.
pub fn interpret_value(repr: u64) -> (value: InterpValue)
    ensures
        value == interpreted(repr),
{
    if repr == 0 {
        return InterpValue::Undefined;
    }
    if number_is_nan(repr) {
        let id: u32 = (repr % KIND_UNIT) as u32;
        if id == ZERO_ID {
            return InterpValue::Number(0);
        }
        return InterpValue::Ref(id);
    }
    InterpValue::Number(repr)
}

/// Reads a run of guest words, one value for each, in order.
pub fn read_value_slice(words: &[u64]) -> (values: Vec<InterpValue>)
    ensures
        values@ == words@.map_values(|w: u64| interpreted(w)),
{
    let mut values: Vec<InterpValue> = Vec::new();
    let mut i: usize = 0;
    while i < words.len()
        invariant
            0 <= i <= words@.len(),
            values@ == words@.take(i as int).map_values(|w: u64| interpreted(w)),
        decreases words@.len() - i,
    {
        values.push(interpret_value(words[i]));
        i += 1;
        assert(values@ =~= words@.take(i as int).map_values(|w: u64| interpreted(w)));
    }
    assert(words@.take(i as int) =~= words@);
    values
}

impl InterpValue {
    /// The value as it is handed back to the guest.
    pub fn assume_num_or_object(self) -> (value: GoValue)
        ensures
            value == as_num_or_object(self),
    {
        match self {
            InterpValue::Undefined => GoValue::Undefined,
            InterpValue::Number(bits) => GoValue::Number(bits),
            InterpValue::Ref(id) => GoValue::Object(id),
        }
    }
}

impl GoValue {
    /// Writes the value as a guest word.
    pub fn encode(self) -> (repr: u64)
        ensures
            repr == encoded(self),
    {
        let (kind, id): (u64, u32) = match self {
            GoValue::Undefined => {
                return 0;
            },
            GoValue::Number(bits) => {
                if number_is_nan(bits) {
                    return CANONICAL_NAN;
                }
                if number_is_zero(bits) {
                    (0, ZERO_ID)
                } else {
                    return bits;
                }
            },
            GoValue::Null => (0, NULL_ID),
            GoValue::Object(id) => (1, id),
            GoValue::String(id) => (2, id),
            GoValue::Symbol(id) => (3, id),
            GoValue::Function(id) => (4, id),
        };
        CANONICAL_NAN + kind * KIND_UNIT + (id as u64)
    }
}

/// The zero word is undefined, and undefined is the zero word.
pub proof fn lemma_undefined_round_trip()
    ensures
        interpreted(0) == InterpValue::Undefined,
        interpreted(encoded(GoValue::Undefined)) == InterpValue::Undefined,
{
}

/// A number that is no NaN comes back from its guest word as an equal
/// number: as the same word, but for negative zero, which comes back as
/// positive zero.
pub proof fn lemma_number_round_trip(bits: u64)
    requires
        !is_nan(bits),
    ensures
        interpreted(encoded(GoValue::Number(bits))) == InterpValue::Number(
            if is_zero(bits) {
                0
            } else {
                bits
            },
        ),
        interpreted(encoded(GoValue::Number(bits))) matches InterpValue::Number(back)
            && same_number(back, bits),
{
}

/// A reference comes back from its guest word with its identifier, whatever
/// kind it was packed under, unless the identifier is the one that stands
/// for the number zero.
pub proof fn lemma_reference_round_trip(id: u32)
    requires
        id != ZERO_ID,
    ensures
        interpreted(encoded(GoValue::Object(id))) == InterpValue::Ref(id),
        interpreted(encoded(GoValue::String(id))) == InterpValue::Ref(id),
        interpreted(encoded(GoValue::Symbol(id))) == InterpValue::Ref(id),
        interpreted(encoded(GoValue::Function(id))) == InterpValue::Ref(id),
{
}

/// Null comes back as the reference to the null identifier, and a reference
/// to the zero identifier comes back as the number zero.
pub proof fn lemma_null_and_zero_round_trip()
    ensures
        interpreted(encoded(GoValue::Null)) == InterpValue::Ref(NULL_ID),
        interpreted(encoded(GoValue::Object(ZERO_ID))) == InterpValue::Number(0),
{
}

/// No value is written as a word that reads as a different kind of thing: a
/// word that `encode` produced is zero only for undefined.
pub proof fn lemma_encoded_zero_is_undefined(value: GoValue)
    ensures
        encoded(value) == 0 <==> value == GoValue::Undefined,
{
}

} // verus!
