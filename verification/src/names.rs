//! The names that the guest uses for fields and methods, recognised from
//! their bytes.

use vstd::prelude::*;
use vstd::string::*;

verus! {

/// A field or method name of the bridge's vocabulary.
#[derive(Clone, Copy, Debug, PartialEq, Eq, Structural)]
pub enum Name {
    /// `Object`
    Object,
    /// `Array`
    Array,
    /// `process`
    Process,
    /// `fs`
    Fs,
    /// `Uint8Array`
    Uint8Array,
    /// `crypto`
    Crypto,
    /// `Date`
    Date,
    /// `fetch`
    Fetch,
    /// `constants`
    Constants,
    /// One of `O_WRONLY`, `O_RDWR`, `O_CREAT`, `O_TRUNC`, `O_APPEND`,
    /// `O_EXCL`
    OpenFlag,
    /// `_pendingEvent`
    PendingEvent,
    /// `id`
    Id,
    /// `this`
    This,
    /// `args`
    Args,
    /// `result`
    Result,
    /// `_makeFuncWrapper`
    MakeFuncWrapper,
    /// `write`
    Write,
    /// `getRandomValues`
    GetRandomValues,
    /// `getTimezoneOffset`
    GetTimezoneOffset,
    /// Anything else
    Other,
}

/// The bytes of a text of ASCII characters.
pub open spec fn ascii_bytes(text: Seq<char>) -> Seq<u8> {
    Seq::new(text.len(), |i: int| text[i] as u8)
}

/// Whether `bytes` spell `text`.
pub open spec fn spells(bytes: Seq<u8>, text: &str) -> bool {
    bytes == ascii_bytes(text@)
}

/// Whether `bytes` spell one of the flags for opening a file.
pub open spec fn spells_open_flag(bytes: Seq<u8>) -> bool {
    spells(bytes, "O_WRONLY") || spells(bytes, "O_RDWR") || spells(bytes, "O_CREAT") || spells(
        bytes,
        "O_TRUNC",
    ) || spells(bytes, "O_APPEND") || spells(bytes, "O_EXCL")
}

/// The name that `bytes` spell.
pub open spec fn name_of(bytes: Seq<u8>) -> Name {
    if spells(bytes, "Object") {
        Name::Object
    } else if spells(bytes, "Array") {
        Name::Array
    } else if spells(bytes, "process") {
        Name::Process
    } else if spells(bytes, "fs") {
        Name::Fs
    } else if spells(bytes, "Uint8Array") {
        Name::Uint8Array
    } else if spells(bytes, "crypto") {
        Name::Crypto
    } else if spells(bytes, "Date") {
        Name::Date
    } else if spells(bytes, "fetch") {
        Name::Fetch
    } else if spells(bytes, "constants") {
        Name::Constants
    } else if spells_open_flag(bytes) {
        Name::OpenFlag
    } else if spells(bytes, "_pendingEvent") {
        Name::PendingEvent
    } else if spells(bytes, "id") {
        Name::Id
    } else if spells(bytes, "this") {
        Name::This
    } else if spells(bytes, "args") {
        Name::Args
    } else if spells(bytes, "result") {
        Name::Result
    } else if spells(bytes, "_makeFuncWrapper") {
        Name::MakeFuncWrapper
    } else if spells(bytes, "write") {
        Name::Write
    } else if spells(bytes, "getRandomValues") {
        Name::GetRandomValues
    } else if spells(bytes, "getTimezoneOffset") {
        Name::GetTimezoneOffset
    } else {
        Name::Other
    }
}

/// Whether `bytes` spell the ASCII text `text`.
pub fn name_is(bytes: &[u8], text: &str) -> (same: bool)
    requires
        is_ascii(text),
    ensures
        same == spells(bytes@, text),
{
    let len: usize = text.unicode_len();
    if bytes.len() != len {
        return false;
    }
    let mut i: usize = 0;
    while i < len
        invariant
            is_ascii(text),
            len == text@.len(),
            len == bytes@.len(),
            0 <= i <= len,
            forall|j: int| 0 <= j < i ==> bytes@[j] == text@[j] as u8,
        decreases len - i,
    {
        if bytes[i] != text.get_ascii(i) {
            return false;
        }
        i += 1;
    }
    assert(bytes@ =~= ascii_bytes(text@));
    true
}

/// Whether `bytes` spell one of the flags for opening a file.
pub fn is_open_flag(bytes: &[u8]) -> (flag: bool)
    ensures
        flag == spells_open_flag(bytes@),
{
    proof {
        reveal_strlit("O_WRONLY");
        reveal_strlit("O_RDWR");
        reveal_strlit("O_CREAT");
        reveal_strlit("O_TRUNC");
        reveal_strlit("O_APPEND");
        reveal_strlit("O_EXCL");
    }
    name_is(bytes, "O_WRONLY") || name_is(bytes, "O_RDWR") || name_is(bytes, "O_CREAT") || name_is(
        bytes,
        "O_TRUNC",
    ) || name_is(bytes, "O_APPEND") || name_is(bytes, "O_EXCL")
}

/// Recognises a name from its bytes.
pub fn parse_name(bytes: &[u8]) -> (name: Name)
    ensures
        name == name_of(bytes@),
{
    proof {
        reveal_strlit("Object");
        reveal_strlit("Array");
        reveal_strlit("process");
        reveal_strlit("fs");
        reveal_strlit("Uint8Array");
        reveal_strlit("crypto");
        reveal_strlit("Date");
        reveal_strlit("fetch");
        reveal_strlit("constants");
        reveal_strlit("_pendingEvent");
        reveal_strlit("id");
        reveal_strlit("this");
        reveal_strlit("args");
        reveal_strlit("result");
        reveal_strlit("_makeFuncWrapper");
        reveal_strlit("write");
        reveal_strlit("getRandomValues");
        reveal_strlit("getTimezoneOffset");
    }
    if name_is(bytes, "Object") {
        Name::Object
    } else if name_is(bytes, "Array") {
        Name::Array
    } else if name_is(bytes, "process") {
        Name::Process
    } else if name_is(bytes, "fs") {
        Name::Fs
    } else if name_is(bytes, "Uint8Array") {
        Name::Uint8Array
    } else if name_is(bytes, "crypto") {
        Name::Crypto
    } else if name_is(bytes, "Date") {
        Name::Date
    } else if name_is(bytes, "fetch") {
        Name::Fetch
    } else if name_is(bytes, "constants") {
        Name::Constants
    } else if is_open_flag(bytes) {
        Name::OpenFlag
    } else if name_is(bytes, "_pendingEvent") {
        Name::PendingEvent
    } else if name_is(bytes, "id") {
        Name::Id
    } else if name_is(bytes, "this") {
        Name::This
    } else if name_is(bytes, "args") {
        Name::Args
    } else if name_is(bytes, "result") {
        Name::Result
    } else if name_is(bytes, "_makeFuncWrapper") {
        Name::MakeFuncWrapper
    } else if name_is(bytes, "write") {
        Name::Write
    } else if name_is(bytes, "getRandomValues") {
        Name::GetRandomValues
    } else if name_is(bytes, "getTimezoneOffset") {
        Name::GetTimezoneOffset
    } else {
        Name::Other
    }
}

} // verus!
