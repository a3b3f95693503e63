//! The random stream: the output of one PCG generator with a fixed seed, so
//! that every run of a guest sees the same bytes.

use vstd::prelude::*;
use rand::RngCore;
use rand_pcg::Pcg32;

verus! {

/// The state that the generator is seeded with.
pub const RNG_STATE: u64 = 0xcafef00dd15ea5e5;

/// The stream that the generator is seeded with.
pub const RNG_STREAM: u64 = 0xa02bdbf7bb3c0a7;

/// Two to the 64th: the period of the generator.
pub open spec fn period() -> int {
    0x1_0000_0000_0000_0000
}

/// The 32-bit output number `index` of the PCG generator made from `state`
/// and `stream`, counting from zero.
pub uninterp spec fn pcg32_output(state: u64, stream: u64, index: u64) -> u32;

/// Computes one output of a PCG generator.
///
/// Calls `rand_pcg::Pcg32::new(state, stream)`, then `advance(index)` on the
/// generator, then `next_u32()` of `rand::RngCore`. The three are pure
/// functions of the generator's two words of state, and `advance(n)` moves
/// the generator as `n` calls of `next_u32` would. The contract claims only
/// that the result is a function of the three arguments, which it names.
#[verifier::external_body]
fn pcg32_nth(state: u64, stream: u64, index: u64) -> (word: u32)
    ensures
        word == pcg32_output(state, stream, index),
{
    let mut generator = Pcg32::new(state, stream);
    generator.advance(index);
    generator.next_u32()
}

/// The position that lies `count` draws after `position`, around the period.
pub open spec fn position_after(position: u64, count: int) -> u64 {
    ((position + count) % period()) as u64
}

/// The word drawn at `position` of the stream.
pub open spec fn word_at(position: u64) -> u32 {
    pcg32_output(RNG_STATE, RNG_STREAM, position)
}

/// Byte `k` of `word`, the least significant being byte zero.
pub open spec fn le_byte(word: u32, k: int) -> u8 {
    if k == 0 {
        (word % 256) as u8
    } else if k == 1 {
        (word / 256 % 256) as u8
    } else if k == 2 {
        (word / 65536 % 256) as u8
    } else {
        (word / 16777216 % 256) as u8
    }
}

/// Byte `i` of what a generator at `position` writes into a buffer: the
/// words of the stream from `position` on, each with its least significant
/// byte first.
pub open spec fn stream_byte(position: u64, i: int) -> u8 {
    le_byte(word_at(position_after(position, i / 4)), i % 4)
}

/// The `len` bytes that a generator at `position` writes into a buffer.
pub open spec fn stream_bytes(position: u64, len: nat) -> Seq<u8> {
    Seq::new(len, |i: int| stream_byte(position, i))
}

/// The words that `len` bytes take: one for every four bytes, and one more
/// for a remainder.
pub open spec fn words_for(len: nat) -> int {
    (len as int + 3) / 4
}

/// The bytes `bytes` with `count` of them, from `at` on, replaced by the
/// bytes of `word`, the least significant first.
pub open spec fn with_word(bytes: Seq<u8>, at: int, word: u32, count: int) -> Seq<u8> {
    Seq::new(
        bytes.len(),
        |j: int|
            if at <= j < at + count {
                le_byte(word, j - at)
            } else {
                bytes[j]
            },
    )
}

/// Writes the first `count` bytes of the drawn word `word` into `dest` from
/// `at` on, the least significant first, and leaves the rest of `dest` as it
/// is.
pub fn put_word(dest: &mut Vec<u8>, at: usize, word: u32, count: usize)
    requires
        count <= 4,
        at + count <= old(dest)@.len(),
    ensures
        final(dest)@ == with_word(old(dest)@, at as int, word, count as int),
{
    let ghost before = dest@;
    let len: usize = dest.len();
    let mut rest: u32 = word;
    let mut k: usize = 0;
    while k < count
        invariant
            0 <= k <= count <= 4,
            at + count <= len,
            len == dest@.len(),
            dest@.len() == before.len(),
            k == 0 ==> rest == word,
            k == 1 ==> rest == word / 256,
            k == 2 ==> rest == word / 65536,
            k == 3 ==> rest == word / 16777216,
            forall|j: int|
                0 <= j < dest@.len() ==> dest@[j] == if at <= j < at + k {
                    le_byte(word, j - at)
                } else {
                    before[j]
                },
        decreases count - k,
    {
        dest[at + k] = (rest % 256) as u8;
        rest = rest / 256;
        k += 1;
    }
    assert(dest@ =~= with_word(before, at as int, word, count as int));
}

/// The random stream, known by how many words were drawn from it.
pub struct Rng {
    drawn: u64,
}

impl Rng {
    /// The position in the stream: the number of words drawn so far, around
    /// the period.
    pub closed spec fn position(&self) -> u64 {
        self.drawn
    }

    /// The stream at its start.
    pub fn new() -> (rng: Self)
        ensures
            rng.position() == 0,
    {
        Rng { drawn: 0 }
    }

    /// Draws the next word.
    pub fn next_u32(&mut self) -> (word: u32)
        ensures
            word == word_at(old(self).position()),
            final(self).position() == position_after(old(self).position(), 1),
    {
        let word: u32 = pcg32_nth(RNG_STATE, RNG_STREAM, self.drawn);
        self.drawn = if self.drawn == u64::MAX {
            0
        } else {
            self.drawn + 1
        };
        word
    }

    /// Overwrites `dest` with bytes of the stream: whole words first, least
    /// significant byte first, then what is left from one more word in the
    /// same order.
    pub fn fill(&mut self, dest: &mut Vec<u8>)
        ensures
            final(dest)@ == stream_bytes(old(self).position(), old(dest)@.len()),
            final(self).position() == position_after(
                old(self).position(),
                words_for(old(dest)@.len()),
            ),
    {
        let ghost start = self.drawn;
        let len: usize = dest.len();
        let mut i: usize = 0;
        while i < len
            invariant
                0 <= i <= len,
                i % 4 == 0 || i == len,
                dest@.len() == len,
                self.position() == position_after(start, words_for(i as nat)),
                forall|j: int| 0 <= j < i ==> dest@[j] == stream_byte(start, j),
            decreases len - i,
        {
            let count: usize = if len - i >= 4 {
                4
            } else {
                len - i
            };
            let word: u32 = self.next_u32();
            put_word(dest, i, word, count);
            i += count;
        }
        assert(dest@ =~= stream_bytes(start, len as nat));
    }
}

/// What a generator writes and where it ends up depend on nothing but its
/// position and the length asked for: two generators at the same position,
/// asked for the same length, write the same bytes and end at the same
/// position.
pub proof fn lemma_same_position_same_bytes(first: Rng, second: Rng, len: nat)
    requires
        first.position() == second.position(),
    ensures
        stream_bytes(first.position(), len) == stream_bytes(second.position(), len),
        word_at(first.position()) == word_at(second.position()),
        position_after(first.position(), words_for(len)) == position_after(
            second.position(),
            words_for(len),
        ),
{
}

/// Filling a buffer of whole words and then a second buffer writes what
/// filling one buffer of both lengths writes.
pub proof fn lemma_fills_concatenate(position: u64, words: nat, len: nat)
    ensures
        stream_bytes(position, 4 * words + len) == stream_bytes(position, 4 * words)
            + stream_bytes(position_after(position, words_for(4 * words)), len),
        position_after(position_after(position, words_for(4 * words)), words_for(len))
            == position_after(position, words_for(4 * words + len)),
{
    let middle = position_after(position, words_for(4 * words));
    assert(words_for(4 * words) == words);
    assert(words_for(4 * words + len) == words + words_for(len));
    assert forall|count: int| count >= 0 implies #[trigger] position_after(middle, count)
        == position_after(position, words + count) by {
        assert(((position + words) % 0x1_0000_0000_0000_0000 + count) % 0x1_0000_0000_0000_0000
            == (position + words + count) % 0x1_0000_0000_0000_0000) by (nonlinear_arith);
    }
    let whole = stream_bytes(position, 4 * words + len);
    let parts = stream_bytes(position, 4 * words) + stream_bytes(middle, len);
    assert forall|i: int| 0 <= i < whole.len() implies whole[i] == parts[i] by {
        if i >= 4 * words {
            let j = i - 4 * words;
            assert(i / 4 == words + j / 4 && i % 4 == j % 4);
            assert(position_after(middle, j / 4) == position_after(position, words + j / 4));
        }
    }
    assert(whole =~= parts);
    assert(position_after(middle, words_for(len)) == position_after(
        position,
        words + words_for(len),
    ));
}

} // verus!
