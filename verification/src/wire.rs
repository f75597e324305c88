//! Words as bytes, the least significant byte first.
//!
//! Every file the kernel writes is a run of 64-bit words, so that what a field
//! held is on disk bit for bit.

use vstd::arithmetic::power::*;
use vstd::prelude::*;

use crate::generated::frames;
use crate::generated::frames::Frame;

verus! {

/// The last `count` bytes of `x`, the least significant first.
pub open spec fn little_endian(x: nat, count: nat) -> Seq<u8>
    decreases count,
{
    if count == 0 {
        Seq::empty()
    } else {
        seq![(x % 256) as u8] + little_endian(x / 256, (count - 1) as nat)
    }
}

/// What a run of bytes says, the least significant first.
pub open spec fn number(bytes: Seq<u8>) -> nat
    decreases bytes.len(),
{
    if bytes.len() == 0 {
        0
    } else {
        bytes[0] as nat + 256 * number(bytes.drop_first())
    }
}

pub proof fn lemma_number_is_bounded(bytes: Seq<u8>)
    ensures
        number(bytes) < pow(256, bytes.len()),
    decreases bytes.len(),
{
    reveal(pow);
    if bytes.len() > 0 {
        lemma_number_is_bounded(bytes.drop_first());
    }
}

/// A number comes back out of its bytes.
pub proof fn lemma_number_of_bytes(x: nat, count: nat)
    requires
        x < pow(256, count),
    ensures
        little_endian(x, count).len() == count,
        number(little_endian(x, count)) == x,
    decreases count,
{
    reveal(pow);
    if count > 0 {
        lemma_number_of_bytes(x / 256, (count - 1) as nat);
        let bytes = little_endian(x, count);
        assert(bytes.drop_first() =~= little_endian(x / 256, (count - 1) as nat));
    }
}

proof fn lemma_eight_bytes()
    ensures
        pow(256, 8) == 0x1_0000_0000_0000_0000,
{
    reveal_with_fuel(pow, 9);
    assert(256 * 256 * 256 * 256 * 256 * 256 * 256 * 256 == 0x1_0000_0000_0000_0000);
}

/// The bytes of a run of words.
pub open spec fn packed(words: Seq<u64>) -> Seq<u8>
    decreases words.len(),
{
    if words.len() == 0 {
        Seq::empty()
    } else {
        packed(words.drop_last()) + little_endian(words.last() as nat, 8)
    }
}

/// The word that starts at byte `at`.
pub open spec fn word_at(bytes: Seq<u8>, at: int) -> u64 {
    number(bytes.subrange(at, at + 8)) as u64
}

pub proof fn lemma_packed_len(words: Seq<u64>)
    ensures
        packed(words).len() == 8 * words.len(),
    decreases words.len(),
{
    if words.len() > 0 {
        lemma_packed_len(words.drop_last());
        lemma_eight_bytes();
        lemma_number_of_bytes(words.last() as nat, 8);
    }
}

pub proof fn lemma_packed_one(word: u64)
    ensures
        packed(seq![word]) == little_endian(word as nat, 8),
{
    let words = seq![word];
    assert(packed(words.drop_last()) =~= Seq::empty());
    assert(packed(words) =~= little_endian(word as nat, 8));
}

pub proof fn lemma_packed_sum(left: Seq<u64>, right: Seq<u64>)
    ensures
        packed(left + right) == packed(left) + packed(right),
    decreases right.len(),
{
    if right.len() == 0 {
        assert(left + right =~= left);
        assert(packed(left) + packed(right) =~= packed(left));
    } else {
        lemma_packed_sum(left, right.drop_last());
        assert((left + right).drop_last() =~= left + right.drop_last());
        assert(packed(left + right) =~= packed(left) + packed(right));
    }
}

/// A word comes back out of the bytes of the run it was packed in, wherever the
/// run lies in a file.
pub proof fn lemma_word_of_packed(before: Seq<u8>, words: Seq<u64>, after: Seq<u8>, index: int)
    requires
        0 <= index < words.len(),
    ensures
        word_at(before + packed(words) + after, before.len() + 8 * index) == words[index],
    decreases words.len(),
{
    lemma_packed_len(words);
    lemma_packed_len(words.drop_last());
    lemma_eight_bytes();
    lemma_number_of_bytes(words.last() as nat, 8);
    let last = little_endian(words.last() as nat, 8);
    let bytes = before + packed(words) + after;
    if index == words.len() - 1 {
        let at = before.len() + 8 * index;
        assert(bytes.subrange(at, at + 8) =~= last);
    } else {
        lemma_word_of_packed(before, words.drop_last(), last + after, index);
        assert(bytes =~= before + packed(words.drop_last()) + (last + after));
    }
}

/// Append the bytes of a word.
pub fn put(bytes: &mut Vec<u8>, word: u64)
    ensures
        final(bytes)@ == old(bytes)@ + little_endian(word as nat, 8),
{
    let mut rest: u64 = word;
    let mut i: usize = 0;
    assert(bytes@ + little_endian(word as nat, 8) =~= old(bytes)@ + little_endian(word as nat, 8));
    while i < 8
        invariant
            i <= 8,
            bytes@ + little_endian(rest as nat, (8 - i) as nat) == old(bytes)@ + little_endian(
                word as nat,
                8,
            ),
        decreases 8 - i,
    {
        let ghost before = bytes@;
        bytes.push((rest % 256) as u8);
        proof {
            let tail = little_endian((rest / 256) as nat, (8 - i - 1) as nat);
            assert(before + (seq![(rest % 256) as u8] + tail) =~= bytes@ + tail);
        }
        rest = rest / 256;
        i += 1;
    }
    assert(bytes@ + little_endian(rest as nat, 0) =~= bytes@);
}

/// Append the bytes of a run of words.
pub fn put_words(bytes: &mut Vec<u8>, words: &Vec<u64>)
    ensures
        final(bytes)@ == old(bytes)@ + packed(words@),
{
    let mut i: usize = 0;
    assert(bytes@ =~= old(bytes)@ + packed(words@.take(0)));
    while i < words.len()
        invariant
            i <= words.len(),
            bytes@ == old(bytes)@ + packed(words@.take(i as int)),
        decreases words.len() - i,
    {
        put(bytes, words[i]);
        i += 1;
        proof {
            let run = words@.take(i as int);
            assert(run.drop_last() =~= words@.take(i - 1));
            assert(bytes@ =~= old(bytes)@ + packed(run));
        }
    }
    assert(words@.take(words@.len() as int) =~= words@);
}

/// Append the bytes of a frame.
pub fn put_frame<T: Frame>(bytes: &mut Vec<u8>, frame: &T)
    ensures
        final(bytes)@ == old(bytes)@ + packed(frames::words(*frame)),
{
    let count: usize = T::field_count();
    let mut words: Vec<u64> = Vec::new();
    let mut i: usize = 0;
    while i < count
        invariant
            i <= count,
            count == T::size(),
            words@ == frames::words(*frame).take(i as int),
        decreases count - i,
    {
        words.push(frame.field(i));
        i += 1;
        assert(words@ =~= frames::words(*frame).take(i as int));
    }
    assert(words@ =~= frames::words(*frame));
    put_words(bytes, &words);
}

/// The word that starts at byte `at`.
pub fn read_word(bytes: &Vec<u8>, at: usize) -> (word: u64)
    requires
        at + 8 <= bytes@.len(),
    ensures
        word == word_at(bytes@, at as int),
{
    let ghost run = bytes@.subrange(at as int, at + 8);
    let mut word: u64 = 0;
    let mut i: usize = 8;
    assert(run.skip(8).len() == 0);
    while i > 0
        invariant
            i <= 8,
            at + 8 <= bytes@.len(),
            run == bytes@.subrange(at as int, at + 8),
            word == number(run.skip(i as int)),
        decreases i,
    {
        i -= 1;
        assert(bytes.len() == bytes@.len());
        proof {
            let tail = run.skip(i as int);
            assert(tail.drop_first() =~= run.skip(i + 1));
            assert(tail[0] == bytes@[at + i]);
            lemma_number_is_bounded(tail);
            lemma_eight_bytes();
            lemma_pow_increases(256, tail.len(), 8);
        }
        word = bytes[at + i] as u64 + 256 * word;
    }
    assert(run.skip(0) =~= run);
    word
}

/// The frame whose first word starts at byte `at`.
pub fn read_frame<T: Frame>(bytes: &Vec<u8>, at: usize) -> (frame: T)
    requires
        at + 8 * T::size() <= bytes@.len(),
    ensures
        forall|i: int|
            0 <= i < T::size() ==> #[trigger] frame.word(i) == word_at(bytes@, at + 8 * i),
{
    let count: usize = T::field_count();
    let mut words: Vec<u64> = Vec::new();
    let mut i: usize = 0;
    while i < count
        invariant
            i <= count,
            count == T::size(),
            at + 8 * T::size() <= bytes@.len(),
            words@.len() == i,
            forall|j: int| 0 <= j < i ==> #[trigger] words@[j] == word_at(bytes@, at + 8 * j),
        decreases count - i,
    {
        assert(bytes.len() == bytes@.len());
        words.push(read_word(bytes, at + 8 * i));
        i += 1;
    }
    T::from_words(&words, 0)
}

} // verus!
