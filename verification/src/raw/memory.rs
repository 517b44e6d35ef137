//! Memory as words.

use vstd::arithmetic::div_mod::{lemma_basic_div, lemma_div_denominator};
use vstd::arithmetic::power::{lemma_pow0, lemma_pow_positive, pow};
use vstd::prelude::*;

use crate::types::H256;

verus! {

/// The number that bytes stand for, the most significant one first.
pub open spec fn big_endian(bytes: Seq<u8>) -> nat
    decreases bytes.len(),
{
    if bytes.len() == 0 {
        0
    } else {
        big_endian(bytes.drop_last()) * 256 + bytes.last() as nat
    }
}

/// The word that at most 32 bytes stand for, with zeros in front where there are fewer.
pub open spec fn word(bytes: Seq<u8>) -> H256 {
    let split = if bytes.len() > 16 {
        bytes.len() - 16
    } else {
        0
    };
    (big_endian(bytes.take(split)) as u128, big_endian(bytes.skip(split)) as u128)
}

/// The bytes of the word with the given index; those of the last word may be fewer than 32.
pub open spec fn word_bytes(memory: Seq<u8>, index: int) -> Seq<u8> {
    memory.subrange(
        32 * index,
        if 32 * index + 32 <= memory.len() {
            32 * index + 32
        } else {
            memory.len() as int
        },
    )
}

/// The words of a memory.
pub open spec fn memory_words(memory: Seq<u8>) -> Seq<H256> {
    Seq::new(((memory.len() + 31) / 32) as nat, |i: int| word(word_bytes(memory, i)))
}

/// The greatest number that `n` bytes stand for.
spec fn greatest(n: nat) -> nat
    decreases n,
{
    if n == 0 {
        0
    } else {
        greatest((n - 1) as nat) * 256 + 255
    }
}

proof fn lemma_greatest(bytes: Seq<u8>)
    ensures
        big_endian(bytes) <= greatest(bytes.len()),
    decreases bytes.len(),
{
    if bytes.len() > 0 {
        lemma_greatest(bytes.drop_last());
    }
}

proof fn lemma_greatest_monotonic(m: nat, n: nat)
    requires
        m <= n,
    ensures
        greatest(m) <= greatest(n),
    decreases n,
{
    if m < n {
        lemma_greatest_monotonic(m, (n - 1) as nat);
    }
}

proof fn lemma_greatest_16()
    ensures
        greatest(16) == u128::MAX,
{
    reveal_with_fuel(greatest, 17);
}

/// The number that a range of at most 16 bytes stands for.
fn read_big_endian(bytes: &[u8], start: usize, end: usize) -> (r: u128)
    requires
        start <= end <= bytes@.len(),
        end - start <= 16,
    ensures
        r == big_endian(bytes@.subrange(start as int, end as int)),
{
    let mut r: u128 = 0;
    let mut i: usize = start;
    assert(bytes@.subrange(start as int, i as int) =~= Seq::empty());
    while i < end
        invariant
            start <= i <= end <= bytes@.len(),
            end - start <= 16,
            r == big_endian(bytes@.subrange(start as int, i as int)),
        decreases end - i,
    {
        let byte: u8 = bytes[i];
        proof {
            let next = bytes@.subrange(start as int, i + 1);
            assert(next.drop_last() =~= bytes@.subrange(start as int, i as int));
            assert(next.last() == byte);
            lemma_greatest(next);
            lemma_greatest_monotonic(next.len(), 16);
            lemma_greatest_16();
        }
        r = r * 256 + byte as u128;
        i = i + 1;
    }
    r
}

/// Cuts a memory into words.
pub fn convert_memory(memory: Vec<u8>) -> (r: Vec<H256>)
    ensures
        r@ == memory_words(memory@),
{
    let mut words: Vec<H256> = Vec::new();
    let bytes: &[u8] = memory.as_slice();
    let mut start: usize = 0;
    while start < bytes.len()
        invariant
            bytes@ == memory@,
            start == 32 * words@.len() || start == bytes@.len(),
            start <= bytes@.len(),
            words@.len() == (start + 31) / 32,
            forall|i: int| 0 <= i < words@.len() ==> words@[i] == word(word_bytes(memory@, i)),
        decreases bytes@.len() - start,
    {
        let end: usize = if bytes.len() - start >= 32 {
            start + 32
        } else {
            bytes.len()
        };
        let split: usize = if end - start > 16 {
            end - 16
        } else {
            start
        };
        let ghost chunk = word_bytes(memory@, words@.len() as int);
        assert(chunk =~= bytes@.subrange(start as int, end as int));
        assert(chunk.take(split - start) =~= bytes@.subrange(start as int, split as int));
        assert(chunk.skip(split - start) =~= bytes@.subrange(split as int, end as int));
        let high: u128 = read_big_endian(bytes, start, split);
        let low: u128 = read_big_endian(bytes, split, end);
        words.push((high, low));
        start = end;
    }
    assert(words@ =~= memory_words(memory@));
    words
}

proof fn lemma_digit(bytes: Seq<u8>, i: int)
    requires
        0 <= i < bytes.len(),
    ensures
        big_endian(bytes) as int / pow(256, (bytes.len() - 1 - i) as nat) % 256 == bytes[i],
    decreases bytes.len(),
{
    let rest = bytes.drop_last();
    let n = (bytes.len() - 1 - i) as nat;
    let number = big_endian(bytes) as int;
    assert(number == big_endian(rest) * 256 + bytes.last());
    if n == 0 {
        lemma_pow0(256);
    } else {
        let below = pow(256, (n - 1) as nat);
        lemma_pow_positive(256, (n - 1) as nat);
        assert(pow(256, n) == 256 * below) by {
            reveal(pow);
        }
        lemma_div_denominator(number, 256, below);
        assert(number / 256 == big_endian(rest));
        lemma_digit(rest, i);
    }
}

proof fn lemma_no_digit(bytes: Seq<u8>, n: nat)
    requires
        bytes.len() <= n,
    ensures
        big_endian(bytes) as int / pow(256, n) == 0,
    decreases bytes.len(),
{
    if bytes.len() == 0 {
        lemma_pow_positive(256, n);
        lemma_basic_div(0, pow(256, n));
    } else {
        let rest = bytes.drop_last();
        let below = pow(256, (n - 1) as nat);
        let number = big_endian(bytes) as int;
        lemma_pow_positive(256, (n - 1) as nat);
        assert(pow(256, n) == 256 * below) by {
            reveal(pow);
        }
        lemma_div_denominator(number, 256, below);
        assert(number / 256 == big_endian(rest));
        lemma_no_digit(rest, (n - 1) as nat);
    }
}

proof fn lemma_fits(bytes: Seq<u8>)
    requires
        bytes.len() <= 16,
    ensures
        big_endian(bytes) <= u128::MAX,
{
    lemma_greatest(bytes);
    lemma_greatest_monotonic(bytes.len(), 16);
    lemma_greatest_16();
}

/// The byte of a word at the given place, the most significant one first.
pub open spec fn byte_at(word: H256, place: int) -> int {
    if place < 16 {
        word.0 as int / pow(256, (15 - place) as nat) % 256
    } else {
        word.1 as int / pow(256, (31 - place) as nat) % 256
    }
}

proof fn lemma_word_bytes(bytes: Seq<u8>, place: int)
    requires
        0 < bytes.len() <= 32,
        0 <= place < 32,
    ensures
        byte_at(word(bytes), place) == if place + bytes.len() >= 32 {
            bytes[place + bytes.len() - 32] as int
        } else {
            0
        },
{
    let n = bytes.len() as int;
    let split: int = if n > 16 {
        n - 16
    } else {
        0
    };
    let high = bytes.take(split);
    let low = bytes.skip(split);
    lemma_fits(high);
    lemma_fits(low);
    if place < 16 {
        if place + n >= 32 {
            lemma_digit(high, place + n - 32);
        } else {
            lemma_no_digit(high, (15 - place) as nat);
        }
    } else {
        if place + n >= 32 {
            lemma_digit(low, place + n - 32 - split);
        } else {
            lemma_no_digit(low, (31 - place) as nat);
        }
    }
}

/// The words of a memory are its bytes in their order, 32 to a word; if the last bytes are too few
/// for a word, zeros stand in front of them.
pub proof fn words_are_bytes(memory: Seq<u8>, index: int, place: int)
    requires
        0 <= index < memory_words(memory).len(),
        0 <= place < 32,
    ensures
        32 * (memory_words(memory).len() - 1) < memory.len() <= 32 * memory_words(memory).len(),
        ({
            let missing = if 32 * index + 32 <= memory.len() {
                0
            } else {
                32 * index + 32 - memory.len()
            };
            byte_at(memory_words(memory)[index], place) == if place >= missing {
                memory[32 * index + place - missing] as int
            } else {
                0
            }
        }),
{
    lemma_word_bytes(word_bytes(memory, index), place);
}

/// A memory without bytes has no words, and one with bytes has some.
pub proof fn words_of_nothing(memory: Seq<u8>)
    ensures
        memory_words(memory).len() == 0 <==> memory.len() == 0,
{
}

} // verus!
