//! The rank index: construction, bit access, and the two rank queries.

use vstd::prelude::*;
use crate::model::{
    block_count, is_rank_table, large_sums, lemma_ones_below_bound, max_bits, ones_below,
    rank_across_word, rank_complement, rank_monotone, rank_of, small_sums, unpack, word_bit,
    word_count, zeros_of, SMALL, S_PER_L,
};
use crate::store::{bits_from_words, bits_get, bits_len, bits_of, bits_prefix, bits_word, div_ceil, Bits};

verus! {

/// Why a word sequence was refused.
#[derive(Debug, Clone, Copy, PartialEq, Eq)]
pub enum BuildError {
    /// The bit count is above the longest vector that the index can count.
    TooLong,
    /// The number of words is not the number that the bit count needs.
    LengthMismatch,
}

/// A bit vector over borrowed words, with its two-level rank index.
#[derive(Eq, PartialEq, Ord, PartialOrd, Debug, Hash)]
pub struct BV<'a> {
    array: Bits<'a>,
    large_sum: Vec<u32>,
    small_sum: Vec<u16>,
}

/// Bit `p` of `v`, bit 0 being the least significant.
pub fn bit_of_word(v: u16, p: usize) -> (b: bool)
    requires
        p < 16,
    ensures
        b == word_bit(v, p as int),
{
    (v >> (p as u16)) & 1u16 == 1u16
}

/// The number of set bits of `v`.
pub fn popcount(v: u16) -> (ones: u16)
    ensures
        ones == ones_below(v, 16),
{
    let mut ones: u16 = 0;
    let mut p: usize = 0;
    while p < 16
        invariant
            p <= 16,
            ones == ones_below(v, p as int),
            ones <= p,
        decreases 16 - p,
    {
        if bit_of_word(v, p) {
            ones = ones + 1;
        }
        p = p + 1;
    }
    ones
}

impl<'a> View for BV<'a> {
    type V = Seq<bool>;

    closed spec fn view(&self) -> Seq<bool> {
        bits_of(self.array)
    }
}

impl<'a> Clone for BV<'a> {
    /// A second index over the same borrowed words.
    fn clone(&self) -> (copy: Self)
        ensures
            copy@ == self@,
            copy.wf() == self.wf(),
    {
        let copy = BV {
            array: self.array.clone(),
            large_sum: self.large_sum.clone(),
            small_sum: self.small_sum.clone(),
        };
        assert(copy.large_sum@ =~= self.large_sum@);
        assert(copy.small_sum@ =~= self.small_sum@);
        copy
    }
}

impl<'a> BV<'a> {
    /// The index belongs to the bits: the vector is not too long, and the
    /// two summary arrays hold the counts that the model assigns to its bits.
    pub closed spec fn wf(&self) -> bool {
        &&& self@.len() <= max_bits()
        &&& self.large_sum@ == large_sums(self@)
        &&& self.small_sum@ == small_sums(self@)
    }

    /// Builds the index over the first `len` bits of `words`. The words must
    /// be exactly as many as `len` bits need, and `len` at most `max_bits()`.
    pub fn new(words: &'a [u16], len: usize) -> (r: Result<BV<'a>, BuildError>)
        ensures
            r.is_ok() <==> len <= max_bits() && words@.len() == word_count(len as int),
            r == Err::<BV<'a>, BuildError>(BuildError::TooLong) <==> len > max_bits(),
            r == Err::<BV<'a>, BuildError>(BuildError::LengthMismatch) <==> len <= max_bits()
                && words@.len() != word_count(len as int),
            r.is_ok() ==> r.unwrap().wf() && r.unwrap()@ == unpack(words@, len as int),
    {
        let cap: usize = usize::MAX / 8 - 15;
        if len > cap || len as u64 > u32::MAX as u64 {
            return Err(BuildError::TooLong);
        }
        let n_words = div_ceil(len, SMALL);
        if words.len() != n_words {
            return Err(BuildError::LengthMismatch);
        }
        let array = bits_prefix(bits_from_words(words), len);
        assert(bits_of(array) =~= unpack(words@, len as int));
        let (large_sum, small_sum) = Self::build_sums(&array, n_words);
        Ok(BV { array, large_sum, small_sum })
    }

    /// One pass over the words, carrying the count of set bits so far and the
    /// count since the start of the current large block. The last word is not
    /// counted: no summary entry follows it.
    fn build_sums(array: &Bits<'a>, n_words: usize) -> (sums: (Vec<u32>, Vec<u16>))
        requires
            bits_of(*array).len() <= max_bits(),
            n_words == word_count(bits_of(*array).len() as int),
        ensures
            sums.0@ == large_sums(bits_of(*array)),
            sums.1@ == small_sums(bits_of(*array)),
    {
        let ghost bits = bits_of(*array);
        let n_blocks: usize = if n_words == 0 {
            1
        } else {
            div_ceil(n_words, S_PER_L)
        };
        let mut large_sum: Vec<u32> = Vec::with_capacity(n_blocks);
        let mut small_sum: Vec<u16> = Vec::with_capacity(n_words);
        let mut current_l: u32 = 0;
        let mut current_s: u16 = 0;
        let mut w: usize = 0;
        while w < n_words
            invariant
                bits == bits_of(*array),
                bits.len() <= max_bits(),
                n_words == word_count(bits.len() as int),
                w <= n_words,
                small_sum@.len() == w,
                large_sum@.len() == (w + 63) / 64,
                forall|k: int|
                    0 <= k < large_sum@.len() ==> #[trigger] large_sum@[k] == rank_of(
                        bits,
                        1024 * k,
                    ),
                forall|x: int|
                    0 <= x < w ==> #[trigger] small_sum@[x] == rank_of(bits, 16 * x) - rank_of(
                        bits,
                        1024 * (x / 64),
                    ),
                w < n_words ==> current_l == rank_of(bits, 16 * w),
                w < n_words && w % 64 != 0 ==> current_s == rank_of(bits, 16 * w) - rank_of(
                    bits,
                    1024 * (w / 64),
                ),
            decreases n_words - w,
        {
            if w % S_PER_L == 0 {
                large_sum.push(current_l);
                current_s = 0;
                assert(16 * w == 1024 * (w / 64));
            }
            small_sum.push(current_s);
            if w + 1 < n_words {
                let word = bits_word(array, w);
                let ones = popcount(word);
                proof {
                    lemma_ones_below_bound(word, 16);
                    rank_across_word(bits, 16 * w, word, 16);
                    rank_monotone(bits, 0, 16 * w + 16);
                    rank_monotone(bits, 1024 * (w as int / 64), 16 * w + 16);
                }
                current_s = current_s + ones;
                current_l = current_l + ones as u32;
            }
            w = w + 1;
        }
        if n_words == 0 {
            large_sum.push(0);
        }
        assert(large_sum@ =~= large_sums(bits));
        assert(small_sum@ =~= small_sums(bits));
        (large_sum, small_sum)
    }

    /// The number of bits.
    pub fn len(&self) -> (n: usize)
        ensures
            n == self@.len(),
    {
        bits_len(&self.array)
    }

    /// The coarse summary, one count per large block.
    pub fn large_sum(&self) -> (sums: &Vec<u32>)
        requires
            self.wf(),
        ensures
            sums@ == large_sums(self@),
            sums@.len() == block_count(self@.len() as int),
    {
        &self.large_sum
    }

    /// The fine summary, one count per word.
    pub fn small_sum(&self) -> (sums: &Vec<u16>)
        requires
            self.wf(),
        ensures
            sums@ == small_sums(self@),
            sums@.len() == word_count(self@.len() as int),
    {
        &self.small_sum
    }

    /// The bit at `i`, or `None` when `i` is not below the length.
    pub fn get(&self, i: usize) -> (r: Option<&'a bool>)
        ensures
            i < self@.len() ==> r == Some(&self@[i as int]),
            i >= self@.len() ==> r.is_none(),
    {
        bits_get(&self.array, i)
    }

    /// The bit at `i`, for an `i` below the length.
    pub fn index(&self, i: usize) -> (bit: &'a bool)
        requires
            i < self@.len(),
        ensures
            *bit == self@[i as int],
    {
        match self.get(i) {
            Some(bit) => bit,
            None => &false,
        }
    }

    /// The word whose summary entries serve position `i`: the word that holds
    /// bit `i`, or the last word when `i` is the length and no word holds it.
    fn word_for(&self, i: usize) -> (w: usize)
        requires
            self.wf(),
            0 < i <= self@.len(),
        ensures
            w == (if i / 16 < word_count(self@.len() as int) { i as int / 16 } else { i as int / 16 - 1 }),
            w < word_count(self@.len() as int),
            16 * w <= i <= 16 * w + 16,
            i < self@.len() ==> w == i / 16,
    {
        let w = i / SMALL;
        if w < self.small_sum.len() {
            w
        } else {
            w - 1
        }
    }

    /// The set bits before the start of word `w`, from the two summaries.
    fn before_word(&self, w: usize) -> (count: u32)
        requires
            self.wf(),
            w < word_count(self@.len() as int),
        ensures
            count == rank_of(self@, 16 * w),
    {
        proof {
            rank_monotone(self@, 1024 * (w as int / 64), 16 * w);
            rank_monotone(self@, 0, 16 * w);
        }
        self.large_sum[w / S_PER_L] + self.small_sum[w] as u32
    }

    /// The number of set bits before position `i`, the bits of the last word
    /// counted one by one.
    pub fn rank1(&self, i: usize) -> (count: u32)
        requires
            self.wf(),
            i <= self@.len(),
        ensures
            count == rank_of(self@, i as int),
    {
        if i == 0 {
            return self.large_sum[0];
        }
        let w = self.word_for(i);
        let base = self.before_word(w);
        let mut tail: u32 = 0;
        let mut j: usize = SMALL * w;
        while j < i
            invariant
                self.wf(),
                16 * w <= j <= i <= self@.len(),
                i <= 16 * w + 16,
                tail == rank_of(self@, j as int) - rank_of(self@, 16 * w),
                tail <= j - 16 * w,
            decreases i - j,
        {
            match self.get(j) {
                Some(bit) => {
                    if *bit {
                        tail = tail + 1;
                    }
                },
                None => {},
            }
            j = j + 1;
        }
        proof {
            rank_monotone(self@, 0, i as int);
        }
        base + tail
    }

    /// The number of clear bits before position `i`.
    pub fn rank0(&self, i: usize) -> (count: u32)
        requires
            self.wf(),
            i <= self@.len(),
        ensures
            count == zeros_of(self@, i as int),
            count == i - rank_of(self@, i as int),
    {
        proof {
            rank_complement(self@, i as int);
        }
        i as u32 - self.rank1(i)
    }

    /// The number of set bits before position `i`, the bits of the last word
    /// looked up in `table`.
    pub fn rank1_with_table(&self, i: usize, table: &Vec<Vec<u8>>) -> (count: u32)
        requires
            self.wf(),
            i <= self@.len(),
            is_rank_table(table@),
        ensures
            count == rank_of(self@, i as int),
    {
        if i == 0 {
            return self.large_sum[0];
        }
        let w = self.word_for(i);
        let base = self.before_word(w);
        let raw = bits_word(&self.array, w);
        let pos = i - SMALL * w;
        let tail = tail_from_table(table, raw, pos);
        proof {
            rank_across_word(self@, 16 * w, raw, pos as int);
            rank_monotone(self@, 0, i as int);
        }
        base + tail as u32
    }

    /// The number of clear bits before position `i`, by the table.
    pub fn rank0_with_table(&self, i: usize, table: &Vec<Vec<u8>>) -> (count: u32)
        requires
            self.wf(),
            i <= self@.len(),
            is_rank_table(table@),
        ensures
            count == zeros_of(self@, i as int),
            count == i - rank_of(self@, i as int),
    {
        proof {
            rank_complement(self@, i as int);
        }
        i as u32 - self.rank1_with_table(i, table)
    }

    /// The table that `rank1_with_table` reads: one row per 16-bit value, one
    /// cell per bit position, each cell the number of set bits of the value
    /// below that position.
    pub fn rank_lookup_table() -> (table: Vec<Vec<u8>>)
        ensures
            is_rank_table(table@),
    {
        let mut table: Vec<Vec<u8>> = Vec::new();
        let mut value: usize = 0;
        while value < 65536
            invariant
                value <= 65536,
                table@.len() == value,
                forall|v: int| 0 <= v < value ==> (#[trigger] table@[v])@.len() == 16,
                forall|v: int, p: int|
                    0 <= v < value && 0 <= p < 16 ==> #[trigger] table@[v]@[p] == ones_below(
                        v as u16,
                        p,
                    ),
            decreases 65536 - value,
        {
            let row = table_row(value as u16);
            table.push(row);
            value = value + 1;
        }
        table
    }
}

/// One row of the lookup table: for each position, the number of set bits of
/// `value` below it.
pub fn table_row(value: u16) -> (row: Vec<u8>)
    ensures
        row@.len() == 16,
        forall|p: int| 0 <= p < 16 ==> #[trigger] row@[p] == ones_below(value, p),
{
    let mut row: Vec<u8> = Vec::new();
    let mut sum: u8 = 0;
    let mut pos: usize = 0;
    while pos < 16
        invariant
            pos <= 16,
            row@.len() == pos,
            sum == ones_below(value, pos as int),
            sum <= pos,
            forall|p: int| 0 <= p < pos ==> #[trigger] row@[p] == ones_below(value, p),
        decreases 16 - pos,
    {
        row.push(sum);
        if bit_of_word(value, pos) {
            sum = sum + 1;
        }
        pos = pos + 1;
    }
    row
}

/// The number of set bits of `raw` below `pos`, read from `table`. The table
/// has no cell for a whole word, so that count is the last cell plus the
/// word's highest bit.
pub fn tail_from_table(table: &Vec<Vec<u8>>, raw: u16, pos: usize) -> (tail: u8)
    requires
        is_rank_table(table@),
        pos <= 16,
    ensures
        tail == ones_below(raw, pos as int),
{
    proof {
        lemma_ones_below_bound(raw, pos as int);
        lemma_ones_below_bound(raw, 15);
    }
    let row = &table[raw as usize];
    if pos < 16 {
        row[pos]
    } else if bit_of_word(raw, 15) {
        row[15] + 1
    } else {
        row[15]
    }
}

} // verus!
