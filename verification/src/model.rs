//! The mathematical model: what a bit of a word is, what rank means, and
//! which summary arrays belong to a sequence of bits.

use vstd::prelude::*;

verus! {

/// Bits in one word.
pub const SMALL: usize = 16;

/// Words in one large block.
pub const S_PER_L: usize = 64;

/// Bits in one large block.
pub const LARGE: usize = 1024;

/// Bit `p` of `v`, bit 0 being the least significant.
pub open spec fn word_bit(v: u16, p: int) -> bool {
    (v >> (p as u16)) & 1u16 == 1u16
}

/// The number of set bits of `v` at positions below `p`.
pub open spec fn ones_below(v: u16, p: int) -> nat
    decreases p,
{
    if p <= 0 {
        0
    } else {
        ones_below(v, p - 1) + if word_bit(v, p - 1) { 1nat } else { 0nat }
    }
}

/// The number of set bits of `bits` at positions below `i`.
pub open spec fn rank_of(bits: Seq<bool>, i: int) -> nat
    decreases i,
{
    if i <= 0 {
        0
    } else {
        rank_of(bits, i - 1) + if bits[i - 1] { 1nat } else { 0nat }
    }
}

/// The number of clear bits of `bits` at positions below `i`.
pub open spec fn zeros_of(bits: Seq<bool>, i: int) -> nat
    decreases i,
{
    if i <= 0 {
        0
    } else {
        zeros_of(bits, i - 1) + if bits[i - 1] { 0nat } else { 1nat }
    }
}

/// The first `n` bits packed in `words`, sixteen to a word, lowest bit first.
pub open spec fn unpack(words: Seq<u16>, n: int) -> Seq<bool> {
    Seq::new(n as nat, |j: int| word_bit(words[j / 16], j % 16))
}

/// The number of words that hold `n` bits.
pub open spec fn word_count(n: int) -> int {
    (n + 15) / 16
}

/// The number of large blocks that cover `n` bits: at least one.
pub open spec fn block_count(n: int) -> int {
    if n <= 0 {
        1
    } else {
        (word_count(n) + 63) / 64
    }
}

/// The coarse summary: entry `k` counts the set bits before large block `k`.
pub open spec fn large_sums(bits: Seq<bool>) -> Seq<u32> {
    Seq::new(block_count(bits.len() as int) as nat, |k: int| rank_of(bits, 1024 * k) as u32)
}

/// The fine summary: entry `w` counts the set bits between the start of the
/// large block that holds word `w` and the start of word `w`.
pub open spec fn small_sums(bits: Seq<bool>) -> Seq<u16> {
    Seq::new(
        word_count(bits.len() as int) as nat,
        |w: int| (rank_of(bits, 16 * w) - rank_of(bits, 1024 * (w / 64))) as u16,
    )
}

/// The longest bit vector that the index accepts: its counts fit in 32 bits
/// and its words can be addressed bit by bit.
pub open spec fn max_bits() -> int {
    if u32::MAX < usize::MAX / 8 - 15 {
        u32::MAX as int
    } else {
        usize::MAX / 8 - 15
    }
}

/// A table with one row per 16-bit value and one cell per bit position,
/// each cell counting the set bits of the value below that position.
pub open spec fn is_rank_table(table: Seq<Vec<u8>>) -> bool {
    &&& table.len() == 65536
    &&& forall|v: int| 0 <= v < 65536 ==> (#[trigger] table[v])@.len() == 16
    &&& forall|v: int, p: int|
        0 <= v < 65536 && 0 <= p < 16 ==> #[trigger] table[v]@[p] == ones_below(v as u16, p)
}

/// The number of set bits of `bits` at positions from `from` up to, but not
/// including, `to`.
pub open spec fn ones_between(bits: Seq<bool>, from: int, to: int) -> nat
    decreases to - from,
{
    if to <= from {
        0
    } else {
        ones_between(bits, from, to - 1) + if bits[to - 1] { 1nat } else { 0nat }
    }
}

/// Rank by the two summaries and a scan of the word that holds position `i`.
pub open spec fn scan_rank(bits: Seq<bool>, i: int) -> int {
    large_sums(bits)[i / 1024] + small_sums(bits)[i / 16] + ones_between(bits, 16 * (i / 16), i)
}

/// Rank by the two summaries and the table cell that belongs to the word
/// holding position `i` and to the position within that word.
pub open spec fn table_rank(words: Seq<u16>, n: int, table: Seq<Vec<u8>>, i: int) -> int {
    large_sums(unpack(words, n))[i / 1024] + small_sums(unpack(words, n))[i / 16]
        + table[words[i / 16] as int]@[i % 16]
}

/// A word has at most `p` set bits below position `p`.
pub proof fn lemma_ones_below_bound(v: u16, p: int)
    requires
        0 <= p,
    ensures
        ones_below(v, p) <= p,
    decreases p,
{
    if p > 0 {
        lemma_ones_below_bound(v, p - 1);
    }
}

/// Rank never decreases, and grows by at most one per position.
pub proof fn rank_monotone(bits: Seq<bool>, i: int, j: int)
    requires
        0 <= i <= j,
    ensures
        rank_of(bits, i) <= rank_of(bits, j) <= rank_of(bits, i) + (j - i),
    decreases j - i,
{
    if i < j {
        rank_monotone(bits, i, j - 1);
    }
}

/// Rank grows by one across a set bit and stays across a clear one.
pub proof fn rank_step(bits: Seq<bool>, i: int)
    requires
        0 <= i < bits.len(),
    ensures
        rank_of(bits, i + 1) - rank_of(bits, i) == (if bits[i] { 1int } else { 0int }),
{
}

/// No bit is counted before position 0.
pub proof fn rank_at_zero(bits: Seq<bool>)
    ensures
        rank_of(bits, 0) == 0,
{
}

/// The set bits and the clear bits below `i` are `i` bits together.
pub proof fn rank_complement(bits: Seq<bool>, i: int)
    requires
        0 <= i,
    ensures
        rank_of(bits, i) + zeros_of(bits, i) == i,
    decreases i,
{
    if i > 0 {
        rank_complement(bits, i - 1);
    }
}

/// Where the low `k` bits of `v` are the bits of `bits` from `base` on, the
/// rank at `base + k` is the rank at `base` plus the set bits of `v` below `k`.
pub proof fn rank_across_word(bits: Seq<bool>, base: int, v: u16, k: int)
    requires
        0 <= base,
        0 <= k <= 16,
        forall|p: int| 0 <= p < k ==> word_bit(v, p) == #[trigger] bits[base + p],
    ensures
        rank_of(bits, base + k) == rank_of(bits, base) + ones_below(v, k),
    decreases k,
{
    if k > 0 {
        rank_across_word(bits, base, v, k - 1);
        assert(bits[base + (k - 1)] == word_bit(v, k - 1));
    }
}

/// The two summary arrays have one entry per large block (at least one) and
/// one per word; the first entry of the coarse one is zero, and the fine one
/// is zero at the start of every large block.
pub proof fn summaries_shape(bits: Seq<bool>)
    ensures
        large_sums(bits).len() == block_count(bits.len() as int),
        large_sums(bits).len() >= 1,
        small_sums(bits).len() == word_count(bits.len() as int),
        large_sums(bits)[0] == 0,
        forall|w: int|
            0 <= w < small_sums(bits).len() && w % 64 == 0 ==> #[trigger] small_sums(bits)[w] == 0,
{
    assert forall|w: int|
        0 <= w < small_sums(bits).len() && w % 64 == 0 implies #[trigger] small_sums(bits)[w]
        == 0 by {
        assert(16 * w == 1024 * (w / 64));
    }
}

/// The rank at `to` is the rank at `from` plus the set bits in between.
pub proof fn rank_split(bits: Seq<bool>, from: int, to: int)
    requires
        0 <= from <= to,
    ensures
        rank_of(bits, to) == rank_of(bits, from) + ones_between(bits, from, to),
    decreases to - from,
{
    if from < to {
        rank_split(bits, from, to - 1);
    }
}

/// The coarse summary never decreases from one large block to a later one.
pub proof fn large_sums_monotone(bits: Seq<bool>, j: int, k: int)
    requires
        bits.len() <= max_bits(),
        0 <= j <= k < large_sums(bits).len(),
    ensures
        large_sums(bits)[j] <= large_sums(bits)[k],
{
    rank_monotone(bits, 1024 * j, 1024 * k);
    rank_monotone(bits, 0, 1024 * j);
    rank_monotone(bits, 0, 1024 * k);
}

/// The fine summary never decreases from one word to a later one of the same
/// large block, and stays below the bits of a large block.
pub proof fn small_sums_monotone(bits: Seq<bool>, v: int, w: int)
    requires
        bits.len() <= max_bits(),
        0 <= v <= w < small_sums(bits).len(),
        v / 64 == w / 64,
    ensures
        small_sums(bits)[v] <= small_sums(bits)[w] < 1024,
{
    rank_monotone(bits, 1024 * (v / 64), 16 * v);
    rank_monotone(bits, 16 * v, 16 * w);
    rank_monotone(bits, 1024 * (w / 64), 16 * w);
}

/// The scanning query and the table query give the same count, the rank:
/// at every position whose word exists, the two summaries plus the set bits
/// scanned in that word, and the two summaries plus the table cell of that
/// word, both equal the number of set bits before the position.
pub proof fn rank_variants_agree(words: Seq<u16>, n: int, table: Seq<Vec<u8>>, i: int)
    requires
        0 <= n <= max_bits(),
        words.len() == word_count(n),
        0 <= i <= n,
        i / 16 < word_count(n),
        is_rank_table(table),
    ensures
        scan_rank(unpack(words, n), i) == rank_of(unpack(words, n), i),
        table_rank(words, n, table, i) == rank_of(unpack(words, n), i),
        scan_rank(unpack(words, n), i) == table_rank(words, n, table, i),
{
    let bits = unpack(words, n);
    let w = i / 16;
    let word = words[w];
    assert(w / 64 == i / 1024);
    rank_monotone(bits, 0, 1024 * (i / 1024));
    rank_monotone(bits, 1024 * (i / 1024), 16 * w);
    rank_split(bits, 16 * w, i);
    assert forall|p: int| 0 <= p < i % 16 implies word_bit(word, p) == #[trigger] bits[16 * w + p] by {
        assert((16 * w + p) / 16 == w);
        assert((16 * w + p) % 16 == p);
    }
    rank_across_word(bits, 16 * w, word, i % 16);
    assert(table[word as int]@[i % 16] == ones_below(word as int as u16, i % 16));
}

} // verus!
