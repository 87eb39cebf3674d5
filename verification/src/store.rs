//! The borrowed bit storage and the rounding division, both supplied by
//! other crates. Every contract in this file is believed, not proved.

use vstd::prelude::*;
use bitvec::order::Lsb0;
use bitvec::slice::BitSlice;
use core::sync::atomic::Ordering;
use num_integer::Integer;
use crate::model::word_bit;

verus! {

/// A read-only run of bits over borrowed 16-bit words, lowest bit of each
/// word first. It is opaque to the verifier. The only ways to make one are
/// `bits_from_words` and `bits_prefix`, so every value starts at bit 0 of its
/// first word.
#[verifier::external_body]
#[derive(Eq, PartialEq, Ord, PartialOrd, Debug, Hash)]
pub struct Bits<'a> {
    inner: &'a BitSlice<Lsb0, u16>,
}

impl<'a> Clone for Bits<'a> {
    /// A copy of the reference: the same bits over the same words.
    #[verifier::external_body]
    fn clone(&self) -> (copy: Self)
        ensures
            bits_of(copy) == bits_of(*self),
    {
        Bits { inner: self.inner }
    }
}

/// The bits that the storage holds, in order.
pub uninterp spec fn bits_of(b: Bits) -> Seq<bool>;

/// `BitSlice::from_slice`: a view of all the bits of `words`. Bit `j` is bit
/// `j % 16` of word `j / 16`. The outside function refuses more bits than
/// `usize::MAX / 8`, which the precondition leaves out.
#[verifier::external_body]
pub(crate) fn bits_from_words<'a>(words: &'a [u16]) -> (b: Bits<'a>)
    requires
        words@.len() * 16 <= usize::MAX / 8,
    ensures
        bits_of(b).len() == words@.len() * 16,
        forall|j: int|
            0 <= j < words@.len() * 16 ==> #[trigger] bits_of(b)[j] == word_bit(
                words@[j / 16],
                j % 16,
            ),
{
    Bits { inner: BitSlice::<Lsb0, u16>::from_slice(words) }
}

/// Indexing a `BitSlice` by `..n`: the first `n` bits of `b`.
#[verifier::external_body]
pub(crate) fn bits_prefix<'a>(b: Bits<'a>, n: usize) -> (p: Bits<'a>)
    requires
        n <= bits_of(b).len(),
    ensures
        bits_of(p) == bits_of(b).take(n as int),
{
    Bits { inner: &b.inner[..n] }
}

/// `BitSlice::len`: the number of bits.
#[verifier::external_body]
pub(crate) fn bits_len(b: &Bits) -> (n: usize)
    ensures
        n == bits_of(*b).len(),
{
    b.inner.len()
}

/// `BitSlice::get` with one index: the bit at `i`, or `None` when `i` is not
/// below the length.
#[verifier::external_body]
pub(crate) fn bits_get<'a>(b: &Bits<'a>, i: usize) -> (r: Option<&'a bool>)
    ensures
        i < bits_of(*b).len() ==> r == Some(&bits_of(*b)[i as int]),
        i >= bits_of(*b).len() ==> r.is_none(),
{
    b.inner.get(i)
}

/// `BitSlice::as_total_slice`, then a relaxed load of element `w`. As the
/// storage starts at bit 0 of its first word, that element holds bits
/// `16 * w` to `16 * w + 15`, lowest first. Its bits past the end of the
/// storage are whatever the borrowed word holds there: nothing is claimed of
/// them.
#[verifier::external_body]
pub(crate) fn bits_word(b: &Bits, w: usize) -> (v: u16)
    requires
        16 * w < bits_of(*b).len(),
    ensures
        forall|p: int|
            0 <= p < 16 && 16 * w + p < bits_of(*b).len() ==> word_bit(v, p) == #[trigger] bits_of(
                *b,
            )[16 * w + p],
{
    b.inner.as_total_slice()[w].load(Ordering::Relaxed)
}

/// `Integer::div_ceil` on `usize`: the quotient rounded up.
#[verifier::external_body]
pub(crate) fn div_ceil(a: usize, b: usize) -> (q: usize)
    requires
        b != 0,
    ensures
        q == a / b + (if a % b == 0 { 0int } else { 1int }),
{
    Integer::div_ceil(&a, &b)
}

} // verus!
