//! Bit vectors of the `bitvec` crate, seen as sequences of booleans.
use vstd::prelude::*;
use bitvec::vec::BitVec;

verus! {

/// A `bitvec` bit vector. Verus cannot take the declaration of `BitVec`
/// itself (its parameters are bound by traits of that crate), so it is held
/// here, and the functions below are the only way in.
#[derive(Debug)]
#[verifier::external_body]
pub struct Bits {
    b: BitVec,
}

/// The bits that a bit vector holds, first to last.
pub uninterp spec fn bits_of(b: Bits) -> Seq<bool>;

/// Relies on `BitVec::repeat`: `len` copies of `bit`.
#[verifier::external_body]
pub(crate) fn bits_repeat(bit: bool, len: usize) -> (r: Bits)
    ensures
        bits_of(r) == Seq::new(len as nat, |i: int| bit),
{
    Bits { b: BitVec::repeat(bit, len) }
}

/// Relies on `BitVec::len`: the number of bits held.
#[verifier::external_body]
pub(crate) fn bits_len(b: &Bits) -> (r: usize)
    ensures
        r == bits_of(*b).len(),
{
    b.b.len()
}

/// Relies on `BitSlice::get`: the bit at `i`, or nothing past the end.
#[verifier::external_body]
pub(crate) fn bits_get(b: &Bits, i: usize) -> (r: Option<bool>)
    ensures
        r == (if i < bits_of(*b).len() {
            Some(bits_of(*b)[i as int])
        } else {
            None::<bool>
        }),
{
    b.b.get(i).map(|v| *v)
}

/// Relies on `BitSlice::set`, which panics past the end: the bit at `i`
/// becomes `value`, the others stay.
#[verifier::external_body]
pub(crate) fn bits_set(b: &mut Bits, i: usize, value: bool)
    requires
        i < bits_of(*old(b)).len(),
    ensures
        bits_of(*final(b)) == bits_of(*old(b)).update(i as int, value),
{
    b.b.set(i, value)
}

/// Relies on `BitVec::resize`: cut to `n` bits, or grown to `n` with copies
/// of `value`.
#[verifier::external_body]
pub(crate) fn bits_resize(b: &mut Bits, n: usize, value: bool)
    ensures
        bits_of(*final(b)) == (if n <= bits_of(*old(b)).len() {
            bits_of(*old(b)).take(n as int)
        } else {
            bits_of(*old(b)) + Seq::new((n - bits_of(*old(b)).len()) as nat, |i: int| value)
        }),
{
    b.b.resize(n, value)
}

/// Relies on `BitOrAssign<&BitVec>` for `BitVec`: on two vectors of one
/// length, each bit becomes the `or` of the two bits at its place.
#[verifier::external_body]
pub(crate) fn bits_or_assign(b: &mut Bits, m: &Bits)
    requires
        bits_of(*old(b)).len() == bits_of(*m).len(),
    ensures
        bits_of(*final(b)) == Seq::new(bits_of(*old(b)).len(), |i: int| bits_of(*old(b))[i] || bits_of(*m)[i]),
{
    b.b |= &m.b;
}

/// Relies on `Not` for `BitVec`: every bit flipped, the length kept.
#[verifier::external_body]
pub(crate) fn bits_not(b: Bits) -> (r: Bits)
    ensures
        bits_of(r) == Seq::new(bits_of(b).len(), |i: int| !bits_of(b)[i]),
{
    Bits { b: !b.b }
}

/// Relies on `BitSlice::iter_ones`: the index of each set bit, from the first
/// bit to the last.
#[verifier::external_body]
pub(crate) fn bits_ones(b: &Bits) -> (r: Vec<usize>)
    ensures
        forall|k: int| 0 <= k < r@.len() ==> #[trigger] r@[k] < bits_of(*b).len() && bits_of(*b)[r@[k] as int],
        forall|k: int, l: int| 0 <= k < l < r@.len() ==> #[trigger] r@[k] < #[trigger] r@[l],
        forall|i: int| 0 <= i < bits_of(*b).len() && #[trigger] bits_of(*b)[i] ==> exists|k: int| 0 <= k < r@.len() && r@[k] == i,
{
    b.b.iter_ones().collect()
}

} // verus!
