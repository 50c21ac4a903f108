use bitvec::order::Lsb0;
use bitvec::vec::BitVec;
use vstd::prelude::*;

verus! {

/// Storage for the flag bank: a `BitVec` that only the wrappers below touch.
#[verifier::external_body]
pub struct FlagBits {
    bits: BitVec<usize, Lsb0>,
}

/// The bits that the storage holds, in index order.
pub uninterp spec fn bits_of(b: FlagBits) -> Seq<bool>;

/// Relies on `BitVec::repeat`: a vector of `len` bits, each equal to `bit`.
#[verifier::external_body]
fn bits_repeat(bit: bool, len: usize) -> (r: FlagBits)
    ensures
        bits_of(r) == Seq::new(len as nat, |_i: int| bit),
{
    FlagBits { bits: BitVec::repeat(bit, len) }
}

/// Relies on `BitVec::len`: the number of bits held.
#[verifier::external_body]
fn bits_len(b: &FlagBits) -> (r: usize)
    ensures
        r == bits_of(*b).len(),
{
    b.bits.len()
}

/// Relies on indexing a `BitSlice` by `usize`: the bit at `index`, which
/// panics past the end.
#[verifier::external_body]
fn bits_get(b: &FlagBits, index: usize) -> (r: bool)
    requires
        index < bits_of(*b).len(),
    ensures
        r == bits_of(*b)[index as int],
{
    b.bits[index]
}

/// Relies on `BitSlice::set`: writes one bit in place, which panics past the
/// end.
#[verifier::external_body]
fn bits_set(b: &mut FlagBits, index: usize, value: bool)
    requires
        index < bits_of(*old(b)).len(),
    ensures
        bits_of(*final(b)) == bits_of(*old(b)).update(index as int, value),
{
    b.bits.set(index, value)
}

/// The number of story flags a new bank holds.
pub const FLAG_COUNT: usize = 8000;

/// A fixed-size bank of persistent story flags, addressed by index.
pub struct FlagBank {
    bits: FlagBits,
}

impl FlagBank {
    /// The flag values, in index order.
    pub closed spec fn view(&self) -> Seq<bool> {
        bits_of(self.bits)
    }

    /// A bank of `count` flags, all clear.
    pub fn new(count: usize) -> (r: FlagBank)
        ensures
            r@ == Seq::new(count as nat, |_i: int| false),
    {
        FlagBank { bits: bits_repeat(false, count) }
    }

    /// The number of flags in the bank.
    pub fn len(&self) -> (r: usize)
        ensures
            r == self@.len(),
    {
        bits_len(&self.bits)
    }

    /// The value of flag `index`.
    pub fn get(&self, index: usize) -> (r: bool)
        requires
            index < self@.len(),
        ensures
            r == self@[index as int],
    {
        bits_get(&self.bits, index)
    }

    /// Writes flag `index`; every other flag keeps its value.
    pub fn set(&mut self, index: usize, value: bool)
        requires
            index < old(self)@.len(),
        ensures
            final(self)@ == old(self)@.update(index as int, value),
    {
        bits_set(&mut self.bits, index, value)
    }
}

} // verus!
