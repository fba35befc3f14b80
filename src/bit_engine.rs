use fixedbitset::FixedBitSet;
use vstd::prelude::*;

verus! {

/// Declares fixedbitset's `FixedBitSet` so that it can be held in fields and passed around.
#[verifier::external_type_specification]
#[verifier::external_body]
pub struct ExFixedBitSet(FixedBitSet);

/// The bits held by a `FixedBitSet`, index by index, over its whole length.
pub uninterp spec fn bits_of(b: FixedBitSet) -> Seq<bool>;

/// Relies on `FixedBitSet::with_capacity`: `len` bits, all clear.
#[verifier::external_body]
fn bitset_with_len(len: usize) -> (r: FixedBitSet)
    ensures
        bits_of(r) == Seq::new(len as nat, |i: int| false),
{
    FixedBitSet::with_capacity(len)
}

/// Relies on `FixedBitSet::len`: the number of bits, set or clear.
#[verifier::external_body]
fn bitset_len(b: &FixedBitSet) -> (r: usize)
    ensures
        r == bits_of(*b).len(),
{
    b.len()
}

/// Relies on `FixedBitSet::contains`: the bit at `bit`, clear beyond the length.
#[verifier::external_body]
fn bitset_get(b: &FixedBitSet, bit: usize) -> (r: bool)
    ensures
        r == (bit < bits_of(*b).len() && bits_of(*b)[bit as int]),
{
    b.contains(bit)
}

/// Relies on `FixedBitSet::set`: writes one bit; it panics beyond the length.
#[verifier::external_body]
fn bitset_set(b: &mut FixedBitSet, bit: usize, enabled: bool)
    requires
        bit < bits_of(*old(b)).len(),
    ensures
        bits_of(*final(b)) == bits_of(*old(b)).update(bit as int, enabled),
{
    b.set(bit, enabled)
}

/// A fixed-size bit vector, the state edited by bit transactions.
pub struct BitState {
    bits: FixedBitSet,
}

impl View for BitState {
    type V = Seq<bool>;

    closed spec fn view(&self) -> Seq<bool> {
        bits_of(self.bits)
    }
}

impl BitState {
    /// Wraps an existing bit set.
    pub fn from_bits(bits: FixedBitSet) -> (r: Self)
        ensures
            r@ == bits_of(bits),
    {
        BitState { bits }
    }

    /// `len` clear bits.
    pub fn with_len(len: usize) -> (r: Self)
        ensures
            r@ == Seq::new(len as nat, |i: int| false),
    {
        BitState { bits: bitset_with_len(len) }
    }

    pub fn len(&self) -> (r: usize)
        ensures
            r == self@.len(),
    {
        bitset_len(&self.bits)
    }

    /// The bit at `index`; `false` beyond the length.
    pub fn get(&self, index: usize) -> (r: bool)
        ensures
            r == (index < self@.len() && self@[index as int]),
    {
        bitset_get(&self.bits, index)
    }

    /// Writes the bit at `index`.
    pub fn set(&mut self, index: usize, value: bool)
        requires
            index < old(self)@.len(),
        ensures
            final(self)@ == old(self)@.update(index as int, value),
    {
        bitset_set(&mut self.bits, index, value)
    }

    /// The underlying bit set.
    pub fn bits(&self) -> (r: &FixedBitSet)
        ensures
            bits_of(*r) == self@,
    {
        &self.bits
    }
}

/// A single primitive edit of a bit vector.
#[derive(Clone, Copy, PartialEq, Eq, Debug)]
pub enum Operation {
    /// Swap the bits at the two indices.
    Exchange(usize, usize),
}

/// Whether every index that `op` touches lies below `len`.
pub open spec fn op_in_range(op: Operation, len: nat) -> bool {
    match op {
        Operation::Exchange(a, b) => a < len && b < len,
    }
}

/// The bits after performing `op` on `bits`: both old values are read, then written swapped.
pub open spec fn exchange(bits: Seq<bool>, op: Operation) -> Seq<bool> {
    match op {
        Operation::Exchange(a, b) => bits.update(a as int, bits[b as int]).update(
            b as int,
            bits[a as int],
        ),
    }
}

/// Performs `op` on `target`.
pub fn apply(target: &mut BitState, op: &Operation)
    requires
        op_in_range(*op, old(target)@.len()),
    ensures
        final(target)@ == exchange(old(target)@, *op),
{
    match op {
        Operation::Exchange(a, b) => {
            let (a, b) = (*a, *b);
            let old_a = target.get(a);
            let old_b = target.get(b);
            target.set(a, old_b);
            target.set(b, old_a);
        },
    }
}

} // verus!
