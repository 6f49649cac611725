//! Plain values shared by every module: roots, slots and epochs.

use vstd::prelude::*;

verus! {

/// A slot number.
pub type Slot = u64;

/// An epoch number.
pub type Epoch = u64;

/// The index of a validator in the registry.
pub type ValidatorIndex = u64;

/// A 32-byte root (block root, state root, committee root).
#[derive(Clone, Copy, Debug)]
pub struct Hash256(pub [u8; 32]);

impl Hash256 {
    /// The bytes of the root, as a sequence of length 32.
    pub open spec fn bytes(self) -> Seq<u8> {
        self.0@
    }

    /// The all-zero root.
    pub fn zero() -> (r: Hash256)
        ensures
            r.bytes() == Seq::new(32, |i: int| 0u8),
    {
        let r = Hash256([0u8; 32]);
        assert(r.bytes() =~= Seq::new(32, |i: int| 0u8));
        r
    }

    /// Whether every byte of the root is zero.
    pub fn is_zero(&self) -> (r: bool)
        ensures
            r == (self.bytes() == Seq::new(32, |i: int| 0u8)),
    {
        let mut i: usize = 0;
        while i < 32
            invariant
                i <= 32,
                self.0@.len() == 32,
                forall|j: int| 0 <= j < i ==> self.0@[j] == 0u8,
            decreases 32 - i,
        {
            if self.0[i] != 0 {
                assert(self.bytes()[i as int] != Seq::new(32, |k: int| 0u8)[i as int]);
                return false;
            }
            i = i + 1;
        }
        assert(self.bytes() =~= Seq::new(32, |i: int| 0u8));
        true
    }
}

impl PartialEq for Hash256 {
    fn eq(&self, other: &Hash256) -> (r: bool) {
        let mut i: usize = 0;
        while i < 32
            invariant
                i <= 32,
                self.0@.len() == 32,
                other.0@.len() == 32,
                forall|j: int| 0 <= j < i ==> self.0@[j] == other.0@[j],
            decreases 32 - i,
        {
            if self.0[i] != other.0[i] {
                return false;
            }
            i = i + 1;
        }
        assert(self.0@ =~= other.0@);
        true
    }
}

impl vstd::std_specs::cmp::PartialEqSpecImpl for Hash256 {
    open spec fn obeys_eq_spec() -> bool {
        true
    }

    open spec fn eq_spec(&self, other: &Hash256) -> bool {
        self.bytes() == other.bytes()
    }
}

impl Eq for Hash256 {}

} // verus!

verus! {

/// A copy of a vector of integers.
pub fn copy_u64s(v: &Vec<u64>) -> (r: Vec<u64>)
    ensures
        r@ == v@,
{
    let mut r: Vec<u64> = Vec::new();
    let mut i: usize = 0;
    while i < v.len()
        invariant
            i <= v.len(),
            r@ == v@.take(i as int),
        decreases v.len() - i,
    {
        r.push(v[i]);
        i = i + 1;
        assert(r@ =~= v@.take(i as int));
    }
    assert(v@.take(i as int) =~= v@);
    r
}

/// A copy of a vector of booleans.
pub fn copy_bools(v: &Vec<bool>) -> (r: Vec<bool>)
    ensures
        r@ == v@,
{
    let mut r: Vec<bool> = Vec::new();
    let mut i: usize = 0;
    while i < v.len()
        invariant
            i <= v.len(),
            r@ == v@.take(i as int),
        decreases v.len() - i,
    {
        r.push(v[i]);
        i = i + 1;
        assert(r@ =~= v@.take(i as int));
    }
    assert(v@.take(i as int) =~= v@);
    r
}

} // verus!
