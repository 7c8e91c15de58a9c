//! The key matrix: a 16-bit mask recording which of the 16 hexadecimal keys
//! is currently held. The host pushes updates in; the machine only reads it.

use vstd::prelude::*;

verus! {

/// Bit `n` of `keys` is set exactly when key `n` (0x0..=0xF) is held.
#[derive(Clone, Copy, Debug)]
pub struct Keys {
    keys: u16,
}

impl Keys {
    /// Whether key `index` is held in mask `keys`.
    pub closed spec fn spec_get(self, index: u8) -> bool {
        self.keys & (1u16 << index) != 0
    }

    /// A fresh matrix with no key held.
    pub fn new() -> (r: Self)
        ensures
            forall|k: u8| k < 16 ==> !r.spec_get(k),
    {
        let r = Keys { keys: 0 };
        proof {
            assert forall|k: u8| k < 16 implies !r.spec_get(k) by {
                assert(0u16 & (1u16 << k) == 0) by (bit_vector);
            }
        }
        r
    }

    /// Mark key `index` as held; every other key keeps its state.
    pub fn set(&mut self, index: u8)
        requires
            index < 16,
        ensures
            final(self).spec_get(index),
            forall|k: u8| k < 16 && k != index ==> final(self).spec_get(k) == old(self).spec_get(k),
    {
        let ghost pre: u16 = self.keys;
        let ghost i: u8 = index;
        self.keys = self.keys | (1u16 << index);
        proof {
            assert((pre | (1u16 << i)) & (1u16 << i) != 0) by (bit_vector)
                requires i < 16;
            assert forall|k: u8| k < 16 && k != i implies
                ((pre | (1u16 << i)) & (1u16 << k) != 0) == (pre & (1u16 << k) != 0) by {
                assert(((pre | (1u16 << i)) & (1u16 << k) != 0) == (pre & (1u16 << k) != 0))
                    by (bit_vector)
                    requires i < 16, k < 16, i != k;
            }
        }
    }

    /// Mark key `index` as released; every other key keeps its state.
    pub fn unset(&mut self, index: u8)
        requires
            index < 16,
        ensures
            !final(self).spec_get(index),
            forall|k: u8| k < 16 && k != index ==> final(self).spec_get(k) == old(self).spec_get(k),
    {
        let ghost pre: u16 = self.keys;
        let ghost i: u8 = index;
        self.keys = self.keys & !(1u16 << index);
        proof {
            assert((pre & !(1u16 << i)) & (1u16 << i) == 0) by (bit_vector)
                requires i < 16;
            assert forall|k: u8| k < 16 && k != i implies
                ((pre & !(1u16 << i)) & (1u16 << k) != 0) == (pre & (1u16 << k) != 0) by {
                assert(((pre & !(1u16 << i)) & (1u16 << k) != 0) == (pre & (1u16 << k) != 0))
                    by (bit_vector)
                    requires i < 16, k < 16, i != k;
            }
        }
    }

    /// Whether key `index` is currently held.
    pub fn get(&self, index: u8) -> (r: bool)
        requires
            index < 16,
        ensures
            r == self.spec_get(index),
    {
        let bit: u16 = 1u16 << index;
        (self.keys & bit) != 0
    }
}

} // verus!
