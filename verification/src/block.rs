use vstd::prelude::*;

verus! {

/// A 128-bit value held as 16 bytes; one AES state or round key.
///
/// A `Block` is a plain value: it is copied, never mutated in place, and has
/// no identity beyond its bit pattern. Its view is the sequence of its bytes.
#[derive(Clone, Copy, Debug, PartialEq, Eq)]
pub struct Block {
    /// The 16 bytes of the value.
    pub bytes: [u8; 16],
}

impl View for Block {
    type V = Seq<u8>;

    open spec fn view(&self) -> Seq<u8> {
        self.bytes@
    }
}

impl Block {
    /// Builds a block from its 16 bytes.
    pub fn new(bytes: [u8; 16]) -> (r: Block)
        ensures
            r@ == bytes@,
    {
        Block { bytes }
    }

    /// Returns the 16 bytes of the block.
    pub fn to_bytes(&self) -> (r: [u8; 16])
        ensures
            r@ == self@,
    {
        self.bytes
    }
}

impl Default for Block {
    /// The all-zero block.
    fn default() -> (r: Block)
        ensures
            r@ == Seq::new(16, |i: int| 0u8),
    {
        let r = Block { bytes: [0u8; 16] };
        proof {
            assert(r@ =~= Seq::new(16, |i: int| 0u8));
        }
        r
    }
}

} // verus!
