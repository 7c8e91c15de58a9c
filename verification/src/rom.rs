//! A program image: the raw bytes the host read from wherever it keeps ROMs.
//! Reading files is the host's business; the core only takes the bytes.

use vstd::prelude::*;

verus! {

/// A loaded program image. Its view is the byte sequence.
pub struct Rom {
    raw: Vec<u8>,
}

impl View for Rom {
    type V = Seq<u8>;

    closed spec fn view(&self) -> Seq<u8> {
        self.raw@
    }
}

impl Rom {
    /// Wrap raw program bytes as a ROM image.
    pub fn new(raw: Vec<u8>) -> (r: Self)
        ensures
            r@ == raw@,
    {
        Rom { raw }
    }

    /// Give the raw bytes back.
    pub fn into_bytes(self) -> (r: Vec<u8>)
        ensures
            r@ == self@,
    {
        self.raw
    }
}

} // verus!
