//! Flat addressable byte store: exactly 4096 bytes, addresses 0x000..=0xFFF.
//! Every address-arithmetic path in the execution engine is validated against
//! this bound before access; the store itself never wraps or aliases.

use vstd::prelude::*;

verus! {

/// Number of bytes in the address space.
pub const MEMORY_SIZE: usize = 4096;

/// The byte store. Its view is the sequence of all 4096 bytes.
pub struct Memory {
    memory: Vec<u8>,
}

impl View for Memory {
    type V = Seq<u8>;

    closed spec fn view(&self) -> Seq<u8> {
        self.memory@
    }
}

impl Memory {
    /// The store always holds exactly `MEMORY_SIZE` bytes.
    pub open spec fn wf(&self) -> bool {
        self@.len() == MEMORY_SIZE
    }

    /// A zero-initialized store.
    pub fn new() -> (r: Self)
        ensures
            r.wf(),
            forall|a: int| 0 <= a < MEMORY_SIZE ==> r@[a] == 0u8,
    {
        let mut memory: Vec<u8> = Vec::new();
        let mut i: usize = 0;
        while i < MEMORY_SIZE
            invariant
                i <= MEMORY_SIZE,
                memory@.len() == i,
                forall|a: int| 0 <= a < i ==> memory@[a] == 0u8,
            decreases MEMORY_SIZE - i,
        {
            memory.push(0u8);
            i += 1;
        }
        Memory { memory }
    }

    /// Copy `data` into the store starting at `offset`, overwriting prior
    /// contents; rejected with `LoadError` when it would run past the end.
    pub fn load_data(&mut self, data: &Vec<u8>, offset: u16) -> (r: Result<(), crate::Chip8Error>)
        requires
            old(self).wf(),
        ensures
            final(self).wf(),
            r is Ok <==> offset + data@.len() <= MEMORY_SIZE,
            r is Err ==> r == Err::<(), crate::Chip8Error>(crate::Chip8Error::LoadError)
                && final(self)@ == old(self)@,
            r is Ok ==> forall|a: int|
                0 <= a < MEMORY_SIZE ==> final(self)@[a] == (if offset <= a < offset + data@.len() {
                    data@[a - offset]
                } else {
                    old(self)@[a]
                }),
    {
        if offset as usize > MEMORY_SIZE || data.len() > MEMORY_SIZE - offset as usize {
            return Err(crate::Chip8Error::LoadError);
        }
        let mut i: usize = 0;
        while i < data.len()
            invariant
                self.wf(),
                i <= data@.len(),
                offset + data@.len() <= MEMORY_SIZE,
                forall|a: int| 0 <= a < MEMORY_SIZE ==> self@[a] == (if offset <= a < offset + i {
                    data@[a - offset]
                } else {
                    old(self)@[a]
                }),
            decreases data@.len() - i,
        {
            self.memory.set(offset as usize + i, data[i]);
            i += 1;
        }
        Ok(())
    }

    /// Write one byte; the address must be in bounds.
    pub fn set(&mut self, addr: u16, value: u8)
        requires
            old(self).wf(),
            addr < MEMORY_SIZE,
        ensures
            final(self).wf(),
            final(self)@ == old(self)@.update(addr as int, value),
    {
        self.memory.set(addr as usize, value);
    }

    /// Read one byte; the address must be in bounds.
    pub fn get(&self, addr: u16) -> (r: u8)
        requires
            self.wf(),
            addr < MEMORY_SIZE,
        ensures
            r == self@[addr as int],
    {
        self.memory[addr as usize]
    }
}

} // verus!
