use vstd::prelude::*;
use crate::address::Address;

verus! {

/// Number of addressable bytes: the full 12-bit address space.
pub const MEMORY_SIZE: usize = 0x1000;

/// The emulated address space: a fixed array of `MEMORY_SIZE` bytes.
/// Every access is bounds-checked; an access through an out-of-range
/// address fails with `SegmentationFault` instead of panicking.
pub struct Memory {
    pub mem: Vec<u8>,
}

/// Error for a memory access outside 0x000-0xFFF. Carries the offending
/// address.
#[derive(Clone, Copy, PartialEq, Eq, Structural, Debug)]
pub struct SegmentationFault(pub Address);

impl View for Memory {
    type V = Seq<u8>;

    open spec fn view(&self) -> Seq<u8> {
        self.mem@
    }
}

/// The 16-bit big-endian word whose high byte sits at `a`.
pub open spec fn word_at(mem: Seq<u8>, a: int) -> u16 {
    (mem[a] * 0x100 + mem[a + 1]) as u16
}

/// How many bytes a block copy of `len` bytes at `start` writes before the
/// first out-of-range address stops it.
pub open spec fn copy_written(len: int, start: int) -> int {
    if start + len <= MEMORY_SIZE {
        len
    } else if start < MEMORY_SIZE {
        MEMORY_SIZE - start
    } else {
        0
    }
}

/// `pre` with the first `w` bytes of `data` written at `start`.
pub open spec fn copied_upto(pre: Seq<u8>, data: Seq<u8>, start: int, w: int) -> Seq<u8> {
    Seq::new(pre.len(), |j: int| if start <= j < start + w {
        data[j - start]
    } else {
        pre[j]
    })
}

/// Law: memory round-trip — after writing a byte, the written address
/// reads back exactly that byte and every other address reads as before.
/// Out-of-range accesses never get this far: `get_byte` and `set_byte`
/// fail with `SegmentationFault` at any address from `MEMORY_SIZE` on and
/// leave the contents alone, as their contracts state.
pub proof fn lemma_memory_round_trip(mem: Seq<u8>, addr: u16, byte: u8)
    requires
        mem.len() == MEMORY_SIZE,
        addr < MEMORY_SIZE,
    ensures
        mem.update(addr as int, byte)[addr as int] == byte,
        forall|j: int|
            0 <= j < MEMORY_SIZE && j != addr ==> mem.update(addr as int, byte)[j] == mem[j],
{
}

impl Memory {
    /// A memory holds exactly `MEMORY_SIZE` bytes.
    pub open spec fn wf(&self) -> bool {
        self@.len() == MEMORY_SIZE
    }

    /// A fresh, all-zero address space.
    pub fn new() -> (r: Memory)
        ensures
            r.wf(),
            forall|j: int| 0 <= j < MEMORY_SIZE ==> r@[j] == 0u8,
    {
        let mut mem: Vec<u8> = Vec::new();
        let mut k: usize = 0;
        while k < MEMORY_SIZE
            invariant
                k <= MEMORY_SIZE,
                mem@.len() == k,
                forall|j: int| 0 <= j < k ==> mem@[j] == 0u8,
            decreases MEMORY_SIZE - k,
        {
            mem.push(0);
            k = k + 1;
        }
        Memory { mem }
    }

    /// Writes `byte` at `address` and hands back the byte it replaced;
    /// fails with `SegmentationFault` when the address is out of range.
    pub fn set_byte(&mut self, address: Address, byte: u8) -> (r: Result<u8, SegmentationFault>)
        requires
            old(self).wf(),
        ensures
            final(self).wf(),
            address.0 < MEMORY_SIZE ==> r == Ok::<u8, SegmentationFault>(old(self)@[address.0 as int])
                && final(self)@ == old(self)@.update(address.0 as int, byte),
            address.0 >= MEMORY_SIZE ==> r == Err::<u8, SegmentationFault>(SegmentationFault(address))
                && final(self)@ == old(self)@,
    {
        let loc = address.0 as usize;
        if loc < MEMORY_SIZE {
            let out = self.mem[loc];
            self.mem.set(loc, byte);
            Ok(out)
        } else {
            Err(SegmentationFault(address))
        }
    }

    /// Reads the byte at `address`; fails with `SegmentationFault` when the
    /// address is out of range.
    pub fn get_byte(&self, address: Address) -> (r: Result<u8, SegmentationFault>)
        requires
            self.wf(),
        ensures
            address.0 < MEMORY_SIZE ==> r == Ok::<u8, SegmentationFault>(self@[address.0 as int]),
            address.0 >= MEMORY_SIZE ==> r == Err::<u8, SegmentationFault>(SegmentationFault(address)),
    {
        let loc = address.0 as usize;
        if loc < MEMORY_SIZE {
            Ok(self.mem[loc])
        } else {
            Err(SegmentationFault(address))
        }
    }

    /// Reads the big-endian 16-bit word whose high byte sits at `address`;
    /// fails with `SegmentationFault` at `address` when either byte is out
    /// of range.
    pub fn get_short(&self, address: Address) -> (r: Result<u16, SegmentationFault>)
        requires
            self.wf(),
        ensures
            address.0 + 1 < MEMORY_SIZE ==> r == Ok::<u16, SegmentationFault>(
                word_at(self@, address.0 as int),
            ),
            address.0 + 1 >= MEMORY_SIZE ==> r == Err::<u16, SegmentationFault>(
                SegmentationFault(address),
            ),
    {
        let loc = address.0 as usize;
        if loc + 1 < MEMORY_SIZE {
            let msb = self.mem[loc];
            let lsb = self.mem[loc + 1];
            let word: u16 = ((msb as u16) << 8) | (lsb as u16);
            proof {
                assert(((msb as u16) << 8) | (lsb as u16) == msb * 0x100 + lsb) by (bit_vector);
            }
            Ok(word)
        } else {
            Err(SegmentationFault(address))
        }
    }

    /// Copies the first `len` bytes of `data` into memory starting at
    /// `start`, one byte at a time. The copy stops at the first
    /// out-of-range address, leaving the earlier writes in place, and
    /// fails with `SegmentationFault` there.
    pub fn copy_to_offset(&mut self, data: &[u8], len: usize, start: Address) -> (r: Result<
        (),
        SegmentationFault,
    >)
        requires
            old(self).wf(),
            len <= data@.len(),
        ensures
            final(self).wf(),
            final(self)@ == copied_upto(old(self)@, data@, start.0 as int, copy_written(len as int, start.0 as int)),
            len == 0 || start.0 + len <= MEMORY_SIZE ==> r == Ok::<(), SegmentationFault>(()),
            !(len == 0 || start.0 + len <= MEMORY_SIZE) ==> r == Err::<(), SegmentationFault>(
                SegmentationFault(
                    Address((start.0 + copy_written(len as int, start.0 as int)) as u16),
                ),
            ),
    {
        let ghost w = copy_written(len as int, start.0 as int);
        let mut i: usize = 0;
        while i < len
            invariant
                self.wf(),
                len <= data@.len(),
                i <= len,
                i <= w,
                start.0 + i <= u16::MAX,
                w == copy_written(len as int, start.0 as int),
                self@ == copied_upto(old(self)@, data@, start.0 as int, i as int),
            decreases len - i,
        {
            let addr = Address(start.0 + i as u16);
            match self.set_byte(addr, data[i]) {
                Ok(_) => {
                    proof {
                        assert(self@ =~= copied_upto(
                            old(self)@,
                            data@,
                            start.0 as int,
                            i + 1 as int,
                        ));
                    }
                },
                Err(e) => {
                    proof {
                        assert(self@ =~= copied_upto(old(self)@, data@, start.0 as int, w));
                    }
                    return Err(e);
                },
            }
            i = i + 1;
        }
        proof {
            assert(self@ =~= copied_upto(old(self)@, data@, start.0 as int, w));
        }
        Ok(())
    }
}

} // verus!
