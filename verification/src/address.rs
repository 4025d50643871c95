use vstd::prelude::*;

verus! {

/// A CHIP-8 memory address.
///
/// The instruction encoding carries 12-bit addresses (0x000-0xFFF), but the
/// type itself holds a full 16-bit value; no clamping happens here. Accesses
/// through an out-of-range address are rejected lazily by `Memory`.
#[derive(Clone, Copy, PartialEq, Eq, Structural, Debug)]
pub struct Address(pub u16);

/// Error for an address built from a triple whose entries are not all nibbles.
/// Carries the offending triple.
#[derive(Clone, Copy, PartialEq, Eq, Structural, Debug)]
pub struct InvalidAddress(pub u8, pub u8, pub u8);

impl Address {
    /// The address this one points at, `off` bytes further on.
    pub fn offset(&self, off: u16) -> (r: Address)
        requires
            self.0 + off <= u16::MAX,
        ensures
            r.0 == self.0 + off,
    {
        Address(self.0 + off)
    }

    /// Assembles an address from three nibbles, high to low. Each entry must
    /// be a true nibble (< 0x10); otherwise the triple is rejected.
    pub fn from_nibbles(hi: u8, mid: u8, lo: u8) -> (r: Result<Address, InvalidAddress>)
        ensures
            hi < 0x10 && mid < 0x10 && lo < 0x10 ==> (r matches Ok(a)
                && a.0 == hi * 0x100 + mid * 0x10 + lo),
            !(hi < 0x10 && mid < 0x10 && lo < 0x10) ==> r == Err::<Address, InvalidAddress>(
                InvalidAddress(hi, mid, lo),
            ),
    {
        if hi < 0x10 && mid < 0x10 && lo < 0x10 {
            let v: u16 = ((hi as u16) << 8) | ((mid as u16) << 4) | (lo as u16);
            proof {
                assert(hi < 0x10 && mid < 0x10 && lo < 0x10 ==> ((hi as u16) << 8) | ((mid
                    as u16) << 4) | (lo as u16) == hi * 0x100 + mid * 0x10 + lo) by (bit_vector);
            }
            Ok(Address(v))
        } else {
            Err(InvalidAddress(hi, mid, lo))
        }
    }
}

} // verus!
