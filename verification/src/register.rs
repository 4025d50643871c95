use vstd::prelude::*;

verus! {

/// One of the sixteen general-purpose 8-bit registers, V0 through VF.
///
/// VF doubles as the carry/borrow/collision flag: arithmetic and draw
/// operations overwrite it. That aliasing is deliberate CHIP-8 semantics,
/// so VF is kept as an ordinary register here.
#[derive(Clone, Copy, PartialEq, Eq, Structural, Debug)]
pub enum VRegister {
    V0,
    V1,
    V2,
    V3,
    V4,
    V5,
    V6,
    V7,
    V8,
    V9,
    VA,
    VB,
    VC,
    VD,
    VE,
    VF,
}

/// Error for a register id outside 0-15. Carries the offending id.
/// Instruction decoding only ever extracts nibbles, so this is defensive.
#[derive(Clone, Copy, PartialEq, Eq, Structural, Debug)]
pub struct InvalidRegisterNumber(pub u8);

/// The register named by an index, for indices 0-15.
pub open spec fn reg_of(i: int) -> VRegister {
    if i == 0x0 {
        VRegister::V0
    } else if i == 0x1 {
        VRegister::V1
    } else if i == 0x2 {
        VRegister::V2
    } else if i == 0x3 {
        VRegister::V3
    } else if i == 0x4 {
        VRegister::V4
    } else if i == 0x5 {
        VRegister::V5
    } else if i == 0x6 {
        VRegister::V6
    } else if i == 0x7 {
        VRegister::V7
    } else if i == 0x8 {
        VRegister::V8
    } else if i == 0x9 {
        VRegister::V9
    } else if i == 0xa {
        VRegister::VA
    } else if i == 0xb {
        VRegister::VB
    } else if i == 0xc {
        VRegister::VC
    } else if i == 0xd {
        VRegister::VD
    } else if i == 0xe {
        VRegister::VE
    } else {
        VRegister::VF
    }
}

impl VRegister {
    /// The register's position in the register file, 0-15.
    pub open spec fn idx_spec(self) -> int {
        match self {
            VRegister::V0 => 0x0,
            VRegister::V1 => 0x1,
            VRegister::V2 => 0x2,
            VRegister::V3 => 0x3,
            VRegister::V4 => 0x4,
            VRegister::V5 => 0x5,
            VRegister::V6 => 0x6,
            VRegister::V7 => 0x7,
            VRegister::V8 => 0x8,
            VRegister::V9 => 0x9,
            VRegister::VA => 0xa,
            VRegister::VB => 0xb,
            VRegister::VC => 0xc,
            VRegister::VD => 0xd,
            VRegister::VE => 0xe,
            VRegister::VF => 0xf,
        }
    }

    /// The register's position in the register file, 0-15.
    pub fn idx(&self) -> (i: usize)
        ensures
            i == self.idx_spec(),
            i < 16,
            reg_of(i as int) == *self,
    {
        match self {
            VRegister::V0 => 0x0,
            VRegister::V1 => 0x1,
            VRegister::V2 => 0x2,
            VRegister::V3 => 0x3,
            VRegister::V4 => 0x4,
            VRegister::V5 => 0x5,
            VRegister::V6 => 0x6,
            VRegister::V7 => 0x7,
            VRegister::V8 => 0x8,
            VRegister::V9 => 0x9,
            VRegister::VA => 0xa,
            VRegister::VB => 0xb,
            VRegister::VC => 0xc,
            VRegister::VD => 0xd,
            VRegister::VE => 0xe,
            VRegister::VF => 0xf,
        }
    }

    /// Looks a register up by its id. Ids 16 and above are rejected.
    pub fn from_id(id: u8) -> (r: Result<VRegister, InvalidRegisterNumber>)
        ensures
            id < 16 ==> r == Ok::<VRegister, InvalidRegisterNumber>(reg_of(id as int)),
            id >= 16 ==> r == Err::<VRegister, InvalidRegisterNumber>(InvalidRegisterNumber(id)),
    {
        match id {
            0x0 => Ok(VRegister::V0),
            0x1 => Ok(VRegister::V1),
            0x2 => Ok(VRegister::V2),
            0x3 => Ok(VRegister::V3),
            0x4 => Ok(VRegister::V4),
            0x5 => Ok(VRegister::V5),
            0x6 => Ok(VRegister::V6),
            0x7 => Ok(VRegister::V7),
            0x8 => Ok(VRegister::V8),
            0x9 => Ok(VRegister::V9),
            0xa => Ok(VRegister::VA),
            0xb => Ok(VRegister::VB),
            0xc => Ok(VRegister::VC),
            0xd => Ok(VRegister::VD),
            0xe => Ok(VRegister::VE),
            0xf => Ok(VRegister::VF),
            _ => Err(InvalidRegisterNumber(id)),
        }
    }
}

} // verus!
