use vstd::prelude::*;
use crate::address::Address;
use crate::register::VRegister;

verus! {

/// A decoded CHIP-8 instruction: a pure value carrying typed operands.
/// All behaviour lives in the execution engine.
#[derive(Clone, Copy, PartialEq, Eq, Structural, Debug)]
pub enum Instruction {
    /// `00E0` - `CLS`: clear the display.
    ClearScreen,
    /// `00EE` - `RET`: return from a subroutine by popping the program
    /// counter from the call stack.
    Return,
    /// `1nnn` - `JP addr`: jump to `nnn`.
    Jump(Address),
    /// `2nnn` - `CALL addr`: push the program counter and jump to `nnn`.
    Call(Address),
    /// `3xkk` - `SE Vx, byte`: skip the next instruction if `Vx` equals `kk`.
    SkipIfEqualImm(VRegister, u8),
    /// `4xkk` - `SNE Vx, byte`: skip the next instruction if `Vx` differs
    /// from `kk`.
    SkipIfNotEqualImm(VRegister, u8),
    /// `5xy0` - `SE Vx, Vy`: skip the next instruction if `Vx` equals `Vy`.
    SkipIfEqual(VRegister, VRegister),
    /// `6xkk` - `LD Vx, byte`: set `Vx` to `kk`.
    LoadImm(VRegister, u8),
    /// `7xkk` - `ADD Vx, byte`: add `kk` to `Vx`, wrapping, without touching
    /// the flag register.
    AddImm(VRegister, u8),
    /// `8xy0` - `LD Vx, Vy`: copy `Vy` into `Vx`.
    Move(VRegister, VRegister),
    /// `8xy1` - `OR Vx, Vy`: set `Vx` to `Vx | Vy`.
    Or(VRegister, VRegister),
    /// `8xy2` - `AND Vx, Vy`: set `Vx` to `Vx & Vy`.
    And(VRegister, VRegister),
    /// `8xy3` - `XOR Vx, Vy`: set `Vx` to `Vx ^ Vy`.
    Xor(VRegister, VRegister),
    /// `8xy4` - `ADD Vx, Vy`: set `Vx` to the low byte of `Vx + Vy`, and
    /// `VF` to 1 exactly when the sum overflowed 8 bits.
    Add(VRegister, VRegister),
    /// `8xy5` - `SUB Vx, Vy`: set `VF` to 1 exactly when no borrow occurs
    /// (`Vx >= Vy`), then set `Vx` to the wrapped difference `Vx - Vy`.
    Subtract(VRegister, VRegister),
    /// `8x_6` - `SHR Vx`: set `VF` to the least-significant bit of `Vx`,
    /// then halve `Vx`.
    ShiftRight(VRegister),
    /// `8xy7` - `SUBN Vx, Vy`: set `VF` to 1 exactly when no borrow occurs
    /// (`Vy >= Vx`), then set `Vx` to the wrapped difference `Vy - Vx`.
    SubtractN(VRegister, VRegister),
    /// `8xyE` - `SHL Vx`: set `VF` to the most-significant bit of `Vx`,
    /// then double `Vx`, keeping the low byte.
    ShiftLeft(VRegister),
    /// `9xy0` - `SNE Vx, Vy`: skip the next instruction if `Vx` differs
    /// from `Vy`.
    SkipIfNotEqual(VRegister, VRegister),
    /// `Annn` - `LD I, addr`: set the index register to `nnn`.
    LoadI(Address),
    /// `Bnnn` - `JP V0, addr`: jump to `nnn + V0`.
    JumpOffset(Address),
    /// `Cxkk` - `RND Vx, byte`: set `Vx` to `kk & b` for a uniformly random
    /// byte `b`.
    AndRandom(VRegister, u8),
    /// `Dxyn` - `DRW Vx, Vy, nibble`: XOR the `n`-byte sprite at the index
    /// register onto the screen at (`Vx`, `Vy`); `VF` reports collisions.
    Draw(VRegister, VRegister, u8),
    /// `Fx07` - `LD Vx, DT`: copy the delay timer into `Vx`.
    LoadDT(VRegister),
    /// `Fx15` - `LD DT, Vx`: copy `Vx` into the delay timer.
    StoreDT(VRegister),
    /// `Fx1E` - `ADD I, Vx`: add `Vx` to the index register.
    AddI(VRegister),
    /// `Fx29` - `LD F, Vx`: point the index register at the built-in font
    /// glyph for the hexadecimal digit in `Vx`.
    LoadSprite(VRegister),
    /// `Fx33` - `LD B, Vx`: write the three decimal digits of `Vx` to
    /// memory at the index register.
    StoreBCD(VRegister),
    /// `Fx55` - `LD [I], Vx`: copy registers V0 through `Vx` to memory
    /// starting at the index register.
    Store(VRegister),
    /// `Fx65` - `LD Vx, [I]`: fill registers V0 through `Vx` from memory
    /// starting at the index register.
    Load(VRegister),
    /// A placeholder for encodings this interpreter recognizes but leaves
    /// without effect.
    Nop,
}

} // verus!
