use chip8::address::Address;
use chip8::cpu::{Cpu, CpuError};
use chip8::isa::Instruction;
use chip8::register::{InvalidRegisterNumber, VRegister};

fn machine() -> Cpu {
    Cpu::new(&[]).unwrap()
}

#[test]
fn decode_screen_and_flow_opcodes() {
    let cpu = machine();
    assert_eq!(cpu.decode(0x00E0), Ok(Instruction::ClearScreen));
    assert_eq!(cpu.decode(0x00EE), Ok(Instruction::Return));
    assert_eq!(cpu.decode(0x1ABC), Ok(Instruction::Jump(Address(0xABC))));
    assert_eq!(cpu.decode(0x2ABC), Ok(Instruction::Call(Address(0xABC))));
    assert_eq!(cpu.decode(0xA123), Ok(Instruction::LoadI(Address(0x123))));
    assert_eq!(
        cpu.decode(0xB123),
        Ok(Instruction::JumpOffset(Address(0x123)))
    );
}

#[test]
fn decode_skip_opcodes() {
    let cpu = machine();
    assert_eq!(
        cpu.decode(0x3A12),
        Ok(Instruction::SkipIfEqualImm(VRegister::VA, 0x12))
    );
    assert_eq!(
        cpu.decode(0x4A12),
        Ok(Instruction::SkipIfNotEqualImm(VRegister::VA, 0x12))
    );
    assert_eq!(
        cpu.decode(0x5AB0),
        Ok(Instruction::SkipIfEqual(VRegister::VA, VRegister::VB))
    );
    assert_eq!(
        cpu.decode(0x9AB0),
        Ok(Instruction::SkipIfNotEqual(VRegister::VA, VRegister::VB))
    );
}

#[test]
fn decode_register_opcodes() {
    let cpu = machine();
    assert_eq!(
        cpu.decode(0x6789),
        Ok(Instruction::LoadImm(VRegister::V7, 0x89))
    );
    assert_eq!(
        cpu.decode(0x7789),
        Ok(Instruction::AddImm(VRegister::V7, 0x89))
    );
    assert_eq!(
        cpu.decode(0x8AB0),
        Ok(Instruction::Move(VRegister::VA, VRegister::VB))
    );
    assert_eq!(
        cpu.decode(0x8AB1),
        Ok(Instruction::Or(VRegister::VA, VRegister::VB))
    );
    assert_eq!(
        cpu.decode(0x8AB2),
        Ok(Instruction::And(VRegister::VA, VRegister::VB))
    );
    assert_eq!(
        cpu.decode(0x8AB3),
        Ok(Instruction::Xor(VRegister::VA, VRegister::VB))
    );
    assert_eq!(
        cpu.decode(0x8AB4),
        Ok(Instruction::Add(VRegister::VA, VRegister::VB))
    );
    assert_eq!(
        cpu.decode(0x8AB5),
        Ok(Instruction::Subtract(VRegister::VA, VRegister::VB))
    );
    assert_eq!(
        cpu.decode(0x8AB6),
        Ok(Instruction::ShiftRight(VRegister::VA))
    );
    assert_eq!(
        cpu.decode(0x8AB7),
        Ok(Instruction::SubtractN(VRegister::VA, VRegister::VB))
    );
    assert_eq!(cpu.decode(0x8ABE), Ok(Instruction::ShiftLeft(VRegister::VA)));
}

#[test]
fn decode_misc_opcodes() {
    let cpu = machine();
    assert_eq!(
        cpu.decode(0xC712),
        Ok(Instruction::AndRandom(VRegister::V7, 0x12))
    );
    assert_eq!(
        cpu.decode(0xD12F),
        Ok(Instruction::Draw(VRegister::V1, VRegister::V2, 0xF))
    );
    assert_eq!(cpu.decode(0xF107), Ok(Instruction::LoadDT(VRegister::V1)));
    assert_eq!(cpu.decode(0xF115), Ok(Instruction::StoreDT(VRegister::V1)));
    assert_eq!(cpu.decode(0xF118), Ok(Instruction::Nop));
    assert_eq!(cpu.decode(0xF11E), Ok(Instruction::AddI(VRegister::V1)));
    assert_eq!(
        cpu.decode(0xF129),
        Ok(Instruction::LoadSprite(VRegister::V1))
    );
    assert_eq!(cpu.decode(0xF133), Ok(Instruction::StoreBCD(VRegister::V1)));
    assert_eq!(cpu.decode(0xF155), Ok(Instruction::Store(VRegister::V1)));
    assert_eq!(cpu.decode(0xF165), Ok(Instruction::Load(VRegister::V1)));
}

#[test]
fn decode_rejects_unassigned_patterns() {
    let cpu = machine();
    for word in [
        0x0000u16, 0x0123, 0x00E1, 0x01E0, 0x5AB1, 0x8AB8, 0x8AB9, 0x8ABF, 0x9AB1, 0xE19E,
        0xE1A1, 0xF000, 0xF10A, 0xF117, 0xF156, 0xFFFF,
    ] {
        assert_eq!(
            cpu.decode(word),
            Err(CpuError::InvalidInstruction(word)),
            "word {word:04x} must not decode"
        );
    }
}

#[test]
fn register_ids_above_fifteen_are_rejected() {
    assert_eq!(VRegister::from_id(0x0), Ok(VRegister::V0));
    assert_eq!(VRegister::from_id(0xF), Ok(VRegister::VF));
    assert_eq!(VRegister::from_id(0x10), Err(InvalidRegisterNumber(0x10)));
    assert_eq!(VRegister::from_id(0xFF), Err(InvalidRegisterNumber(0xFF)));
}
