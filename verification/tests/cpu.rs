use chip8::address::Address;
use chip8::cpu::{split_into_nibbles, Cpu, CpuError};

#[test]
fn test_split_into_nibbles() {
    assert_eq!(split_into_nibbles(0x1234), [0x1, 0x2, 0x3, 0x4]);
    assert_eq!(split_into_nibbles(0xabcd), [0xa, 0xb, 0xc, 0xd]);
}

#[test]
fn boot_loads_font_and_program() {
    let cpu = Cpu::new(&[0xAA, 0xBB]).unwrap();
    assert_eq!(cpu.memory.get_byte(Address(0x000)), Ok(0xF0));
    assert_eq!(cpu.memory.get_byte(Address(0x04F)), Ok(0x80));
    assert_eq!(cpu.memory.get_byte(Address(0x050)), Ok(0x00));
    assert_eq!(cpu.memory.get_byte(Address(0x200)), Ok(0xAA));
    assert_eq!(cpu.memory.get_byte(Address(0x201)), Ok(0xBB));
    assert_eq!(cpu.memory.get_byte(Address(0x202)), Ok(0x00));
    assert_eq!(cpu.pc, Address(0x200));
    assert_eq!(cpu.i, Address(0));
    assert_eq!(cpu.dt, 0);
    assert_eq!(cpu.st, 0);
    assert_eq!(cpu.v, vec![0u8; 16]);
    assert!(cpu.stack.is_empty());
}

#[test]
fn boot_rejects_oversized_program() {
    let image = vec![0x55u8; 0x1000 - 0x200 + 1];
    let r = Cpu::new(&image);
    assert!(matches!(r, Err(CpuError::SegmentationFault(Address(0x1000)))));
    let fits = vec![0x55u8; 0x1000 - 0x200];
    assert!(Cpu::new(&fits).is_ok());
}

#[test]
fn fetch_reads_big_endian_and_advances() {
    let mut cpu = Cpu::new(&[0x12, 0x00, 0xAB, 0xCD]).unwrap();
    assert_eq!(cpu.fetch(), Ok(0x1200));
    assert_eq!(cpu.pc, Address(0x202));
    assert_eq!(cpu.fetch(), Ok(0xABCD));
    assert_eq!(cpu.pc, Address(0x204));
}

#[test]
fn fetch_out_of_range_faults() {
    let mut cpu = Cpu::new(&[]).unwrap();
    cpu.pc = Address(0xFFF);
    assert_eq!(cpu.fetch(), Err(CpuError::SegmentationFault(Address(0xFFF))));
    assert_eq!(cpu.pc, Address(0xFFF));
    cpu.pc = Address(0x1234);
    assert_eq!(
        cpu.fetch(),
        Err(CpuError::SegmentationFault(Address(0x1234)))
    );
}
