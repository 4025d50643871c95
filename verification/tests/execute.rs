use chip8::address::Address;
use chip8::cpu::{Cpu, CpuError};
use chip8::isa::Instruction;
use chip8::register::VRegister;

fn machine() -> Cpu {
    Cpu::new(&[]).unwrap()
}

fn px(cpu: &Cpu, x: usize, y: usize) -> bool {
    cpu.display.pixels[y * 64 + x]
}

#[test]
fn add_sets_sum_and_carry() {
    let mut cpu = machine();
    cpu.v[0] = 200;
    cpu.v[1] = 100;
    assert_eq!(cpu.execute(Instruction::Add(VRegister::V0, VRegister::V1)), Ok(()));
    assert_eq!(cpu.v[0], 44);
    assert_eq!(cpu.v[0xF], 1);

    cpu.v[2] = 10;
    cpu.v[3] = 20;
    assert_eq!(cpu.execute(Instruction::Add(VRegister::V2, VRegister::V3)), Ok(()));
    assert_eq!(cpu.v[2], 30);
    assert_eq!(cpu.v[0xF], 0);
}

#[test]
fn subtract_sets_difference_and_no_borrow_flag() {
    let mut cpu = machine();
    cpu.v[0] = 20;
    cpu.v[1] = 10;
    assert_eq!(cpu.execute(Instruction::Subtract(VRegister::V0, VRegister::V1)), Ok(()));
    assert_eq!(cpu.v[0], 10);
    assert_eq!(cpu.v[0xF], 1);

    cpu.v[2] = 10;
    cpu.v[3] = 20;
    assert_eq!(cpu.execute(Instruction::Subtract(VRegister::V2, VRegister::V3)), Ok(()));
    assert_eq!(cpu.v[2], 246);
    assert_eq!(cpu.v[0xF], 0);

    cpu.v[4] = 7;
    cpu.v[5] = 7;
    assert_eq!(cpu.execute(Instruction::Subtract(VRegister::V4, VRegister::V5)), Ok(()));
    assert_eq!(cpu.v[4], 0);
    assert_eq!(cpu.v[0xF], 1);
}

#[test]
fn subtract_n_swaps_the_operands() {
    let mut cpu = machine();
    cpu.v[0] = 10;
    cpu.v[1] = 30;
    assert_eq!(cpu.execute(Instruction::SubtractN(VRegister::V0, VRegister::V1)), Ok(()));
    assert_eq!(cpu.v[0], 20);
    assert_eq!(cpu.v[0xF], 1);

    cpu.v[2] = 30;
    cpu.v[3] = 10;
    assert_eq!(cpu.execute(Instruction::SubtractN(VRegister::V2, VRegister::V3)), Ok(()));
    assert_eq!(cpu.v[2], 236);
    assert_eq!(cpu.v[0xF], 0);
}

#[test]
fn shifts_capture_the_bit_shifted_out() {
    let mut cpu = machine();
    cpu.v[0] = 5;
    assert_eq!(cpu.execute(Instruction::ShiftRight(VRegister::V0)), Ok(()));
    assert_eq!(cpu.v[0], 2);
    assert_eq!(cpu.v[0xF], 1);

    cpu.v[1] = 4;
    assert_eq!(cpu.execute(Instruction::ShiftRight(VRegister::V1)), Ok(()));
    assert_eq!(cpu.v[1], 2);
    assert_eq!(cpu.v[0xF], 0);

    cpu.v[2] = 0x81;
    assert_eq!(cpu.execute(Instruction::ShiftLeft(VRegister::V2)), Ok(()));
    assert_eq!(cpu.v[2], 0x02);
    assert_eq!(cpu.v[0xF], 1);

    cpu.v[3] = 0x41;
    assert_eq!(cpu.execute(Instruction::ShiftLeft(VRegister::V3)), Ok(()));
    assert_eq!(cpu.v[3], 0x82);
    assert_eq!(cpu.v[0xF], 0);
}

#[test]
fn add_imm_wraps_without_touching_the_flag() {
    let mut cpu = machine();
    cpu.v[0] = 250;
    cpu.v[0xF] = 7;
    assert_eq!(cpu.execute(Instruction::AddImm(VRegister::V0, 10)), Ok(()));
    assert_eq!(cpu.v[0], 4);
    assert_eq!(cpu.v[0xF], 7);
}

#[test]
fn bitwise_ops_store_into_vx() {
    let mut cpu = machine();
    cpu.v[0] = 0b1100;
    cpu.v[1] = 0b1010;
    assert_eq!(cpu.execute(Instruction::Or(VRegister::V0, VRegister::V1)), Ok(()));
    assert_eq!(cpu.v[0], 0b1110);

    cpu.v[2] = 0b1100;
    cpu.v[3] = 0b1010;
    assert_eq!(cpu.execute(Instruction::And(VRegister::V2, VRegister::V3)), Ok(()));
    assert_eq!(cpu.v[2], 0b1000);

    cpu.v[4] = 0b1100;
    cpu.v[5] = 0b1010;
    assert_eq!(cpu.execute(Instruction::Xor(VRegister::V4, VRegister::V5)), Ok(()));
    assert_eq!(cpu.v[4], 0b0110);

    cpu.v[6] = 0;
    cpu.v[7] = 99;
    assert_eq!(cpu.execute(Instruction::Move(VRegister::V6, VRegister::V7)), Ok(()));
    assert_eq!(cpu.v[6], 99);
}

#[test]
fn and_random_masks_with_the_immediate() {
    let mut cpu = machine();
    for _ in 0..32 {
        assert_eq!(cpu.execute(Instruction::AndRandom(VRegister::V0, 0x0F)), Ok(()));
        assert_eq!(cpu.v[0] & 0xF0, 0);
    }
    assert_eq!(cpu.execute(Instruction::AndRandom(VRegister::V1, 0x00)), Ok(()));
    assert_eq!(cpu.v[1], 0);
}

#[test]
fn skips_advance_the_program_counter_by_two() {
    let mut cpu = machine();
    cpu.v[0] = 5;
    assert_eq!(cpu.execute(Instruction::SkipIfEqualImm(VRegister::V0, 5)), Ok(()));
    assert_eq!(cpu.pc, Address(0x202));
    assert_eq!(cpu.execute(Instruction::SkipIfEqualImm(VRegister::V0, 6)), Ok(()));
    assert_eq!(cpu.pc, Address(0x202));
    assert_eq!(cpu.execute(Instruction::SkipIfNotEqualImm(VRegister::V0, 6)), Ok(()));
    assert_eq!(cpu.pc, Address(0x204));
    cpu.v[1] = 5;
    assert_eq!(cpu.execute(Instruction::SkipIfEqual(VRegister::V0, VRegister::V1)), Ok(()));
    assert_eq!(cpu.pc, Address(0x206));
    assert_eq!(cpu.execute(Instruction::SkipIfNotEqual(VRegister::V0, VRegister::V1)), Ok(()));
    assert_eq!(cpu.pc, Address(0x206));
}

#[test]
fn jump_detects_a_self_jump() {
    let mut cpu = machine();
    cpu.pc = Address(0x202);
    assert_eq!(
        cpu.execute(Instruction::Jump(Address(0x200))),
        Err(CpuError::InfiniteLoop)
    );
    assert_eq!(cpu.pc, Address(0x202));
    assert_eq!(cpu.execute(Instruction::Jump(Address(0x300))), Ok(()));
    assert_eq!(cpu.pc, Address(0x300));
}

#[test]
fn jump_offset_adds_v0() {
    let mut cpu = machine();
    cpu.v[0] = 0x10;
    assert_eq!(cpu.execute(Instruction::JumpOffset(Address(0x300))), Ok(()));
    assert_eq!(cpu.pc, Address(0x310));
}

#[test]
fn calls_and_returns_are_last_in_first_out() {
    let mut cpu = machine();
    cpu.pc = Address(0x250);
    assert_eq!(cpu.execute(Instruction::Call(Address(0x300))), Ok(()));
    assert_eq!(cpu.pc, Address(0x300));
    assert_eq!(cpu.stack, vec![Address(0x250)]);
    assert_eq!(cpu.execute(Instruction::Call(Address(0x400))), Ok(()));
    assert_eq!(cpu.pc, Address(0x400));
    assert_eq!(cpu.stack, vec![Address(0x250), Address(0x300)]);
    assert_eq!(cpu.execute(Instruction::Return), Ok(()));
    assert_eq!(cpu.pc, Address(0x300));
    assert_eq!(cpu.execute(Instruction::Return), Ok(()));
    assert_eq!(cpu.pc, Address(0x250));
    assert!(cpu.stack.is_empty());
}

#[test]
fn the_seventeenth_call_overflows_the_stack() {
    let mut cpu = machine();
    for k in 0..16u16 {
        cpu.pc = Address(0x200 + 2 * k);
        assert_eq!(cpu.execute(Instruction::Call(Address(0x300 + k))), Ok(()));
    }
    assert_eq!(cpu.stack.len(), 16);
    assert_eq!(
        cpu.execute(Instruction::Call(Address(0x500))),
        Err(CpuError::StackOverflow)
    );
    assert_eq!(cpu.stack.len(), 16);
    // each return restores the exact counter its call pushed, youngest first
    for k in (0..16u16).rev() {
        assert_eq!(cpu.execute(Instruction::Return), Ok(()));
        assert_eq!(cpu.pc, Address(0x200 + 2 * k));
    }
}

#[test]
fn returning_from_an_empty_stack_underflows() {
    let mut cpu = machine();
    assert_eq!(cpu.execute(Instruction::Return), Err(CpuError::StackUnderflow));
}

#[test]
fn timer_and_index_register_moves() {
    let mut cpu = machine();
    assert_eq!(cpu.execute(Instruction::LoadI(Address(0x321))), Ok(()));
    assert_eq!(cpu.i, Address(0x321));

    cpu.v[2] = 0x10;
    assert_eq!(cpu.execute(Instruction::AddI(VRegister::V2)), Ok(()));
    assert_eq!(cpu.i, Address(0x331));

    cpu.v[3] = 42;
    assert_eq!(cpu.execute(Instruction::StoreDT(VRegister::V3)), Ok(()));
    assert_eq!(cpu.dt, 42);
    assert_eq!(cpu.execute(Instruction::LoadDT(VRegister::V4)), Ok(()));
    assert_eq!(cpu.v[4], 42);

    cpu.v[5] = 0xAB;
    assert_eq!(cpu.execute(Instruction::LoadSprite(VRegister::V5)), Ok(()));
    assert_eq!(cpu.i, Address(0xB * 5));
}

#[test]
fn block_store_and_load_round_trip() {
    let mut cpu = machine();
    cpu.v[0] = 11;
    cpu.v[1] = 22;
    cpu.v[2] = 33;
    cpu.i = Address(0x300);
    assert_eq!(cpu.execute(Instruction::Store(VRegister::V2)), Ok(()));
    assert_eq!(cpu.memory.get_byte(Address(0x300)), Ok(11));
    assert_eq!(cpu.memory.get_byte(Address(0x301)), Ok(22));
    assert_eq!(cpu.memory.get_byte(Address(0x302)), Ok(33));
    assert_eq!(cpu.memory.get_byte(Address(0x303)), Ok(0));

    cpu.v[0] = 0;
    cpu.v[1] = 0;
    cpu.v[2] = 0;
    assert_eq!(cpu.execute(Instruction::Load(VRegister::V2)), Ok(()));
    assert_eq!(&cpu.v[0..3], &[11, 22, 33]);
}

#[test]
fn block_store_faults_mid_loop_and_keeps_earlier_writes() {
    let mut cpu = machine();
    cpu.v[0] = 11;
    cpu.v[1] = 22;
    cpu.v[2] = 33;
    cpu.i = Address(0xFFE);
    assert_eq!(
        cpu.execute(Instruction::Store(VRegister::V2)),
        Err(CpuError::SegmentationFault(Address(0x1000)))
    );
    assert_eq!(cpu.memory.get_byte(Address(0xFFE)), Ok(11));
    assert_eq!(cpu.memory.get_byte(Address(0xFFF)), Ok(22));
}

#[test]
fn block_load_faults_mid_loop_and_keeps_earlier_reads() {
    let mut cpu = machine();
    cpu.memory.set_byte(Address(0xFFE), 44).unwrap();
    cpu.memory.set_byte(Address(0xFFF), 55).unwrap();
    cpu.i = Address(0xFFE);
    assert_eq!(
        cpu.execute(Instruction::Load(VRegister::V2)),
        Err(CpuError::SegmentationFault(Address(0x1000)))
    );
    assert_eq!(&cpu.v[0..3], &[44, 55, 0]);
}

#[test]
fn store_bcd_writes_the_three_decimal_digits() {
    let mut cpu = machine();
    cpu.v[5] = 234;
    cpu.i = Address(0x300);
    assert_eq!(cpu.execute(Instruction::StoreBCD(VRegister::V5)), Ok(()));
    assert_eq!(cpu.memory.get_byte(Address(0x300)), Ok(2));
    assert_eq!(cpu.memory.get_byte(Address(0x301)), Ok(3));
    assert_eq!(cpu.memory.get_byte(Address(0x302)), Ok(4));

    cpu.v[6] = 7;
    cpu.i = Address(0x310);
    assert_eq!(cpu.execute(Instruction::StoreBCD(VRegister::V6)), Ok(()));
    assert_eq!(cpu.memory.get_byte(Address(0x310)), Ok(0));
    assert_eq!(cpu.memory.get_byte(Address(0x311)), Ok(0));
    assert_eq!(cpu.memory.get_byte(Address(0x312)), Ok(7));
}

#[test]
fn store_bcd_faults_at_the_memory_edge() {
    let mut cpu = machine();
    cpu.v[5] = 123;
    cpu.i = Address(0xFFF);
    assert_eq!(
        cpu.execute(Instruction::StoreBCD(VRegister::V5)),
        Err(CpuError::SegmentationFault(Address(0x1000)))
    );
    assert_eq!(cpu.memory.get_byte(Address(0xFFF)), Ok(1));
}

#[test]
fn draw_puts_the_glyph_on_screen_and_clear_screen_wipes_it() {
    let mut cpu = machine();
    // glyph 0 sits at address 0x000: 0xF0, 0x90, 0x90, 0x90, 0xF0
    cpu.i = Address(0);
    assert_eq!(
        cpu.execute(Instruction::Draw(VRegister::V0, VRegister::V1, 5)),
        Ok(())
    );
    assert_eq!(cpu.v[0xF], 0);
    for y in 0..5 {
        let row = [0xF0u8, 0x90, 0x90, 0x90, 0xF0][y];
        for x in 0..8 {
            let expected = (row >> (7 - x)) & 1 == 1;
            assert_eq!(px(&cpu, x, y), expected, "pixel ({x}, {y})");
        }
    }
    assert_eq!(cpu.execute(Instruction::ClearScreen), Ok(()));
    assert!(cpu.display.pixels.iter().all(|p| !p));
}

#[test]
fn drawing_the_same_sprite_twice_erases_it_and_collides() {
    let mut cpu = machine();
    cpu.i = Address(0);
    assert_eq!(
        cpu.execute(Instruction::Draw(VRegister::V0, VRegister::V1, 5)),
        Ok(())
    );
    assert_eq!(cpu.v[0xF], 0);
    assert!(px(&cpu, 0, 0));
    assert_eq!(
        cpu.execute(Instruction::Draw(VRegister::V0, VRegister::V1, 5)),
        Ok(())
    );
    assert_eq!(cpu.v[0xF], 1);
    assert!(cpu.display.pixels.iter().all(|p| !p));
}

#[test]
fn draw_clips_at_the_right_edge_and_masks_coordinates() {
    let mut cpu = machine();
    cpu.i = Address(0);
    cpu.v[0] = 60;
    cpu.v[1] = 0;
    assert_eq!(
        cpu.execute(Instruction::Draw(VRegister::V0, VRegister::V1, 1)),
        Ok(())
    );
    // 0xF0: the four lit bits land on columns 60-63 and nothing wraps
    assert!(px(&cpu, 60, 0) && px(&cpu, 61, 0) && px(&cpu, 62, 0) && px(&cpu, 63, 0));
    assert!(!px(&cpu, 0, 0) && !px(&cpu, 1, 0));

    assert_eq!(cpu.execute(Instruction::ClearScreen), Ok(()));
    cpu.v[0] = 64; // masked to column 0
    cpu.v[1] = 32; // masked to row 0
    assert_eq!(
        cpu.execute(Instruction::Draw(VRegister::V0, VRegister::V1, 1)),
        Ok(())
    );
    assert!(px(&cpu, 0, 0) && px(&cpu, 3, 0));
}

#[test]
fn draw_faults_when_a_sprite_row_is_outside_memory() {
    let mut cpu = machine();
    cpu.i = Address(0xFFF);
    assert_eq!(
        cpu.execute(Instruction::Draw(VRegister::V0, VRegister::V1, 2)),
        Err(CpuError::SegmentationFault(Address(0x1000)))
    );
}

#[test]
fn nop_changes_nothing() {
    let mut cpu = machine();
    assert_eq!(cpu.execute(Instruction::Nop), Ok(()));
    assert_eq!(cpu.pc, Address(0x200));
    assert_eq!(cpu.v, vec![0u8; 16]);
}
