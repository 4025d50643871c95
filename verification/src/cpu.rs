use vstd::prelude::*;
use crate::address::Address;
use crate::isa::Instruction;
use crate::memory::{copied_upto, copy_written, word_at, Memory, SegmentationFault, MEMORY_SIZE};
use crate::register::{reg_of, InvalidRegisterNumber, VRegister};
use crate::screen::{Screen, NCOLS, NROWS};

verus! {

/// Number of general-purpose registers.
pub const NUM_REGISTERS: usize = 0x10;

/// Depth of the call stack: `Call` beyond this many nested frames is fatal.
pub const STACK_SIZE: usize = 0x10;

/// Where execution starts and where the program image is loaded.
pub const PC_START: u16 = 0x200;

/// How far the program counter advances per fetched instruction.
pub const PC_INCREMENT: u16 = 2;

/// A fatal condition. Every error here aborts the running fetch-decode-
/// execute cycle and propagates to the driving loop; none is retried.
#[derive(Clone, Copy, PartialEq, Eq, Structural, Debug)]
pub enum CpuError {
    /// `Call` would push a seventeenth frame.
    StackOverflow,
    /// `Return` found the call stack empty. The classic interpreters leave
    /// this case open; here it is pinned down as a fatal error.
    StackUnderflow,
    /// A jump straight back to its own instruction word: a detected hang.
    InfiniteLoop,
    /// An address was assembled from a triple that is not all nibbles.
    InvalidAddress(u8, u8, u8),
    /// A register id outside 0-15 (defensive; decoding only extracts
    /// nibbles).
    InvalidRegister(u8),
    /// A memory access outside 0x000-0xFFF.
    SegmentationFault(Address),
    /// An instruction word matching no documented opcode pattern.
    InvalidInstruction(u16),
    /// The program image could not be read at all.
    ProgramLoadError,
}

/// The mathematical image of a machine state: every register, the memory
/// and the framebuffer as sequences of plain values.
#[verifier::ext_equal]
pub ghost struct CpuView {
    /// The sixteen general-purpose registers, by index.
    pub v: Seq<u8>,
    /// The index register I.
    pub i: u16,
    /// The delay timer register.
    pub dt: u8,
    /// The sound timer register.
    pub st: u8,
    /// The program counter.
    pub pc: u16,
    /// The call stack, oldest frame first.
    pub stack: Seq<Address>,
    /// The addressable memory.
    pub mem: Seq<u8>,
    /// The framebuffer, row by row.
    pub screen: Seq<bool>,
}

impl CpuView {
    /// Dimensions every reachable machine state has.
    pub open spec fn wf(self) -> bool {
        &&& self.v.len() == NUM_REGISTERS
        &&& self.stack.len() <= STACK_SIZE
        &&& self.mem.len() == MEMORY_SIZE
        &&& self.screen.len() == NROWS * NCOLS
    }
}

/// The CHIP-8 machine: registers, call stack, memory, framebuffer and the
/// two timer registers.
///
/// The timers are plain bytes here. The 60 Hz cadence that decrements the
/// delay register lives with the driving loop, which shares the byte with
/// this state between instructions; the register has no cross-field
/// invariant, so that sharing needs no further coordination from the
/// machine itself.
pub struct Cpu {
    /// General-purpose registers V0-VF.
    pub v: Vec<u8>,
    /// Index register I.
    pub i: Address,
    /// Delay timer register.
    pub dt: u8,
    /// Sound timer register.
    pub st: u8,
    /// Program counter.
    pub pc: Address,
    /// Call stack, oldest frame first; its length is the stack pointer.
    pub stack: Vec<Address>,
    /// Addressable memory.
    pub memory: Memory,
    /// Framebuffer.
    pub display: Screen,
}

impl View for Cpu {
    type V = CpuView;

    open spec fn view(&self) -> CpuView {
        CpuView {
            v: self.v@,
            i: self.i.0,
            dt: self.dt,
            st: self.st,
            pc: self.pc.0,
            stack: self.stack@,
            mem: self.memory@,
            screen: self.display@,
        }
    }
}

/// The 16-bit word split into its four nibbles, highest first.
pub fn split_into_nibbles(i: u16) -> (r: [u8; 4])
    ensures
        r@.len() == 4,
        r@[0] == i >> 12,
        r@[1] == (i >> 8) & 0xF,
        r@[2] == (i >> 4) & 0xF,
        r@[3] == i & 0xF,
        r@[0] < 0x10 && r@[1] < 0x10 && r@[2] < 0x10 && r@[3] < 0x10,
{
    proof {
        assert(((i & 0xF000) >> 12) == i >> 12 && ((i & 0x0F00) >> 8) == (i >> 8) & 0xF && ((i
            & 0x00F0) >> 4) == (i >> 4) & 0xF && (i & 0x000F) == i & 0xF && i >> 12 < 0x10 && (i
            >> 8) & 0xF < 0x10 && (i >> 4) & 0xF < 0x10 && i & 0xF < 0x10) by (bit_vector);
    }
    [
        ((i & 0xF000) >> 12) as u8,
        ((i & 0x0F00) >> 8) as u8,
        ((i & 0x00F0) >> 4) as u8,
        (i & 0x000F) as u8,
    ]
}

/// The built-in hexadecimal font: sixteen glyphs of five bytes each,
/// preloaded at address 0x000.
pub open spec fn font_spec() -> Seq<u8> {
    seq![
        0xF0u8, 0x90, 0x90, 0x90, 0xF0,
        0x20, 0x60, 0x20, 0x20, 0x70,
        0xF0, 0x10, 0xF0, 0x80, 0xF0,
        0xF0, 0x10, 0xF0, 0x10, 0xF0,
        0x90, 0x90, 0xF0, 0x10, 0x10,
        0xF0, 0x80, 0xF0, 0x10, 0xF0,
        0xF0, 0x80, 0xF0, 0x90, 0xF0,
        0xF0, 0x10, 0x20, 0x40, 0x40,
        0xF0, 0x90, 0xF0, 0x90, 0xF0,
        0xF0, 0x90, 0xF0, 0x10, 0xF0,
        0xF0, 0x90, 0xF0, 0x90, 0x90,
        0xE0, 0x90, 0xE0, 0x90, 0xE0,
        0xF0, 0x80, 0x80, 0x80, 0xF0,
        0xE0, 0x90, 0x90, 0x90, 0xE0,
        0xF0, 0x80, 0xF0, 0x80, 0xF0,
        0xF0, 0x80, 0xF0, 0x80, 0x80,
    ]
}

/// The font glyphs as bytes, ready to be loaded into memory.
pub fn font_sprites() -> (r: [u8; 80])
    ensures
        r@ == font_spec(),
{
    let r: [u8; 80] = [
        0xF0, 0x90, 0x90, 0x90, 0xF0,
        0x20, 0x60, 0x20, 0x20, 0x70,
        0xF0, 0x10, 0xF0, 0x80, 0xF0,
        0xF0, 0x10, 0xF0, 0x10, 0xF0,
        0x90, 0x90, 0xF0, 0x10, 0x10,
        0xF0, 0x80, 0xF0, 0x10, 0xF0,
        0xF0, 0x80, 0xF0, 0x90, 0xF0,
        0xF0, 0x10, 0x20, 0x40, 0x40,
        0xF0, 0x90, 0xF0, 0x90, 0xF0,
        0xF0, 0x90, 0xF0, 0x10, 0xF0,
        0xF0, 0x90, 0xF0, 0x90, 0x90,
        0xE0, 0x90, 0xE0, 0x90, 0xE0,
        0xF0, 0x80, 0x80, 0x80, 0xF0,
        0xE0, 0x90, 0x90, 0x90, 0xE0,
        0xF0, 0x80, 0xF0, 0x80, 0xF0,
        0xF0, 0x80, 0xF0, 0x80, 0x80,
    ];
    proof {
        assert(r@ =~= font_spec());
    }
    r
}

/// The memory image right after boot: the font at 0x000, the program image
/// from `PC_START` on, zeroes elsewhere.
pub open spec fn boot_mem(program: Seq<u8>) -> Seq<u8> {
    Seq::new(MEMORY_SIZE as nat, |j: int| if 0 <= j < font_spec().len() {
        font_spec()[j]
    } else if PC_START <= j < PC_START + program.len() {
        program[j - PC_START]
    } else {
        0u8
    })
}

/// The whole machine state right after boot.
pub open spec fn boot_view(program: Seq<u8>) -> CpuView {
    CpuView {
        v: Seq::new(NUM_REGISTERS as nat, |j: int| 0u8),
        i: 0,
        dt: 0,
        st: 0,
        pc: PC_START,
        stack: Seq::empty(),
        mem: boot_mem(program),
        screen: Seq::new((NROWS * NCOLS) as nat, |p: int| false),
    }
}

impl Cpu {
    /// Dimensions every reachable machine state has.
    pub open spec fn wf(&self) -> bool {
        self@.wf()
    }

    /// Boots a machine with `program` loaded at `PC_START`: the font goes
    /// to address 0x000, the program image right where the program counter
    /// starts, and every register, the stack and the screen start cleared.
    /// A program image too long for the address space is rejected with
    /// `SegmentationFault` at the first address past the end, as the copy
    /// into memory reports it.
    pub fn new(program: &[u8]) -> (r: Result<Cpu, CpuError>)
        ensures
            PC_START + program@.len() <= MEMORY_SIZE ==> (r matches Ok(cpu) && cpu.wf() && cpu@
                == boot_view(program@)),
            PC_START + program@.len() > MEMORY_SIZE ==> r == Err::<Cpu, CpuError>(
                CpuError::SegmentationFault(Address(MEMORY_SIZE as u16)),
            ),
    {
        let mut memory = Memory::new();
        let ghost zeroed = memory@;

        let font = font_sprites();
        let fr = memory.copy_to_offset(vstd::array::array_as_slice(&font), 80, Address(0));
        proof {
            assert(fr is Ok);
        }

        let program_len = program.len();
        let pr = memory.copy_to_offset(program, program_len, Address(PC_START));
        match pr {
            Ok(_) => {
                let cpu = Cpu {
                    v: make_zero_bytes(NUM_REGISTERS),
                    i: Address(0),
                    dt: 0,
                    st: 0,
                    pc: Address(PC_START),
                    stack: Vec::new(),
                    memory,
                    display: Screen::new(),
                };
                proof {
                    assert(cpu@.mem =~= boot_mem(program@));
                    assert(cpu@ =~= boot_view(program@));
                }
                Ok(cpu)
            },
            Err(SegmentationFault(addr)) => Err(CpuError::SegmentationFault(addr)),
        }
    }

    /// Reads the 16-bit instruction word at the program counter and
    /// advances the counter past it; a counter pointing outside memory
    /// leaves the machine alone and faults at that address.
    pub fn fetch(&mut self) -> (r: Result<u16, CpuError>)
        requires
            old(self).wf(),
        ensures
            final(self).wf(),
            old(self)@.pc + 1 < MEMORY_SIZE ==> r == Ok::<u16, CpuError>(
                word_at(old(self)@.mem, old(self)@.pc as int),
            ) && final(self)@ == (CpuView { pc: (old(self)@.pc + PC_INCREMENT) as u16, ..old(self)@ }),
            old(self)@.pc + 1 >= MEMORY_SIZE ==> r == Err::<u16, CpuError>(
                CpuError::SegmentationFault(Address(old(self)@.pc)),
            ) && final(self)@ == old(self)@,
    {
        match self.memory.get_short(self.pc) {
            Ok(instruction) => {
                self.pc = Address(self.pc.0 + PC_INCREMENT);
                Ok(instruction)
            },
            Err(SegmentationFault(addr)) => Err(CpuError::SegmentationFault(addr)),
        }
    }
}

/// The low byte of `a + b`, as wrapping 8-bit addition leaves it.
pub open spec fn byte_sum(a: u8, b: u8) -> u8 {
    if a + b > 0xFF {
        (a + b - 0x100) as u8
    } else {
        (a + b) as u8
    }
}

/// The low byte of `a - b`, as wrapping 8-bit subtraction leaves it.
pub open spec fn byte_diff(a: u8, b: u8) -> u8 {
    if a - b < 0 {
        (a - b + 0x100) as u8
    } else {
        (a - b) as u8
    }
}

/// The low word of `a + b`, as wrapping 16-bit addition leaves it.
pub open spec fn word_sum(a: u16, b: u16) -> u16 {
    if a + b > 0xFFFF {
        (a + b - 0x10000) as u16
    } else {
        (a + b) as u16
    }
}

/// Whether bit `j` of sprite byte `b` is set, counting from the
/// most-significant bit: bit 0 is the leftmost pixel of the row.
pub open spec fn bit_at(b: u8, j: int) -> bool {
    (b >> ((7 - j) as u8)) & 1 == 1
}

/// Whether a sprite row byte `data`, drawn with its leftmost pixel at
/// column `x0`, covers column `px`. Columns past the right screen edge are
/// never covered by clipping, which the caller's column range enforces.
pub open spec fn row_covers(data: u8, x0: int, px: int) -> bool {
    x0 <= px < x0 + 8 && bit_at(data, px - x0)
}

/// Whether the sprite `rows`, drawn with its top-left corner at (x0, y0),
/// covers the pixel (px, py). Pixels are never covered outside the rows'
/// own span; the screen's edges clip because only on-screen coordinates
/// are ever asked about.
pub open spec fn sprite_covers(rows: Seq<u8>, x0: int, y0: int, px: int, py: int) -> bool {
    y0 <= py < y0 + rows.len() && #[trigger] row_covers(rows[py - y0], x0, px)
}

/// The screen after XOR-drawing the sprite `rows` at (x0, y0): every
/// covered pixel toggles, every other pixel stays.
pub open spec fn draw_rows(s: Seq<bool>, rows: Seq<u8>, x0: int, y0: int) -> Seq<bool> {
    Seq::new(s.len(), |p: int| s[p] != sprite_covers(rows, x0, y0, p % (NCOLS as int), p / (NCOLS as int)))
}

/// Whether XOR-drawing the sprite `rows` at (x0, y0) on screen `s` turns
/// some lit pixel off — a collision.
pub open spec fn draw_hits(s: Seq<bool>, rows: Seq<u8>, x0: int, y0: int) -> bool {
    exists|px: int, py: int|
        0 <= px < NCOLS && 0 <= py < NROWS && s[py * (NCOLS as int) + px] && #[trigger] sprite_covers(
            rows,
            x0,
            y0,
            px,
            py,
        )
}

/// The screen after XOR-drawing the single row byte `data` at column `x0`
/// of row `pyr`.
pub open spec fn row_applied(s: Seq<bool>, data: u8, x0: int, pyr: int) -> Seq<bool> {
    Seq::new(s.len(), |p: int| s[p] != (p / (NCOLS as int) == pyr && row_covers(data, x0, p % (NCOLS as int))))
}

/// Whether XOR-drawing the single row byte `data` at column `x0` of row
/// `pyr` turns some lit pixel of `s` off.
pub open spec fn row_hits(s: Seq<bool>, data: u8, x0: int, pyr: int) -> bool {
    0 <= pyr < NROWS && exists|px: int|
        0 <= px < NCOLS && s[pyr * (NCOLS as int) + px] && #[trigger] row_covers(data, x0, px)
}

/// The `w` sprite-row bytes starting at `i`: the rows a draw reads before
/// its first out-of-range address. Callers keep `i + w` within memory.
pub open spec fn mem_rows(mem: Seq<u8>, i: int, w: int) -> Seq<u8> {
    Seq::new(w as nat, |r: int| mem[i + r])
}

/// The register file after a block load from memory: registers 0 up to
/// `w` (exclusive) filled from `mem` at `i`, the rest untouched.
pub open spec fn loaded_regs(v: Seq<u8>, mem: Seq<u8>, i: int, w: int) -> Seq<u8> {
    Seq::new(v.len(), |j: int| if 0 <= j < w {
        mem[i + j]
    } else {
        v[j]
    })
}

/// The three decimal digits of `val`, hundreds first.
pub open spec fn bcd_digits(val: u8) -> Seq<u8> {
    seq![val / 100, (val / 10) % 10, val % 10]
}

/// The machine state after executing one decoded instruction from state
/// `pre`, with `rnd` the byte the random source supplied (it only matters
/// to `AndRandom`). Where an instruction faults part-way through a block
/// transfer or a draw, the state keeps the writes made before the fault,
/// exactly as `step_result` reports it.
pub open spec fn step_state(pre: CpuView, instr: Instruction, rnd: u8) -> CpuView {
    match instr {
        Instruction::Nop => pre,
        Instruction::ClearScreen => CpuView {
            screen: Seq::new(pre.screen.len(), |p: int| false),
            ..pre
        },
        Instruction::Return => {
            if pre.stack.len() == 0 {
                pre
            } else {
                CpuView { pc: pre.stack.last().0, stack: pre.stack.drop_last(), ..pre }
            }
        },
        Instruction::Jump(addr) => {
            if addr.0 == pre.pc - PC_INCREMENT {
                pre
            } else {
                CpuView { pc: addr.0, ..pre }
            }
        },
        Instruction::Call(addr) => {
            if pre.stack.len() >= STACK_SIZE {
                pre
            } else {
                CpuView { stack: pre.stack.push(Address(pre.pc)), pc: addr.0, ..pre }
            }
        },
        Instruction::JumpOffset(addr) => CpuView { pc: word_sum(addr.0, pre.v[0] as u16), ..pre },
        Instruction::SkipIfEqualImm(x, imm) => {
            if pre.v[x.idx_spec()] == imm {
                CpuView { pc: word_sum(pre.pc, PC_INCREMENT), ..pre }
            } else {
                pre
            }
        },
        Instruction::SkipIfNotEqualImm(x, imm) => {
            if pre.v[x.idx_spec()] != imm {
                CpuView { pc: word_sum(pre.pc, PC_INCREMENT), ..pre }
            } else {
                pre
            }
        },
        Instruction::SkipIfEqual(x, y) => {
            if pre.v[x.idx_spec()] == pre.v[y.idx_spec()] {
                CpuView { pc: word_sum(pre.pc, PC_INCREMENT), ..pre }
            } else {
                pre
            }
        },
        Instruction::SkipIfNotEqual(x, y) => {
            if pre.v[x.idx_spec()] != pre.v[y.idx_spec()] {
                CpuView { pc: word_sum(pre.pc, PC_INCREMENT), ..pre }
            } else {
                pre
            }
        },
        Instruction::LoadImm(x, imm) => CpuView { v: pre.v.update(x.idx_spec(), imm), ..pre },
        Instruction::AddImm(x, imm) => CpuView {
            v: pre.v.update(x.idx_spec(), byte_sum(pre.v[x.idx_spec()], imm)),
            ..pre
        },
        Instruction::Move(x, y) => CpuView {
            v: pre.v.update(x.idx_spec(), pre.v[y.idx_spec()]),
            ..pre
        },
        Instruction::Or(x, y) => CpuView {
            v: pre.v.update(x.idx_spec(), pre.v[x.idx_spec()] | pre.v[y.idx_spec()]),
            ..pre
        },
        Instruction::And(x, y) => CpuView {
            v: pre.v.update(x.idx_spec(), pre.v[x.idx_spec()] & pre.v[y.idx_spec()]),
            ..pre
        },
        Instruction::Xor(x, y) => CpuView {
            v: pre.v.update(x.idx_spec(), pre.v[x.idx_spec()] ^ pre.v[y.idx_spec()]),
            ..pre
        },
        Instruction::AndRandom(x, imm) => CpuView {
            v: pre.v.update(x.idx_spec(), imm & rnd),
            ..pre
        },
        Instruction::Add(x, y) => {
            let a = pre.v[x.idx_spec()];
            let b = pre.v[y.idx_spec()];
            let carry: u8 = if a + b > 0xFF {
                1
            } else {
                0
            };
            CpuView { v: pre.v.update(x.idx_spec(), byte_sum(a, b)).update(0xF, carry), ..pre }
        },
        Instruction::Subtract(x, y) => {
            let a = pre.v[x.idx_spec()];
            let b = pre.v[y.idx_spec()];
            let no_borrow: u8 = if a >= b {
                1
            } else {
                0
            };
            CpuView { v: pre.v.update(0xF, no_borrow).update(x.idx_spec(), byte_diff(a, b)), ..pre }
        },
        Instruction::SubtractN(x, y) => {
            let a = pre.v[x.idx_spec()];
            let b = pre.v[y.idx_spec()];
            let no_borrow: u8 = if b >= a {
                1
            } else {
                0
            };
            CpuView { v: pre.v.update(0xF, no_borrow).update(x.idx_spec(), byte_diff(b, a)), ..pre }
        },
        Instruction::ShiftRight(x) => {
            let v1 = pre.v.update(0xF, pre.v[x.idx_spec()] % 2);
            CpuView { v: v1.update(x.idx_spec(), v1[x.idx_spec()] / 2), ..pre }
        },
        Instruction::ShiftLeft(x) => {
            let v1 = pre.v.update(0xF, pre.v[x.idx_spec()] / 0x80);
            CpuView { v: v1.update(x.idx_spec(), byte_sum(v1[x.idx_spec()], v1[x.idx_spec()])), ..pre }
        },
        Instruction::LoadI(addr) => CpuView { i: addr.0, ..pre },
        Instruction::LoadDT(x) => CpuView { v: pre.v.update(x.idx_spec(), pre.dt), ..pre },
        Instruction::StoreDT(x) => CpuView { dt: pre.v[x.idx_spec()], ..pre },
        Instruction::AddI(x) => CpuView {
            i: word_sum(pre.i, pre.v[x.idx_spec()] as u16),
            ..pre
        },
        Instruction::LoadSprite(x) => CpuView { i: ((pre.v[x.idx_spec()] & 0xF) * 5) as u16, ..pre },
        Instruction::Load(x) => {
            let w = copy_written(x.idx_spec() + 1, pre.i as int);
            CpuView { v: loaded_regs(pre.v, pre.mem, pre.i as int, w), ..pre }
        },
        Instruction::Store(x) => {
            let w = copy_written(x.idx_spec() + 1, pre.i as int);
            CpuView { mem: copied_upto(pre.mem, pre.v, pre.i as int, w), ..pre }
        },
        Instruction::StoreBCD(x) => {
            let w = copy_written(3, pre.i as int);
            CpuView { mem: copied_upto(pre.mem, bcd_digits(pre.v[x.idx_spec()]), pre.i as int, w), ..pre }
        },
        Instruction::Draw(x, y, n) => {
            let x0 = pre.v[x.idx_spec()] as int % (NCOLS as int);
            let y0 = pre.v[y.idx_spec()] as int % (NROWS as int);
            let w = copy_written(n as int, pre.i as int);
            let rows = mem_rows(pre.mem, pre.i as int, w);
            let flag: u8 = if draw_hits(pre.screen, rows, x0, y0) {
                1
            } else {
                0
            };
            CpuView {
                screen: draw_rows(pre.screen, rows, x0, y0),
                v: pre.v.update(0xF, flag),
                ..pre
            }
        },
    }
}

/// Like `row_covers`, but counting only the row's first `j` bits.
spec fn row_covers_upto(data: u8, x0: int, j: int, px: int) -> bool {
    row_covers(data, x0, px) && px < x0 + j
}

/// Like `row_applied`, but drawing only the row's first `j` bits.
spec fn row_applied_upto(s: Seq<bool>, data: u8, x0: int, pyr: int, j: int) -> Seq<bool> {
    Seq::new(s.len(), |p: int| s[p] != (p / (NCOLS as int) == pyr && row_covers_upto(data, x0, j, p % (NCOLS as int))))
}

/// Like `row_hits`, but counting only the row's first `j` bits.
spec fn row_hits_upto(s: Seq<bool>, data: u8, x0: int, pyr: int, j: int) -> bool {
    0 <= pyr < NROWS && exists|px: int|
        0 <= px < NCOLS && s[pyr * (NCOLS as int) + px] && #[trigger] row_covers_upto(data, x0, j, px)
}

/// How on-screen coordinates and flat pixel indices correspond.
proof fn lemma_pixel_index(px: int, py: int)
    requires
        0 <= px < NCOLS,
        0 <= py < NROWS,
    ensures
        (py * (NCOLS as int) + px) / (NCOLS as int) == py,
        (py * (NCOLS as int) + px) % (NCOLS as int) == px,
        0 <= py * (NCOLS as int) + px < NROWS * NCOLS,
{
    assert((py * 64 + px) / 64 == py && (py * 64 + px) % 64 == px && 0 <= py * 64 + px < 32 * 64)
        by (nonlinear_arith)
        requires
            0 <= px < 64,
            0 <= py < 32,
    ;
}

/// XOR-draws the single sprite row `data` onto `scr` with its leftmost
/// bit at column `x0` of row `pyr`, most-significant bit first; pixels
/// past the right edge, or the whole row when `pyr` is below the screen,
/// are skipped. Reports whether some lit pixel was turned off.
fn draw_row(scr: &mut Screen, data: u8, x0: u8, pyr: usize) -> (hit: bool)
    requires
        old(scr).wf(),
        x0 < NCOLS,
    ensures
        final(scr).wf(),
        final(scr)@ == row_applied(old(scr)@, data, x0 as int, pyr as int),
        hit == row_hits(old(scr)@, data, x0 as int, pyr as int),
{
    let ghost s0 = scr@;
    let mut hit = false;
    let mut j: usize = 0;
    while j < 8
        invariant
            scr.wf(),
            x0 < NCOLS,
            j <= 8,
            scr@.len() == s0.len(),
            s0.len() == NROWS * NCOLS,
            scr@ == row_applied_upto(s0, data, x0 as int, pyr as int, j as int),
            hit == row_hits_upto(s0, data, x0 as int, pyr as int, j as int),
        decreases 8 - j,
    {
        let ghost jj = j as int;
        let bit_set = ((data >> ((7 - j) as u8)) & 1) == 1;
        proof {
            assert(bit_set == bit_at(data, jj));
        }
        if bit_set {
            let px = x0 as usize + j;
            match scr.flip(px, pyr) {
                Some(prev) => {
                    proof {
                        lemma_pixel_index(px as int, pyr as int);
                        let pstar = pyr * (NCOLS as int) + px;
                        // the pixel was untouched by the row's earlier bits
                        assert(!row_covers_upto(data, x0 as int, jj, px as int));
                        assert(prev == s0[pstar]);
                        assert(scr@ =~= row_applied_upto(s0, data, x0 as int, pyr as int, jj + 1));
                        // the new bit is the only change the bound makes
                        assert(row_hits_upto(s0, data, x0 as int, pyr as int, jj + 1) == (
                        row_hits_upto(s0, data, x0 as int, pyr as int, jj) || s0[pstar])) by {
                            if row_hits_upto(s0, data, x0 as int, pyr as int, jj + 1) {
                                let w = choose|w: int|
                                    0 <= w < NCOLS && s0[pyr * (NCOLS as int) + w]
                                        && #[trigger] row_covers_upto(data, x0 as int, jj + 1, w);
                                if w < x0 + jj {
                                    assert(row_covers_upto(data, x0 as int, jj, w));
                                    assert(row_hits_upto(s0, data, x0 as int, pyr as int, jj));
                                } else {
                                    assert(w == px);
                                    assert(s0[pstar]);
                                }
                            }
                            if row_hits_upto(s0, data, x0 as int, pyr as int, jj) {
                                let w = choose|w: int|
                                    0 <= w < NCOLS && s0[pyr * (NCOLS as int) + w]
                                        && #[trigger] row_covers_upto(data, x0 as int, jj, w);
                                assert(row_covers_upto(data, x0 as int, jj + 1, w));
                                assert(row_hits_upto(s0, data, x0 as int, pyr as int, jj + 1));
                            }
                            if s0[pstar] {
                                assert(row_covers_upto(data, x0 as int, jj + 1, px as int));
                                assert(row_hits_upto(s0, data, x0 as int, pyr as int, jj + 1));
                            }
                        }
                    }
                    if prev {
                        hit = true;
                    }
                },
                None => {
                    proof {
                        // the bit falls off the grid: nothing is covered by it
                        assert(px >= NCOLS || pyr >= NROWS);
                        assert(scr@ =~= row_applied_upto(s0, data, x0 as int, pyr as int, jj + 1));
                        assert(row_hits_upto(s0, data, x0 as int, pyr as int, jj + 1)
                            == row_hits_upto(s0, data, x0 as int, pyr as int, jj)) by {
                            if row_hits_upto(s0, data, x0 as int, pyr as int, jj + 1) {
                                let w = choose|w: int|
                                    0 <= w < NCOLS && s0[pyr * (NCOLS as int) + w]
                                        && #[trigger] row_covers_upto(data, x0 as int, jj + 1, w);
                                assert(row_covers_upto(data, x0 as int, jj, w));
                            }
                            if row_hits_upto(s0, data, x0 as int, pyr as int, jj) {
                                let w = choose|w: int|
                                    0 <= w < NCOLS && s0[pyr * (NCOLS as int) + w]
                                        && #[trigger] row_covers_upto(data, x0 as int, jj, w);
                                assert(row_covers_upto(data, x0 as int, jj + 1, w));
                            }
                        }
                    }
                },
            }
        } else {
            proof {
                assert(scr@ =~= row_applied_upto(s0, data, x0 as int, pyr as int, jj + 1));
                assert(row_hits_upto(s0, data, x0 as int, pyr as int, jj + 1) == row_hits_upto(
                    s0,
                    data,
                    x0 as int,
                    pyr as int,
                    jj,
                )) by {
                    if row_hits_upto(s0, data, x0 as int, pyr as int, jj + 1) {
                        let w = choose|w: int|
                            0 <= w < NCOLS && s0[pyr * (NCOLS as int) + w] && #[trigger] row_covers_upto(
                                data,
                                x0 as int,
                                jj + 1,
                                w,
                            );
                        assert(row_covers_upto(data, x0 as int, jj, w));
                    }
                    if row_hits_upto(s0, data, x0 as int, pyr as int, jj) {
                        let w = choose|w: int|
                            0 <= w < NCOLS && s0[pyr * (NCOLS as int) + w] && #[trigger] row_covers_upto(
                                data,
                                x0 as int,
                                jj,
                                w,
                            );
                        assert(row_covers_upto(data, x0 as int, jj + 1, w));
                    }
                }
            }
        }
        j = j + 1;
    }
    proof {
        assert(scr@ =~= row_applied(s0, data, x0 as int, pyr as int));
        assert(row_hits_upto(s0, data, x0 as int, pyr as int, 8) == row_hits(
            s0,
            data,
            x0 as int,
            pyr as int,
        )) by {
            if row_hits_upto(s0, data, x0 as int, pyr as int, 8) {
                let w = choose|w: int|
                    0 <= w < NCOLS && s0[pyr * (NCOLS as int) + w] && #[trigger] row_covers_upto(
                        data,
                        x0 as int,
                        8,
                        w,
                    );
                assert(row_covers(data, x0 as int, w));
            }
            if row_hits(s0, data, x0 as int, pyr as int) {
                let w = choose|w: int|
                    0 <= w < NCOLS && s0[pyr * (NCOLS as int) + w] && #[trigger] row_covers(
                        data,
                        x0 as int,
                        w,
                    );
                assert(row_covers_upto(data, x0 as int, 8, w));
            }
        }
    }
    hit
}

/// Drawing one more sprite row after the earlier ones: the composed screen
/// and the composed collision report, stated against the original screen.
/// Rows land on distinct screen rows, so the new row neither disturbs nor
/// reads anything the earlier rows touched.
proof fn lemma_draw_snoc(s: Seq<bool>, rows: Seq<u8>, data: u8, x0: int, y0: int)
    requires
        s.len() == NROWS * NCOLS,
        0 <= x0 < NCOLS,
        0 <= y0 < NROWS,
    ensures
        row_applied(draw_rows(s, rows, x0, y0), data, x0, y0 + rows.len()) =~= draw_rows(
            s,
            rows.push(data),
            x0,
            y0,
        ),
        draw_hits(s, rows.push(data), x0, y0) == (draw_hits(s, rows, x0, y0) || row_hits(
            s,
            data,
            x0,
            y0 + rows.len(),
        )),
        row_hits(draw_rows(s, rows, x0, y0), data, x0, y0 + rows.len()) == row_hits(
            s,
            data,
            x0,
            y0 + rows.len(),
        ),
{
    let pyr = y0 + rows.len();
    let pushed = rows.push(data);
    assert forall|p: int| 0 <= p < s.len() implies row_applied(
        draw_rows(s, rows, x0, y0),
        data,
        x0,
        pyr,
    )[p] == draw_rows(s, pushed, x0, y0)[p] by {
        let px = p % (NCOLS as int);
        let py = p / (NCOLS as int);
        assert(0 <= px < NCOLS && 0 <= py < NROWS) by (nonlinear_arith)
            requires
                0 <= p < 2048,
                px == p % 64,
                py == p / 64,
                NCOLS == 64,
                NROWS == 32,
        ;
        if py == pyr {
            assert(!sprite_covers(rows, x0, y0, px, py));
            assert(sprite_covers(pushed, x0, y0, px, py) == row_covers(data, x0, px));
        } else {
            assert(sprite_covers(pushed, x0, y0, px, py) == sprite_covers(rows, x0, y0, px, py));
        }
    }
    assert(draw_hits(s, pushed, x0, y0) == (draw_hits(s, rows, x0, y0) || row_hits(
        s,
        data,
        x0,
        pyr,
    ))) by {
        if draw_hits(s, pushed, x0, y0) {
            let (px, py) = choose|px: int, py: int|
                0 <= px < NCOLS && 0 <= py < NROWS && s[py * (NCOLS as int) + px]
                    && #[trigger] sprite_covers(pushed, x0, y0, px, py);
            if py == pyr {
                assert(row_covers(data, x0, px));
                assert(row_hits(s, data, x0, pyr));
            } else {
                assert(sprite_covers(rows, x0, y0, px, py));
                assert(draw_hits(s, rows, x0, y0));
            }
        }
        if draw_hits(s, rows, x0, y0) {
            let (px, py) = choose|px: int, py: int|
                0 <= px < NCOLS && 0 <= py < NROWS && s[py * (NCOLS as int) + px]
                    && #[trigger] sprite_covers(rows, x0, y0, px, py);
            assert(sprite_covers(pushed, x0, y0, px, py));
            assert(draw_hits(s, pushed, x0, y0));
        }
        if row_hits(s, data, x0, pyr) {
            let px = choose|px: int|
                0 <= px < NCOLS && s[pyr * (NCOLS as int) + px] && #[trigger] row_covers(data, x0, px);
            assert(sprite_covers(pushed, x0, y0, px, pyr));
            assert(draw_hits(s, pushed, x0, y0));
        }
    }
    assert(row_hits(draw_rows(s, rows, x0, y0), data, x0, pyr) == row_hits(s, data, x0, pyr)) by {
        let drawn = draw_rows(s, rows, x0, y0);
        if 0 <= pyr < NROWS {
            if row_hits(drawn, data, x0, pyr) {
                let px = choose|px: int|
                    0 <= px < NCOLS && drawn[pyr * (NCOLS as int) + px] && #[trigger] row_covers(
                        data,
                        x0,
                        px,
                    );
                lemma_pixel_index(px, pyr);
                assert(!sprite_covers(rows, x0, y0, px, pyr));
                assert(s[pyr * (NCOLS as int) + px]);
                assert(row_hits(s, data, x0, pyr));
            }
            if row_hits(s, data, x0, pyr) {
                let px = choose|px: int|
                    0 <= px < NCOLS && s[pyr * (NCOLS as int) + px] && #[trigger] row_covers(data, x0, px);
                lemma_pixel_index(px, pyr);
                assert(!sprite_covers(rows, x0, y0, px, pyr));
                assert(drawn[pyr * (NCOLS as int) + px]);
                assert(row_hits(drawn, data, x0, pyr));
            }
        }
    }
}

/// Whether executing one decoded instruction from state `pre` succeeds,
/// and with which fatal error it fails otherwise.
pub open spec fn step_result(pre: CpuView, instr: Instruction) -> Result<(), CpuError> {
    match instr {
        Instruction::Return => {
            if pre.stack.len() == 0 {
                Err(CpuError::StackUnderflow)
            } else {
                Ok(())
            }
        },
        Instruction::Jump(addr) => {
            if addr.0 == pre.pc - PC_INCREMENT {
                Err(CpuError::InfiniteLoop)
            } else {
                Ok(())
            }
        },
        Instruction::Call(addr) => {
            if pre.stack.len() >= STACK_SIZE {
                Err(CpuError::StackOverflow)
            } else {
                Ok(())
            }
        },
        Instruction::Load(x) => {
            let w = copy_written(x.idx_spec() + 1, pre.i as int);
            if w == x.idx_spec() + 1 {
                Ok(())
            } else {
                Err(CpuError::SegmentationFault(Address((pre.i + w) as u16)))
            }
        },
        Instruction::Store(x) => {
            let w = copy_written(x.idx_spec() + 1, pre.i as int);
            if w == x.idx_spec() + 1 {
                Ok(())
            } else {
                Err(CpuError::SegmentationFault(Address((pre.i + w) as u16)))
            }
        },
        Instruction::StoreBCD(x) => {
            let w = copy_written(3, pre.i as int);
            if w == 3 {
                Ok(())
            } else {
                Err(CpuError::SegmentationFault(Address((pre.i + w) as u16)))
            }
        },
        Instruction::Draw(x, y, n) => {
            let w = copy_written(n as int, pre.i as int);
            if w == n {
                Ok(())
            } else {
                Err(CpuError::SegmentationFault(Address((pre.i + w) as u16)))
            }
        },
        _ => Ok(()),
    }
}

/// What the decoder makes of a 16-bit instruction word: the documented
/// opcode table, applied to the word's nibbles. A word matching no pattern
/// of the table decodes to `InvalidInstruction`.
pub open spec fn decode_spec(word: u16) -> Result<Instruction, CpuError> {
    let n0 = word >> 12;
    let n3 = word & 0xF;
    let x = reg_of(((word >> 8) & 0xF) as int);
    let y = reg_of(((word >> 4) & 0xF) as int);
    let addr = Address(word & 0xFFF);
    let lsb = (word & 0xFF) as u8;
    let lsn = (word & 0xF) as u8;
    if word == 0x00E0 {
        Ok(Instruction::ClearScreen)
    } else if word == 0x00EE {
        Ok(Instruction::Return)
    } else if n0 == 0x1 {
        Ok(Instruction::Jump(addr))
    } else if n0 == 0x2 {
        Ok(Instruction::Call(addr))
    } else if n0 == 0x3 {
        Ok(Instruction::SkipIfEqualImm(x, lsb))
    } else if n0 == 0x4 {
        Ok(Instruction::SkipIfNotEqualImm(x, lsb))
    } else if n0 == 0x5 && n3 == 0x0 {
        Ok(Instruction::SkipIfEqual(x, y))
    } else if n0 == 0x6 {
        Ok(Instruction::LoadImm(x, lsb))
    } else if n0 == 0x7 {
        Ok(Instruction::AddImm(x, lsb))
    } else if n0 == 0x8 && n3 == 0x0 {
        Ok(Instruction::Move(x, y))
    } else if n0 == 0x8 && n3 == 0x1 {
        Ok(Instruction::Or(x, y))
    } else if n0 == 0x8 && n3 == 0x2 {
        Ok(Instruction::And(x, y))
    } else if n0 == 0x8 && n3 == 0x3 {
        Ok(Instruction::Xor(x, y))
    } else if n0 == 0x8 && n3 == 0x4 {
        Ok(Instruction::Add(x, y))
    } else if n0 == 0x8 && n3 == 0x5 {
        Ok(Instruction::Subtract(x, y))
    } else if n0 == 0x8 && n3 == 0x6 {
        Ok(Instruction::ShiftRight(x))
    } else if n0 == 0x8 && n3 == 0x7 {
        Ok(Instruction::SubtractN(x, y))
    } else if n0 == 0x8 && n3 == 0xE {
        Ok(Instruction::ShiftLeft(x))
    } else if n0 == 0x9 && n3 == 0x0 {
        Ok(Instruction::SkipIfNotEqual(x, y))
    } else if n0 == 0xA {
        Ok(Instruction::LoadI(addr))
    } else if n0 == 0xB {
        Ok(Instruction::JumpOffset(addr))
    } else if n0 == 0xC {
        Ok(Instruction::AndRandom(x, lsb))
    } else if n0 == 0xD {
        Ok(Instruction::Draw(x, y, lsn))
    } else if n0 == 0xF && lsb == 0x07 {
        Ok(Instruction::LoadDT(x))
    } else if n0 == 0xF && lsb == 0x15 {
        Ok(Instruction::StoreDT(x))
    } else if n0 == 0xF && lsb == 0x18 {
        Ok(Instruction::Nop)
    } else if n0 == 0xF && lsb == 0x1E {
        Ok(Instruction::AddI(x))
    } else if n0 == 0xF && lsb == 0x29 {
        Ok(Instruction::LoadSprite(x))
    } else if n0 == 0xF && lsb == 0x33 {
        Ok(Instruction::StoreBCD(x))
    } else if n0 == 0xF && lsb == 0x55 {
        Ok(Instruction::Store(x))
    } else if n0 == 0xF && lsb == 0x65 {
        Ok(Instruction::Load(x))
    } else {
        Err(CpuError::InvalidInstruction(word))
    }
}

impl Cpu {
    /// Turns a 16-bit instruction word into its tagged instruction value:
    /// every word matching a documented opcode pattern decodes to that
    /// instruction with its operands extracted, and every other word fails
    /// with `InvalidInstruction`. Decoding touches no machine state.
    pub fn decode(&self, instruction: u16) -> (r: Result<Instruction, CpuError>)
        ensures
            r == decode_spec(instruction),
    {
        let nibbles = split_into_nibbles(instruction);
        let n0 = nibbles[0];
        let n1 = nibbles[1];
        let n2 = nibbles[2];
        let n3 = nibbles[3];
        let vx = match VRegister::from_id(n1) {
            Ok(r) => r,
            Err(InvalidRegisterNumber(id)) => {
                return Err(CpuError::InvalidRegister(id));
            },
        };
        let vy = match VRegister::from_id(n2) {
            Ok(r) => r,
            Err(InvalidRegisterNumber(id)) => {
                return Err(CpuError::InvalidRegister(id));
            },
        };
        let addr = Address(instruction & 0xFFF);
        let lsb = (instruction & 0xFF) as u8;
        let lsn = (instruction & 0xF) as u8;
        if instruction == 0x00E0 {
            Ok(Instruction::ClearScreen)
        } else if instruction == 0x00EE {
            Ok(Instruction::Return)
        } else if n0 == 0x1 {
            Ok(Instruction::Jump(addr))
        } else if n0 == 0x2 {
            Ok(Instruction::Call(addr))
        } else if n0 == 0x3 {
            Ok(Instruction::SkipIfEqualImm(vx, lsb))
        } else if n0 == 0x4 {
            Ok(Instruction::SkipIfNotEqualImm(vx, lsb))
        } else if n0 == 0x5 && n3 == 0x0 {
            Ok(Instruction::SkipIfEqual(vx, vy))
        } else if n0 == 0x6 {
            Ok(Instruction::LoadImm(vx, lsb))
        } else if n0 == 0x7 {
            Ok(Instruction::AddImm(vx, lsb))
        } else if n0 == 0x8 && n3 == 0x0 {
            Ok(Instruction::Move(vx, vy))
        } else if n0 == 0x8 && n3 == 0x1 {
            Ok(Instruction::Or(vx, vy))
        } else if n0 == 0x8 && n3 == 0x2 {
            Ok(Instruction::And(vx, vy))
        } else if n0 == 0x8 && n3 == 0x3 {
            Ok(Instruction::Xor(vx, vy))
        } else if n0 == 0x8 && n3 == 0x4 {
            Ok(Instruction::Add(vx, vy))
        } else if n0 == 0x8 && n3 == 0x5 {
            Ok(Instruction::Subtract(vx, vy))
        } else if n0 == 0x8 && n3 == 0x6 {
            Ok(Instruction::ShiftRight(vx))
        } else if n0 == 0x8 && n3 == 0x7 {
            Ok(Instruction::SubtractN(vx, vy))
        } else if n0 == 0x8 && n3 == 0xE {
            Ok(Instruction::ShiftLeft(vx))
        } else if n0 == 0x9 && n3 == 0x0 {
            Ok(Instruction::SkipIfNotEqual(vx, vy))
        } else if n0 == 0xA {
            Ok(Instruction::LoadI(addr))
        } else if n0 == 0xB {
            Ok(Instruction::JumpOffset(addr))
        } else if n0 == 0xC {
            Ok(Instruction::AndRandom(vx, lsb))
        } else if n0 == 0xD {
            Ok(Instruction::Draw(vx, vy, lsn))
        } else if n0 == 0xF && lsb == 0x07 {
            Ok(Instruction::LoadDT(vx))
        } else if n0 == 0xF && lsb == 0x15 {
            Ok(Instruction::StoreDT(vx))
        } else if n0 == 0xF && lsb == 0x18 {
            Ok(Instruction::Nop)
        } else if n0 == 0xF && lsb == 0x1E {
            Ok(Instruction::AddI(vx))
        } else if n0 == 0xF && lsb == 0x29 {
            Ok(Instruction::LoadSprite(vx))
        } else if n0 == 0xF && lsb == 0x33 {
            Ok(Instruction::StoreBCD(vx))
        } else if n0 == 0xF && lsb == 0x55 {
            Ok(Instruction::Store(vx))
        } else if n0 == 0xF && lsb == 0x65 {
            Ok(Instruction::Load(vx))
        } else {
            Err(CpuError::InvalidInstruction(instruction))
        }
    }
}

/// Relies on rand::random::<u8>: a byte drawn uniformly at random from the
/// thread's generator. Nothing is promised of the value.
#[verifier::external_body]
fn random_byte() -> u8 {
    rand::random::<u8>()
}

impl Cpu {
    /// XOR-draws the `n`-row sprite at the index register onto the screen
    /// at (Vx mod 64, Vy mod 32), and sets VF to 1 exactly when some lit
    /// pixel went dark. A sprite row outside memory faults at its address,
    /// leaving the rows drawn before it in place.
    #[verifier::rlimit(60)]
    fn op_draw(&mut self, x: VRegister, y: VRegister, n: u8) -> (res: Result<(), CpuError>)
        requires
            old(self)@.wf(),
        ensures
            final(self)@.wf(),
            final(self)@ == step_state(old(self)@, Instruction::Draw(x, y, n), 0),
            res == step_result(old(self)@, Instruction::Draw(x, y, n)),
    {
        let ghost pre = self@;
        let xi = x.idx();
        let yi = y.idx();
        let x0 = self.v[xi] % (NCOLS as u8);
        let y0 = self.v[yi] % (NROWS as u8);
        let ghost w = copy_written(n as int, pre.i as int);
        self.v.set(0xF, 0);
        let mut collided = false;
        let mut row: usize = 0;
        proof {
            let empty = mem_rows(pre.mem, pre.i as int, 0);
            assert(self@.screen =~= draw_rows(pre.screen, empty, x0 as int, y0 as int));
            assert(!draw_hits(pre.screen, empty, x0 as int, y0 as int)) by {
                if draw_hits(pre.screen, empty, x0 as int, y0 as int) {
                    let (px, py) = choose|px: int, py: int|
                        0 <= px < NCOLS && 0 <= py < NROWS && pre.screen[py * (NCOLS as int) + px]
                            && #[trigger] sprite_covers(empty, x0 as int, y0 as int, px, py);
                    assert(false);
                }
            }
        }
        while row < n as usize
            invariant
                self@.wf(),
                pre.wf(),
                pre == old(self)@,
                x0 < NCOLS,
                y0 < NROWS,
                x0 as int == pre.v[x.idx_spec()] as int % (NCOLS as int),
                y0 as int == pre.v[y.idx_spec()] as int % (NROWS as int),
                row <= n,
                row <= w,
                w == copy_written(n as int, pre.i as int),
                pre.i + row <= u16::MAX,
                self@.i == pre.i,
                self@.pc == pre.pc,
                self@.dt == pre.dt,
                self@.st == pre.st,
                self@.stack == pre.stack,
                self@.mem == pre.mem,
                self@.v == pre.v.update(0xF, if collided {
                    1u8
                } else {
                    0u8
                }),
                self@.screen == draw_rows(
                    pre.screen,
                    mem_rows(pre.mem, pre.i as int, row as int),
                    x0 as int,
                    y0 as int,
                ),
                collided == draw_hits(
                    pre.screen,
                    mem_rows(pre.mem, pre.i as int, row as int),
                    x0 as int,
                    y0 as int,
                ),
            decreases n - row,
        {
            let addr = Address(self.i.0 + row as u16);
            let data = match self.memory.get_byte(addr) {
                Ok(d) => d,
                Err(SegmentationFault(a)) => {
                    proof {
                        assert(row == w);
                        assert(self@ =~= step_state(pre, Instruction::Draw(x, y, n), 0));
                    }
                    return Err(CpuError::SegmentationFault(a));
                },
            };
            let ghost prefix = mem_rows(pre.mem, pre.i as int, row as int);
            let hit = draw_row(&mut self.display, data, x0, y0 as usize + row);
            if hit {
                self.v.set(0xF, 1);
                collided = true;
            }
            proof {
                lemma_draw_snoc(pre.screen, prefix, data, x0 as int, y0 as int);
                assert(mem_rows(pre.mem, pre.i as int, row + 1) =~= prefix.push(data));
                assert(self@.v =~= pre.v.update(0xF, if collided {
                    1u8
                } else {
                    0u8
                }));
            }
            row = row + 1;
        }
        proof {
            assert(w == n);
            assert(self@ =~= step_state(pre, Instruction::Draw(x, y, n), 0));
        }
        Ok(())
    }

    /// Fills registers V0 through Vx from memory starting at the index
    /// register, one byte at a time. An out-of-range address faults there,
    /// leaving the registers filled before it in place.
    fn op_load(&mut self, x: VRegister) -> (res: Result<(), CpuError>)
        requires
            old(self)@.wf(),
        ensures
            final(self)@.wf(),
            final(self)@ == step_state(old(self)@, Instruction::Load(x), 0),
            res == step_result(old(self)@, Instruction::Load(x)),
    {
        let ghost pre = self@;
        let k = x.idx();
        let cnt = k + 1;
        let ghost w = copy_written(cnt as int, pre.i as int);
        let mut r: usize = 0;
        while r < cnt
            invariant
                self@.wf(),
                pre.wf(),
                pre == old(self)@,
                cnt == x.idx_spec() + 1,
                cnt <= NUM_REGISTERS,
                r <= cnt,
                r <= w,
                w == copy_written(cnt as int, pre.i as int),
                pre.i + r <= u16::MAX,
                self@.i == pre.i,
                self@.pc == pre.pc,
                self@.dt == pre.dt,
                self@.st == pre.st,
                self@.stack == pre.stack,
                self@.mem == pre.mem,
                self@.screen == pre.screen,
                self@.v == loaded_regs(pre.v, pre.mem, pre.i as int, r as int),
            decreases cnt - r,
        {
            let addr = Address(self.i.0 + r as u16);
            match self.memory.get_byte(addr) {
                Ok(b) => {
                    self.v.set(r, b);
                    proof {
                        assert(self@.v =~= loaded_regs(pre.v, pre.mem, pre.i as int, r + 1));
                    }
                },
                Err(SegmentationFault(a)) => {
                    proof {
                        assert(r == w);
                        assert(self@ =~= step_state(pre, Instruction::Load(x), 0));
                    }
                    return Err(CpuError::SegmentationFault(a));
                },
            }
            r = r + 1;
        }
        proof {
            assert(w == cnt);
            assert(self@ =~= step_state(pre, Instruction::Load(x), 0));
        }
        Ok(())
    }

    /// Copies registers V0 through Vx to memory starting at the index
    /// register, one byte at a time. An out-of-range address faults there,
    /// leaving the bytes written before it in place.
    fn op_store(&mut self, x: VRegister) -> (res: Result<(), CpuError>)
        requires
            old(self)@.wf(),
        ensures
            final(self)@.wf(),
            final(self)@ == step_state(old(self)@, Instruction::Store(x), 0),
            res == step_result(old(self)@, Instruction::Store(x)),
    {
        let ghost pre = self@;
        let k = x.idx();
        let cnt = k + 1;
        let ghost w = copy_written(cnt as int, pre.i as int);
        let mut r: usize = 0;
        while r < cnt
            invariant
                self@.wf(),
                pre.wf(),
                pre == old(self)@,
                cnt == x.idx_spec() + 1,
                cnt <= NUM_REGISTERS,
                r <= cnt,
                r <= w,
                w == copy_written(cnt as int, pre.i as int),
                pre.i + r <= u16::MAX,
                self@.i == pre.i,
                self@.pc == pre.pc,
                self@.dt == pre.dt,
                self@.st == pre.st,
                self@.stack == pre.stack,
                self@.v == pre.v,
                self@.screen == pre.screen,
                self@.mem == copied_upto(pre.mem, pre.v, pre.i as int, r as int),
            decreases cnt - r,
        {
            let addr = Address(self.i.0 + r as u16);
            let byte = self.v[r];
            match self.memory.set_byte(addr, byte) {
                Ok(_) => {
                    proof {
                        assert(self@.mem =~= copied_upto(pre.mem, pre.v, pre.i as int, r + 1));
                    }
                },
                Err(SegmentationFault(a)) => {
                    proof {
                        assert(r == w);
                        assert(self@ =~= step_state(pre, Instruction::Store(x), 0));
                    }
                    return Err(CpuError::SegmentationFault(a));
                },
            }
            r = r + 1;
        }
        proof {
            assert(w == cnt);
            assert(self@ =~= step_state(pre, Instruction::Store(x), 0));
        }
        Ok(())
    }

    /// Writes the three decimal digits of Vx — hundreds, tens, ones — to
    /// memory at the index register and the two bytes after it. An
    /// out-of-range address faults there, leaving the digits written
    /// before it in place.
    fn op_bcd(&mut self, x: VRegister) -> (res: Result<(), CpuError>)
        requires
            old(self)@.wf(),
        ensures
            final(self)@.wf(),
            final(self)@ == step_state(old(self)@, Instruction::StoreBCD(x), 0),
            res == step_result(old(self)@, Instruction::StoreBCD(x)),
    {
        let ghost pre = self@;
        let ghost digits = bcd_digits(pre.v[x.idx_spec()]);
        let ghost w = copy_written(3, pre.i as int);
        let xi = x.idx();
        let val = self.v[xi];
        match self.memory.set_byte(self.i, val / 100) {
            Ok(_) => {},
            Err(SegmentationFault(a)) => {
                proof {
                    assert(self@.mem =~= copied_upto(pre.mem, digits, pre.i as int, w));
                    assert(self@ =~= step_state(pre, Instruction::StoreBCD(x), 0));
                }
                return Err(CpuError::SegmentationFault(a));
            },
        }
        match self.memory.set_byte(Address(self.i.0 + 1), (val / 10) % 10) {
            Ok(_) => {},
            Err(SegmentationFault(a)) => {
                proof {
                    assert(self@.mem =~= copied_upto(pre.mem, digits, pre.i as int, w));
                    assert(self@ =~= step_state(pre, Instruction::StoreBCD(x), 0));
                }
                return Err(CpuError::SegmentationFault(a));
            },
        }
        match self.memory.set_byte(Address(self.i.0 + 2), val % 10) {
            Ok(_) => {},
            Err(SegmentationFault(a)) => {
                proof {
                    assert(self@.mem =~= copied_upto(pre.mem, digits, pre.i as int, w));
                    assert(self@ =~= step_state(pre, Instruction::StoreBCD(x), 0));
                }
                return Err(CpuError::SegmentationFault(a));
            },
        }
        proof {
            assert(w == 3);
            assert(self@.mem =~= copied_upto(pre.mem, digits, pre.i as int, w));
            assert(self@ =~= step_state(pre, Instruction::StoreBCD(x), 0));
        }
        Ok(())
    }

    /// Applies one control-flow instruction: jumps, calls, returns, skips
    /// and the screen clear.
    #[verifier::rlimit(60)]
    fn op_flow(&mut self, instruction: Instruction) -> (r: Result<(), CpuError>)
        requires
            old(self)@.wf(),
            instruction is Nop || instruction is ClearScreen || instruction is Return
                || instruction is Jump || instruction is Call || instruction is JumpOffset
                || instruction is SkipIfEqualImm || instruction is SkipIfNotEqualImm
                || instruction is SkipIfEqual || instruction is SkipIfNotEqual,
        ensures
            final(self)@.wf(),
            r == step_result(old(self)@, instruction),
            final(self)@ == step_state(old(self)@, instruction, 0),
    {
        match instruction {
            Instruction::Nop => {
                proof {
                    assert(self@ =~= step_state(old(self)@, instruction, 0));
                }
                Ok(())
            },
            Instruction::ClearScreen => {
                self.display.clear();
                proof {
                    assert(self@ =~= step_state(old(self)@, instruction, 0));
                }
                Ok(())
            },
            Instruction::Return => {
                match self.stack.pop() {
                    Some(a) => {
                        self.pc = a;
                        proof {
                            assert(self@ =~= step_state(old(self)@, instruction, 0));
                        }
                        Ok(())
                    },
                    None => {
                        proof {
                            assert(self@ =~= step_state(old(self)@, instruction, 0));
                        }
                        Err(CpuError::StackUnderflow)
                    },
                }
            },
            Instruction::Jump(addr) => {
                if self.pc.0 >= PC_INCREMENT && addr.0 == self.pc.0 - PC_INCREMENT {
                    proof {
                        assert(self@ =~= step_state(old(self)@, instruction, 0));
                    }
                    Err(CpuError::InfiniteLoop)
                } else {
                    self.pc = addr;
                    proof {
                        assert(self@ =~= step_state(old(self)@, instruction, 0));
                    }
                    Ok(())
                }
            },
            Instruction::Call(addr) => {
                if self.stack.len() >= STACK_SIZE {
                    proof {
                        assert(self@ =~= step_state(old(self)@, instruction, 0));
                    }
                    Err(CpuError::StackOverflow)
                } else {
                    self.stack.push(self.pc);
                    self.pc = addr;
                    proof {
                        assert(self@ =~= step_state(old(self)@, instruction, 0));
                    }
                    Ok(())
                }
            },
            Instruction::JumpOffset(addr) => {
                self.pc = Address(addr.0.wrapping_add(self.v[0] as u16));
                proof {
                    assert(self@ =~= step_state(old(self)@, instruction, 0));
                }
                Ok(())
            },
            Instruction::SkipIfEqualImm(x, imm) => {
                let xi = x.idx();
                if self.v[xi] == imm {
                    self.pc = Address(self.pc.0.wrapping_add(PC_INCREMENT));
                }
                proof {
                    assert(self@ =~= step_state(old(self)@, instruction, 0));
                }
                Ok(())
            },
            Instruction::SkipIfNotEqualImm(x, imm) => {
                let xi = x.idx();
                if self.v[xi] != imm {
                    self.pc = Address(self.pc.0.wrapping_add(PC_INCREMENT));
                }
                proof {
                    assert(self@ =~= step_state(old(self)@, instruction, 0));
                }
                Ok(())
            },
            Instruction::SkipIfEqual(x, y) => {
                let xi = x.idx();
                let yi = y.idx();
                if self.v[xi] == self.v[yi] {
                    self.pc = Address(self.pc.0.wrapping_add(PC_INCREMENT));
                }
                proof {
                    assert(self@ =~= step_state(old(self)@, instruction, 0));
                }
                Ok(())
            },
            Instruction::SkipIfNotEqual(x, y) => {
                let xi = x.idx();
                let yi = y.idx();
                if self.v[xi] != self.v[yi] {
                    self.pc = Address(self.pc.0.wrapping_add(PC_INCREMENT));
                }
                proof {
                    assert(self@ =~= step_state(old(self)@, instruction, 0));
                }
                Ok(())
            },
            _ => unreached(),
        }
    }

    /// Applies one register-to-register instruction: moves, bitwise
    /// operations, arithmetic with its carry and borrow flags, and shifts.
    #[verifier::rlimit(60)]
    fn op_alu(&mut self, instruction: Instruction) -> (r: Result<(), CpuError>)
        requires
            old(self)@.wf(),
            instruction is LoadImm || instruction is AddImm || instruction is Move
                || instruction is Or || instruction is And || instruction is Xor
                || instruction is Add || instruction is Subtract || instruction is SubtractN
                || instruction is ShiftRight || instruction is ShiftLeft,
        ensures
            final(self)@.wf(),
            r == step_result(old(self)@, instruction),
            final(self)@ == step_state(old(self)@, instruction, 0),
    {
        match instruction {
            Instruction::LoadImm(x, imm) => {
                let xi = x.idx();
                self.v.set(xi, imm);
                proof {
                    assert(self@ =~= step_state(old(self)@, instruction, 0));
                }
                Ok(())
            },
            Instruction::AddImm(x, imm) => {
                let xi = x.idx();
                let sum = self.v[xi].wrapping_add(imm);
                self.v.set(xi, sum);
                proof {
                    assert(self@ =~= step_state(old(self)@, instruction, 0));
                }
                Ok(())
            },
            Instruction::Move(x, y) => {
                let xi = x.idx();
                let yi = y.idx();
                let b = self.v[yi];
                self.v.set(xi, b);
                proof {
                    assert(self@ =~= step_state(old(self)@, instruction, 0));
                }
                Ok(())
            },
            Instruction::Or(x, y) => {
                let xi = x.idx();
                let yi = y.idx();
                let b = self.v[xi] | self.v[yi];
                self.v.set(xi, b);
                proof {
                    assert(self@ =~= step_state(old(self)@, instruction, 0));
                }
                Ok(())
            },
            Instruction::And(x, y) => {
                let xi = x.idx();
                let yi = y.idx();
                let b = self.v[xi] & self.v[yi];
                self.v.set(xi, b);
                proof {
                    assert(self@ =~= step_state(old(self)@, instruction, 0));
                }
                Ok(())
            },
            Instruction::Xor(x, y) => {
                let xi = x.idx();
                let yi = y.idx();
                let b = self.v[xi] ^ self.v[yi];
                self.v.set(xi, b);
                proof {
                    assert(self@ =~= step_state(old(self)@, instruction, 0));
                }
                Ok(())
            },
            Instruction::Add(x, y) => {
                let xi = x.idx();
                let yi = y.idx();
                let a = self.v[xi];
                let b = self.v[yi];
                let sum = a.wrapping_add(b);
                let carry: u8 = if (a as u16) + (b as u16) > 0xFF {
                    1
                } else {
                    0
                };
                self.v.set(xi, sum);
                self.v.set(0xF, carry);
                proof {
                    assert(self@ =~= step_state(old(self)@, instruction, 0));
                }
                Ok(())
            },
            Instruction::Subtract(x, y) => {
                let xi = x.idx();
                let yi = y.idx();
                let a = self.v[xi];
                let b = self.v[yi];
                let no_borrow: u8 = if a >= b {
                    1
                } else {
                    0
                };
                let diff = a.wrapping_sub(b);
                self.v.set(0xF, no_borrow);
                self.v.set(xi, diff);
                proof {
                    assert(self@ =~= step_state(old(self)@, instruction, 0));
                }
                Ok(())
            },
            Instruction::SubtractN(x, y) => {
                let xi = x.idx();
                let yi = y.idx();
                let a = self.v[xi];
                let b = self.v[yi];
                let no_borrow: u8 = if b >= a {
                    1
                } else {
                    0
                };
                let diff = b.wrapping_sub(a);
                self.v.set(0xF, no_borrow);
                self.v.set(xi, diff);
                proof {
                    assert(self@ =~= step_state(old(self)@, instruction, 0));
                }
                Ok(())
            },
            Instruction::ShiftRight(x) => {
                let xi = x.idx();
                let lsb = self.v[xi] % 2;
                self.v.set(0xF, lsb);
                let cur = self.v[xi];
                self.v.set(xi, cur / 2);
                proof {
                    assert(self@ =~= step_state(old(self)@, instruction, 0));
                }
                Ok(())
            },
            Instruction::ShiftLeft(x) => {
                let xi = x.idx();
                let msb = self.v[xi] / 0x80;
                self.v.set(0xF, msb);
                let cur = self.v[xi];
                self.v.set(xi, cur.wrapping_add(cur));
                proof {
                    assert(self@ =~= step_state(old(self)@, instruction, 0));
                }
                Ok(())
            },
            _ => unreached(),
        }
    }

    /// Applies one instruction on the index register or a timer register.
    #[verifier::rlimit(60)]
    fn op_index(&mut self, instruction: Instruction) -> (r: Result<(), CpuError>)
        requires
            old(self)@.wf(),
            instruction is LoadI || instruction is LoadDT || instruction is StoreDT
                || instruction is AddI || instruction is LoadSprite,
        ensures
            final(self)@.wf(),
            r == step_result(old(self)@, instruction),
            final(self)@ == step_state(old(self)@, instruction, 0),
    {
        match instruction {
            Instruction::LoadI(addr) => {
                self.i = addr;
                proof {
                    assert(self@ =~= step_state(old(self)@, instruction, 0));
                }
                Ok(())
            },
            Instruction::LoadDT(x) => {
                let xi = x.idx();
                let dt = self.dt;
                self.v.set(xi, dt);
                proof {
                    assert(self@ =~= step_state(old(self)@, instruction, 0));
                }
                Ok(())
            },
            Instruction::StoreDT(x) => {
                let xi = x.idx();
                self.dt = self.v[xi];
                proof {
                    assert(self@ =~= step_state(old(self)@, instruction, 0));
                }
                Ok(())
            },
            Instruction::AddI(x) => {
                let xi = x.idx();
                self.i = Address(self.i.0.wrapping_add(self.v[xi] as u16));
                proof {
                    assert(self@ =~= step_state(old(self)@, instruction, 0));
                }
                Ok(())
            },
            Instruction::LoadSprite(x) => {
                let xi = x.idx();
                self.i = Address(((self.v[xi] & 0xF) as u16) * 5);
                proof {
                    assert(self@ =~= step_state(old(self)@, instruction, 0));
                }
                Ok(())
            },
            _ => unreached(),
        }
    }

    /// Applies `RND Vx, byte`: Vx becomes the immediate masked with a byte
    /// from the random source.
    fn op_random(&mut self, x: VRegister, imm: u8) -> (r: Result<(), CpuError>)
        requires
            old(self)@.wf(),
        ensures
            final(self)@.wf(),
            r == step_result(old(self)@, Instruction::AndRandom(x, imm)),
            exists|rnd: u8| final(self)@ == step_state(old(self)@, Instruction::AndRandom(x, imm), rnd),
    {
        let xi = x.idx();
        let rb = random_byte();
        self.v.set(xi, imm & rb);
        proof {
            assert(self@ =~= step_state(old(self)@, Instruction::AndRandom(x, imm), rb));
        }
        Ok(())
    }

    /// Applies one decoded instruction to the machine state: the next
    /// state is `step_state` of the old one, and success or the fatal
    /// error is `step_result`. Only `AndRandom` consults the random
    /// source, so for every other instruction the new state is pinned
    /// down exactly; for `AndRandom` it is `step_state` for some byte the
    /// source supplied.
    pub fn execute(&mut self, instruction: Instruction) -> (r: Result<(), CpuError>)
        requires
            old(self)@.wf(),
        ensures
            final(self)@.wf(),
            r == step_result(old(self)@, instruction),
            !(instruction is AndRandom) ==> final(self)@ == step_state(old(self)@, instruction, 0),
            exists|rnd: u8| final(self)@ == step_state(old(self)@, instruction, rnd),
    {
        match instruction {
            Instruction::Nop
            | Instruction::ClearScreen
            | Instruction::Return
            | Instruction::Jump(_)
            | Instruction::Call(_)
            | Instruction::JumpOffset(_)
            | Instruction::SkipIfEqualImm(_, _)
            | Instruction::SkipIfNotEqualImm(_, _)
            | Instruction::SkipIfEqual(_, _)
            | Instruction::SkipIfNotEqual(_, _) => self.op_flow(instruction),
            Instruction::LoadImm(_, _)
            | Instruction::AddImm(_, _)
            | Instruction::Move(_, _)
            | Instruction::Or(_, _)
            | Instruction::And(_, _)
            | Instruction::Xor(_, _)
            | Instruction::Add(_, _)
            | Instruction::Subtract(_, _)
            | Instruction::SubtractN(_, _)
            | Instruction::ShiftRight(_)
            | Instruction::ShiftLeft(_) => self.op_alu(instruction),
            Instruction::LoadI(_)
            | Instruction::LoadDT(_)
            | Instruction::StoreDT(_)
            | Instruction::AddI(_)
            | Instruction::LoadSprite(_) => self.op_index(instruction),
            Instruction::AndRandom(x, imm) => self.op_random(x, imm),
            Instruction::Load(x) => self.op_load(x),
            Instruction::Store(x) => self.op_store(x),
            Instruction::StoreBCD(x) => self.op_bcd(x),
            Instruction::Draw(x, y, n) => self.op_draw(x, y, n),
        }
    }
}

/// Law: `Add(Vx, Vy)` stores the modulo-256 sum of the two registers in
/// Vx and sets VF to 1 exactly when the true sum reaches 256. Vx must not
/// be VF itself: the flag write lands on the same register then, by
/// CHIP-8's own aliasing, and overwrites the sum.
pub proof fn lemma_add_law(pre: CpuView, x: VRegister, y: VRegister, rnd: u8)
    requires
        pre.wf(),
        x.idx_spec() != 0xF,
    ensures
        ({
            let a = pre.v[x.idx_spec()];
            let b = pre.v[y.idx_spec()];
            let post = step_state(pre, Instruction::Add(x, y), rnd);
            &&& post.v[x.idx_spec()] == (a + b) % 0x100
            &&& post.v[0xF] == (if a + b >= 0x100 {
                1u8
            } else {
                0u8
            })
            &&& step_result(pre, Instruction::Add(x, y)) == Ok::<(), CpuError>(())
        }),
{
    let a = pre.v[x.idx_spec()];
    let b = pre.v[y.idx_spec()];
    if a + b > 0xFF {
        assert((a + b) % 0x100 == a + b - 0x100);
    } else {
        assert((a + b) % 0x100 == a + b);
    }
}

/// Law: `Subtract(Vx, Vy)` stores the modulo-256 difference Vx - Vy in Vx
/// and sets VF to 1 exactly when no borrow occurs, that is when Vx >= Vy.
/// Vx must not be VF itself: the difference lands on the flag then.
pub proof fn lemma_subtract_law(pre: CpuView, x: VRegister, y: VRegister, rnd: u8)
    requires
        pre.wf(),
        x.idx_spec() != 0xF,
    ensures
        ({
            let a = pre.v[x.idx_spec()];
            let b = pre.v[y.idx_spec()];
            let post = step_state(pre, Instruction::Subtract(x, y), rnd);
            &&& post.v[x.idx_spec()] == (a - b) % 0x100
            &&& post.v[0xF] == (if a >= b {
                1u8
            } else {
                0u8
            })
            &&& step_result(pre, Instruction::Subtract(x, y)) == Ok::<(), CpuError>(())
        }),
{
    let a = pre.v[x.idx_spec()];
    let b = pre.v[y.idx_spec()];
    if a >= b {
        assert((a - b) % 0x100 == a - b);
    } else {
        assert((a - b) % 0x100 == a - b + 0x100);
    }
}

/// Law: `ShiftRight(Vx)` halves Vx and VF captures exactly the bit
/// shifted out, the least-significant one. Vx must not be VF itself:
/// the flag write lands on the operand then and is halved with it.
pub proof fn lemma_shift_right_law(pre: CpuView, x: VRegister, rnd: u8)
    requires
        pre.wf(),
        x.idx_spec() != 0xF,
    ensures
        ({
            let a = pre.v[x.idx_spec()];
            let post = step_state(pre, Instruction::ShiftRight(x), rnd);
            &&& post.v[x.idx_spec()] == a / 2
            &&& post.v[0xF] == a % 2
            &&& step_result(pre, Instruction::ShiftRight(x)) == Ok::<(), CpuError>(())
        }),
{
}

/// Law: `ShiftLeft(Vx)` doubles Vx modulo 256 and VF captures exactly the
/// bit shifted out, the most-significant one. Vx must not be VF itself:
/// the flag write lands on the operand then and is doubled with it.
pub proof fn lemma_shift_left_law(pre: CpuView, x: VRegister, rnd: u8)
    requires
        pre.wf(),
        x.idx_spec() != 0xF,
    ensures
        ({
            let a = pre.v[x.idx_spec()];
            let post = step_state(pre, Instruction::ShiftLeft(x), rnd);
            &&& post.v[x.idx_spec()] == (a * 2) % 0x100
            &&& post.v[0xF] == a / 0x80
            &&& step_result(pre, Instruction::ShiftLeft(x)) == Ok::<(), CpuError>(())
        }),
{
    let a = pre.v[x.idx_spec()];
    if a + a > 0xFF {
        assert((a * 2) % 0x100 == a + a - 0x100);
    } else {
        assert((a * 2) % 0x100 == a + a);
    }
}

/// Law: XOR-drawing the same sprite twice at the same position restores
/// every pixel, and the second draw collides exactly when the first one
/// lit some pixel that was dark before — every pixel the first draw
/// turned on, the second turns off again.
pub proof fn lemma_draw_twice(s: Seq<bool>, rows: Seq<u8>, x0: int, y0: int)
    requires
        s.len() == NROWS * NCOLS,
    ensures
        draw_rows(draw_rows(s, rows, x0, y0), rows, x0, y0) =~= s,
        draw_hits(draw_rows(s, rows, x0, y0), rows, x0, y0) <==> exists|px: int, py: int|
            0 <= px < NCOLS && 0 <= py < NROWS && !s[py * (NCOLS as int) + px]
                && #[trigger] sprite_covers(rows, x0, y0, px, py),
{
    let drawn = draw_rows(s, rows, x0, y0);
    if draw_hits(drawn, rows, x0, y0) {
        let (px, py) = choose|px: int, py: int|
            0 <= px < NCOLS && 0 <= py < NROWS && drawn[py * (NCOLS as int) + px]
                && #[trigger] sprite_covers(rows, x0, y0, px, py);
        lemma_pixel_index(px, py);
        assert(!s[py * (NCOLS as int) + px]);
    }
    if exists|px: int, py: int|
        0 <= px < NCOLS && 0 <= py < NROWS && !s[py * (NCOLS as int) + px]
            && #[trigger] sprite_covers(rows, x0, y0, px, py) {
        let (px, py) = choose|px: int, py: int|
            0 <= px < NCOLS && 0 <= py < NROWS && !s[py * (NCOLS as int) + px]
                && #[trigger] sprite_covers(rows, x0, y0, px, py);
        lemma_pixel_index(px, py);
        assert(drawn[py * (NCOLS as int) + px]);
        assert(draw_hits(drawn, rows, x0, y0));
    }
}

/// Law: executing the same `Draw` twice in a row brings the screen back
/// to where it started, and the second draw sets VF to 1 exactly when
/// the first draw turned some dark pixel on. The coordinate registers
/// must not be VF, whose value the first draw replaces with its flag.
pub proof fn lemma_draw_twice_step(pre: CpuView, x: VRegister, y: VRegister, n: u8, rnd: u8)
    requires
        pre.wf(),
        x.idx_spec() != 0xF,
        y.idx_spec() != 0xF,
    ensures
        ({
            let instr = Instruction::Draw(x, y, n);
            let once = step_state(pre, instr, rnd);
            let twice = step_state(once, instr, rnd);
            let x0 = pre.v[x.idx_spec()] as int % (NCOLS as int);
            let y0 = pre.v[y.idx_spec()] as int % (NROWS as int);
            let rows = mem_rows(pre.mem, pre.i as int, copy_written(n as int, pre.i as int));
            &&& twice.screen =~= pre.screen
            &&& (twice.v[0xF] == 1 <==> exists|px: int, py: int|
                0 <= px < NCOLS && 0 <= py < NROWS && !pre.screen[py * (NCOLS as int) + px]
                    && #[trigger] sprite_covers(rows, x0, y0, px, py))
        }),
{
    let instr = Instruction::Draw(x, y, n);
    let once = step_state(pre, instr, rnd);
    let x0 = pre.v[x.idx_spec()] as int % (NCOLS as int);
    let y0 = pre.v[y.idx_spec()] as int % (NROWS as int);
    let w = copy_written(n as int, pre.i as int);
    let rows = mem_rows(pre.mem, pre.i as int, w);
    assert(once.v[x.idx_spec()] == pre.v[x.idx_spec()]);
    assert(once.v[y.idx_spec()] == pre.v[y.idx_spec()]);
    assert(mem_rows(once.mem, once.i as int, copy_written(n as int, once.i as int)) =~= rows);
    lemma_draw_twice(pre.screen, rows, x0, y0);
}

/// Law: `Call` pushes the program counter that a following `Return` pops
/// straight back — last in, first out — and neither touches any other
/// machine state. The call needs a free stack slot.
pub proof fn lemma_call_return(pre: CpuView, addr: Address, rnd1: u8, rnd2: u8)
    requires
        pre.wf(),
        pre.stack.len() < STACK_SIZE,
    ensures
        ({
            let called = step_state(pre, Instruction::Call(addr), rnd1);
            let returned = step_state(called, Instruction::Return, rnd2);
            &&& step_result(pre, Instruction::Call(addr)) == Ok::<(), CpuError>(())
            &&& called.pc == addr.0
            &&& called.stack == pre.stack.push(Address(pre.pc))
            &&& step_result(called, Instruction::Return) == Ok::<(), CpuError>(())
            &&& returned =~= pre
        }),
{
    let called = step_state(pre, Instruction::Call(addr), rnd1);
    let returned = step_state(called, Instruction::Return, rnd2);
    assert(called.stack.last() == Address(pre.pc));
    assert(returned.stack =~= pre.stack);
}

/// Law: a seventeenth nested `Call` fails with `StackOverflow` and leaves
/// the machine untouched.
pub proof fn lemma_stack_overflow(pre: CpuView, addr: Address, rnd: u8)
    requires
        pre.stack.len() >= STACK_SIZE,
    ensures
        step_result(pre, Instruction::Call(addr)) == Err::<(), CpuError>(CpuError::StackOverflow),
        step_state(pre, Instruction::Call(addr), rnd) == pre,
{
}

/// A vector of `n` zero bytes.
fn make_zero_bytes(n: usize) -> (r: Vec<u8>)
    ensures
        r@ == Seq::new(n as nat, |j: int| 0u8),
{
    let mut v: Vec<u8> = Vec::new();
    let mut k: usize = 0;
    while k < n
        invariant
            k <= n,
            v@.len() == k,
            forall|j: int| 0 <= j < k ==> v@[j] == 0u8,
        decreases n - k,
    {
        v.push(0);
        k = k + 1;
    }
    proof {
        assert(v@ =~= Seq::new(n as nat, |j: int| 0u8));
    }
    v
}

} // verus!
