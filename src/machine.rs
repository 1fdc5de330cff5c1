//! The abstract machine state and the meaning of each instruction over it.
use vstd::prelude::*;

use crate::isa::{decode, Op};

verus! {

pub const RAM_MAX: usize = 4096;
pub const REG_MAX: usize = 16;
pub const STACK_MAX: usize = 16;
pub const KEYPAD_MAX: usize = 16;

pub const VIDEO_WIDTH: usize = 64;
pub const VIDEO_HEIGHT: usize = 32;
pub const VIDEO_MAX: usize = 2048;

/// Where the font glyphs sit in RAM.
pub const ADDR_FONT: u16 = 0x050;
/// Where programs are loaded and execution starts.
pub const ADDR_START: u16 = 0x200;

/// Bytes per font glyph.
pub const FONTSET_SIZE: u16 = 5;
pub const FONTSET_MAX: usize = 80;

/// The register that arithmetic, shifts and drawing use for their flag.
pub const FLAG_REG: u8 = 15;

/// Why an instruction, a step or a load could not be carried out.
#[derive(Debug, Clone, Copy, PartialEq, Eq, Structural)]
pub enum Fault {
    /// A RAM address outside `0..RAM_MAX`.
    RamOutOfRange,
    /// A sprite pixel that lands outside the framebuffer.
    VideoOutOfRange,
    /// A key index outside `0..KEYPAD_MAX`.
    KeyOutOfRange,
    /// A call with all stack slots in use.
    StackOverflow,
    /// A return with an empty stack.
    StackUnderflow,
    /// Adding to the index register went past 16 bits.
    IndexOverflow,
    /// A program that does not fit between `ADDR_START` and the end of RAM.
    ProgramTooLarge,
}

/// What a step did that a front-end may want to react to.
#[derive(Debug, Clone, Copy, PartialEq, Eq, Structural)]
pub enum Effect {
    Nothing,
    /// The framebuffer was written (cleared or drawn on).
    Redraw,
    /// The word fetched encodes no instruction; it was skipped.
    Unknown { data: u16 },
}

/// The abstract state of a machine.
pub struct Machine {
    pub ram: Seq<u8>,
    pub reg: Seq<u8>,
    pub stack: Seq<u16>,
    pub video: Seq<bool>,
    pub keypad: Seq<bool>,
    pub pc: u16,
    pub sp: u8,
    pub index: u16,
    pub dt: u8,
    pub st: u8,
}

/// The glyphs of the hexadecimal digits 0 to F, five bytes each.
pub open spec fn font() -> Seq<u8> {
    seq![
        0xF0u8, 0x90, 0x90, 0x90, 0xF0, 0x20, 0x60, 0x20, 0x20, 0x70,
        0xF0, 0x10, 0xF0, 0x80, 0xF0, 0xF0, 0x10, 0xF0, 0x10, 0xF0,
        0x90, 0x90, 0xF0, 0x10, 0x10, 0xF0, 0x80, 0xF0, 0x10, 0xF0,
        0xF0, 0x80, 0xF0, 0x90, 0xF0, 0xF0, 0x10, 0x20, 0x40, 0x40,
        0xF0, 0x90, 0xF0, 0x90, 0xF0, 0xF0, 0x90, 0xF0, 0x10, 0xF0,
        0xF0, 0x90, 0xF0, 0x90, 0x90, 0xE0, 0x90, 0xE0, 0x90, 0xE0,
        0xF0, 0x80, 0x80, 0x80, 0xF0, 0xE0, 0x90, 0x90, 0x90, 0xE0,
        0xF0, 0x80, 0xF0, 0x80, 0xF0, 0xF0, 0x80, 0xF0, 0x80, 0x80,
    ]
}

/// The machine as constructed: every cell, register and counter zero.
pub open spec fn zeroed() -> Machine {
    Machine {
        ram: Seq::new(RAM_MAX as nat, |i: int| 0u8),
        reg: Seq::new(REG_MAX as nat, |i: int| 0u8),
        stack: Seq::new(STACK_MAX as nat, |i: int| 0u16),
        video: Seq::new(VIDEO_MAX as nat, |i: int| false),
        keypad: Seq::new(KEYPAD_MAX as nat, |i: int| false),
        pc: 0,
        sp: 0,
        index: 0,
        dt: 0,
        st: 0,
    }
}

/// RAM after a reset: the font at `ADDR_FONT`, zero elsewhere.
pub open spec fn reset_ram() -> Seq<u8> {
    Seq::new(
        RAM_MAX as nat,
        |i: int|
            if ADDR_FONT <= i < ADDR_FONT + FONTSET_MAX {
                font()[i - ADDR_FONT]
            } else {
                0u8
            },
    )
}

/// The machine after a reset: font loaded, execution at `ADDR_START`, the
/// keys as the input layer left them (`keypad`), everything else cleared.
pub open spec fn reset_state(keypad: Seq<bool>) -> Machine {
    Machine { ram: reset_ram(), pc: ADDR_START, keypad, ..zeroed() }
}

/// `ram` with `program` written from `ADDR_START` on.
pub open spec fn with_program(ram: Seq<u8>, program: Seq<u8>) -> Seq<u8> {
    Seq::new(
        ram.len(),
        |i: int|
            if ADDR_START <= i < ADDR_START + program.len() {
                program[i - ADDR_START]
            } else {
                ram[i]
            },
    )
}

/// Whether `program` fits between `ADDR_START` and the end of RAM.
pub open spec fn program_fits(program: Seq<u8>) -> bool {
    program.len() <= RAM_MAX - ADDR_START
}

impl Machine {
    /// The sizes of the memories and a stack pointer within the stack.
    pub open spec fn wf(self) -> bool {
        &&& self.ram.len() == RAM_MAX
        &&& self.reg.len() == REG_MAX
        &&& self.stack.len() == STACK_MAX
        &&& self.video.len() == VIDEO_MAX
        &&& self.keypad.len() == KEYPAD_MAX
        &&& self.sp <= STACK_MAX
    }

    /// Register `r`.
    pub open spec fn v(self, r: u8) -> u8 {
        self.reg[r as int]
    }

    pub open spec fn set_v(self, r: u8, x: u8) -> Machine {
        Machine { reg: self.reg.update(r as int, x), ..self }
    }

    pub open spec fn with_pc(self, pc: int) -> Machine {
        Machine { pc: pc as u16, ..self }
    }

    /// Skips the next instruction when `cond` holds.
    pub open spec fn skip_if(self, cond: bool) -> Machine {
        if cond {
            self.with_pc(self.pc + 2)
        } else {
            self
        }
    }
}

/// Whether key `i` is pressed and no key below it is.
pub open spec fn is_lowest_pressed(keys: Seq<bool>, i: int) -> bool {
    &&& 0 <= i < keys.len()
    &&& keys[i]
    &&& forall|j: int| 0 <= j < i ==> !keys[j]
}

pub open spec fn any_pressed(keys: Seq<bool>) -> bool {
    exists|i: int| 0 <= i < keys.len() && keys[i]
}

/// The lowest pressed key (meaningful when some key is pressed).
pub open spec fn lowest_pressed(keys: Seq<bool>) -> int {
    choose|i: int| is_lowest_pressed(keys, i)
}

/// Bit `col` (counted from the most significant) of sprite row `row`, read
/// from RAM at the index register.
pub open spec fn sprite_pixel(m: Machine, row: int, col: int) -> bool {
    m.ram[m.index + row] & (0x80u8 >> (col as u8)) != 0
}

/// The framebuffer cell that sprite pixel `(row, col)` lands on when the
/// sprite is drawn at `(x, y)`; it is not wrapped at the screen's edges.
pub open spec fn pixel_index(x: int, y: int, row: int, col: int) -> int {
    (y + row) * VIDEO_WIDTH + x + col
}

/// Sprite pixel `(row, col)` is within a sprite of `size` rows and set.
pub open spec fn draws_at(m: Machine, size: int, row: int, col: int) -> bool {
    &&& 0 <= row < size
    &&& 0 <= col < 8
    &&& sprite_pixel(m, row, col)
}

/// Every set pixel of the sprite lands inside the framebuffer.
pub open spec fn sprite_fits(m: Machine, x: int, y: int, size: int) -> bool {
    forall|row: int, col: int|
        #[trigger] draws_at(m, size, row, col) ==> pixel_index(x, y, row, col) < VIDEO_MAX
}

/// Cell `i` is under a set pixel of the sprite.
pub open spec fn covered(m: Machine, x: int, y: int, size: int, i: int) -> bool {
    exists|row: int, col: int| #[trigger]
        draws_at(m, size, row, col) && pixel_index(x, y, row, col) == i
}

/// Some set pixel of the sprite lands on a lit cell.
pub open spec fn collides(m: Machine, x: int, y: int, size: int) -> bool {
    exists|row: int, col: int| #[trigger]
        draws_at(m, size, row, col) && m.video[pixel_index(x, y, row, col)]
}

/// Drawing a sprite of `size` rows from RAM at the index register, at the
/// coordinates held in `reg1` and `reg2` taken modulo the screen size. Each
/// set sprite pixel flips its cell; the flag register tells whether a lit
/// cell went dark.
pub open spec fn draw(m: Machine, reg1: u8, reg2: u8, size: u8) -> Result<(Machine, Effect), Fault> {
    let x = m.v(reg1) as int % VIDEO_WIDTH as int;
    let y = m.v(reg2) as int % VIDEO_HEIGHT as int;
    if m.index + size > m.ram.len() {
        Err(Fault::RamOutOfRange)
    } else if !sprite_fits(m, x, y, size as int) {
        Err(Fault::VideoOutOfRange)
    } else {
        let video = Seq::new(m.video.len(), |i: int| m.video[i] != covered(m, x, y, size as int, i));
        let flag: u8 = if collides(m, x, y, size as int) { 1 } else { 0 };
        Ok((Machine { video, ..m }.set_v(FLAG_REG, flag), Effect::Redraw))
    }
}

/// What executing `op` does to `m`, `rnd` being the random byte that `RND`
/// draws. Conditional skips move the program counter by 2 more; the
/// program counter has already moved past `op`.
pub open spec fn next_state(m: Machine, op: Op, rnd: u8) -> Result<(Machine, Effect), Fault> {
    let done = |n: Machine| Ok::<(Machine, Effect), Fault>((n, Effect::Nothing));
    match op {
        Op::CLS => Ok((
            Machine { video: Seq::new(m.video.len(), |i: int| false), ..m },
            Effect::Redraw,
        )),
        Op::RET => if m.sp == 0 {
            Err(Fault::StackUnderflow)
        } else {
            done(Machine { sp: (m.sp - 1) as u8, pc: m.stack[m.sp - 1], ..m })
        },
        Op::JP { addr } => done(m.with_pc(addr as int)),
        Op::CALL { addr } => if m.sp >= STACK_MAX {
            Err(Fault::StackOverflow)
        } else {
            done(
                Machine {
                    stack: m.stack.update(m.sp as int, m.pc),
                    sp: (m.sp + 1) as u8,
                    pc: addr,
                    ..m
                },
            )
        },
        Op::SEI { reg, value } => done(m.skip_if(m.v(reg) == value)),
        Op::SNEI { reg, value } => done(m.skip_if(m.v(reg) != value)),
        Op::SE { reg1, reg2 } => done(m.skip_if(m.v(reg1) == m.v(reg2))),
        Op::LDI { reg, value } => done(m.set_v(reg, value)),
        Op::ADDI { reg, value } => done(m.set_v(reg, ((m.v(reg) + value) % 256) as u8)),
        Op::LD { reg1, reg2 } => done(m.set_v(reg1, m.v(reg2))),
        Op::OR { reg1, reg2 } => done(m.set_v(reg1, m.v(reg1) | m.v(reg2))),
        Op::AND { reg1, reg2 } => done(m.set_v(reg1, m.v(reg1) & m.v(reg2))),
        Op::XOR { reg1, reg2 } => done(m.set_v(reg1, m.v(reg1) ^ m.v(reg2))),
        Op::ADD { reg1, reg2 } => {
            let sum = m.v(reg1) + m.v(reg2);
            done(m.set_v(reg1, (sum % 256) as u8).set_v(FLAG_REG, if sum > 255 { 1 } else { 0 }))
        },
        Op::SUB { reg1, reg2 } => {
            let (a, b) = (m.v(reg1), m.v(reg2));
            done(m.set_v(reg1, ((a - b + 256) % 256) as u8).set_v(FLAG_REG, if a >= b { 1 } else { 0 }))
        },
        Op::SHR { reg1, .. } => {
            let a = m.v(reg1);
            done(m.set_v(reg1, a / 2).set_v(FLAG_REG, a % 2))
        },
        Op::SUBN { reg1, reg2 } => {
            let (a, b) = (m.v(reg1), m.v(reg2));
            done(m.set_v(reg1, ((b - a + 256) % 256) as u8).set_v(FLAG_REG, if b >= a { 1 } else { 0 }))
        },
        Op::SHL { reg1, .. } => {
            let a = m.v(reg1);
            done(m.set_v(reg1, ((a * 2) % 256) as u8).set_v(FLAG_REG, a / 128))
        },
        Op::SNE { reg1, reg2 } => done(m.skip_if(m.v(reg1) != m.v(reg2))),
        Op::LDIX { addr } => done(Machine { index: addr, ..m }),
        Op::JPA { addr } => done(m.with_pc(addr + m.v(0))),
        Op::RND { reg, value } => done(m.set_v(reg, rnd & value)),
        Op::DRW { reg1, reg2, size } => draw(m, reg1, reg2, size),
        Op::SKP { reg } => if m.v(reg) >= KEYPAD_MAX {
            Err(Fault::KeyOutOfRange)
        } else {
            done(m.skip_if(m.keypad[m.v(reg) as int]))
        },
        Op::SKNP { reg } => if m.v(reg) >= KEYPAD_MAX {
            Err(Fault::KeyOutOfRange)
        } else {
            done(m.skip_if(!m.keypad[m.v(reg) as int]))
        },
        Op::LDRD { reg } => done(m.set_v(reg, m.dt)),
        Op::LDK { reg } => if any_pressed(m.keypad) {
            done(m.set_v(reg, lowest_pressed(m.keypad) as u8))
        } else {
            done(m.with_pc(m.pc - 2))
        },
        Op::LDDR { reg } => done(Machine { dt: m.v(reg), ..m }),
        Op::LDST { reg } => done(Machine { st: m.v(reg), ..m }),
        Op::ADIX { reg } => if m.index + m.v(reg) > 0xFFFF {
            Err(Fault::IndexOverflow)
        } else {
            done(Machine { index: (m.index + m.v(reg)) as u16, ..m })
        },
        Op::LDF { reg } => done(Machine { index: (ADDR_FONT + FONTSET_SIZE * m.v(reg)) as u16, ..m }),
        Op::LDB { reg } => if m.index + 2 >= m.ram.len() {
            Err(Fault::RamOutOfRange)
        } else {
            let (v, i) = (m.v(reg), m.index as int);
            done(
                Machine {
                    ram: m.ram.update(i, v / 100).update(i + 1, v % 100 / 10).update(i + 2, v % 10),
                    ..m
                },
            )
        },
        Op::LDXR { reg } => if m.index + reg >= m.ram.len() {
            Err(Fault::RamOutOfRange)
        } else {
            done(
                Machine {
                    ram: Seq::new(
                        m.ram.len(),
                        |a: int|
                            if m.index <= a <= m.index + reg {
                                m.reg[a - m.index]
                            } else {
                                m.ram[a]
                            },
                    ),
                    ..m
                },
            )
        },
        Op::LDRX { reg } => if m.index + reg >= m.ram.len() {
            Err(Fault::RamOutOfRange)
        } else {
            done(
                Machine {
                    reg: Seq::new(
                        m.reg.len(),
                        |r: int|
                            if r <= reg {
                                m.ram[m.index + r]
                            } else {
                                m.reg[r]
                            },
                    ),
                    ..m
                },
            )
        },
        Op::DATA { data } => Ok((m, Effect::Unknown { data })),
    }
}

/// The big-endian instruction word at the program counter.
pub open spec fn fetch_word(m: Machine) -> u16 {
    (m.ram[m.pc as int] * 256 + m.ram[m.pc + 1]) as u16
}

/// Both timers count down by one, stopping at zero.
pub open spec fn tick(m: Machine) -> Machine {
    Machine {
        dt: if m.dt > 0 { (m.dt - 1) as u8 } else { 0 },
        st: if m.st > 0 { (m.st - 1) as u8 } else { 0 },
        ..m
    }
}

/// One machine cycle: fetch the word at the program counter, move past it,
/// execute it, then tick the timers.
pub open spec fn cycle_state(m: Machine, rnd: u8) -> Result<(Machine, Effect), Fault> {
    if m.pc + 1 >= m.ram.len() {
        Err(Fault::RamOutOfRange)
    } else {
        match next_state(m.with_pc(m.pc + 2), decode(fetch_word(m)), rnd) {
            Ok((n, e)) => Ok((tick(n), e)),
            Err(f) => Err(f),
        }
    }
}

/// `r` and `after` are what running a step whose meaning is `expected`
/// gives from `before`: on a fault the state is left as it was.
pub open spec fn outcome(
    expected: Result<(Machine, Effect), Fault>,
    r: Result<Effect, Fault>,
    before: Machine,
    after: Machine,
) -> bool {
    match expected {
        Ok((m, e)) => r == Ok::<Effect, Fault>(e) && after == m,
        Err(f) => r == Err::<Effect, Fault>(f) && after == before,
    }
}

/// Drawing one sprite twice at the same place puts the framebuffer back as
/// it was. The second drawing sets the flag register exactly when some set
/// pixel of the sprite fell on a cell that was dark before the first; on a
/// blank screen, whenever the sprite has a set pixel.
pub proof fn lemma_draw_twice(m: Machine, reg1: u8, reg2: u8, size: u8)
    requires
        m.wf(),
        reg1 < FLAG_REG,
        reg2 < FLAG_REG,
    ensures
        match draw(m, reg1, reg2, size) {
            Ok((once, _)) => match draw(once, reg1, reg2, size) {
                Ok((twice, _)) => {
                    let x = m.v(reg1) as int % VIDEO_WIDTH as int;
                    let y = m.v(reg2) as int % VIDEO_HEIGHT as int;
                    &&& twice.video == m.video
                    &&& twice.v(FLAG_REG) == if exists|row: int, col: int| #[trigger]
                        draws_at(m, size as int, row, col) && !m.video[pixel_index(x, y, row, col)] {
                        1u8
                    } else {
                        0u8
                    }
                },
                Err(_) => false,
            },
            Err(_) => true,
        },
{
    let x = m.v(reg1) as int % VIDEO_WIDTH as int;
    let y = m.v(reg2) as int % VIDEO_HEIGHT as int;
    let n = size as int;
    if let Ok((once, _)) = draw(m, reg1, reg2, size) {
        assert(once.v(reg1) == m.v(reg1) && once.v(reg2) == m.v(reg2));
        assert forall|row: int, col: int|
            #[trigger] draws_at(once, n, row, col) == draws_at(m, n, row, col) by {}
        assert forall|i: int| #[trigger] covered(once, x, y, n, i) == covered(m, x, y, n, i) by {
            if covered(once, x, y, n, i) {
                let (r, c) = choose|r: int, c: int| #[trigger]
                    draws_at(once, n, r, c) && pixel_index(x, y, r, c) == i;
                assert(draws_at(m, n, r, c));
            }
            if covered(m, x, y, n, i) {
                let (r, c) = choose|r: int, c: int| #[trigger]
                    draws_at(m, n, r, c) && pixel_index(x, y, r, c) == i;
                assert(draws_at(once, n, r, c));
            }
        }
        assert(sprite_fits(once, x, y, n));
        let (twice, _) = draw(once, reg1, reg2, size)->Ok_0;
        assert(twice.video =~= m.video);
        let dark = exists|row: int, col: int| #[trigger]
            draws_at(m, n, row, col) && !m.video[pixel_index(x, y, row, col)];
        if dark {
            let (r, c) = choose|r: int, c: int| #[trigger]
                draws_at(m, n, r, c) && !m.video[pixel_index(x, y, r, c)];
            assert(covered(m, x, y, n, pixel_index(x, y, r, c)));
            assert(draws_at(once, n, r, c) && once.video[pixel_index(x, y, r, c)]);
        }
        if collides(once, x, y, n) {
            let (r, c) = choose|r: int, c: int| #[trigger]
                draws_at(once, n, r, c) && once.video[pixel_index(x, y, r, c)];
            assert(covered(m, x, y, n, pixel_index(x, y, r, c)));
            assert(draws_at(m, n, r, c) && !m.video[pixel_index(x, y, r, c)]);
        }
    }
}

/// A cycle on a key-wait instruction with no key pressed leaves the
/// program counter where it was, and all else but the timers, so the same
/// instruction runs again on the next cycle. With a key pressed the cycle
/// moves on and the register receives the lowest pressed key.
pub proof fn lemma_key_wait(m: Machine, reg: u8, rnd: u8)
    requires
        m.wf(),
        m.pc + 1 < RAM_MAX,
        decode(fetch_word(m)) == (Op::LDK { reg }),
    ensures
        !any_pressed(m.keypad) ==> cycle_state(m, rnd) == Ok::<(Machine, Effect), Fault>(
            (tick(m), Effect::Nothing),
        ),
        any_pressed(m.keypad) ==> cycle_state(m, rnd) == Ok::<(Machine, Effect), Fault>(
            (tick(m.with_pc(m.pc + 2).set_v(reg, lowest_pressed(m.keypad) as u8)), Effect::Nothing),
        ),
{
    assert(m.with_pc(m.pc + 2).with_pc(m.pc + 2 - 2) == m);
}

/// Storing registers `0..=reg` to RAM at the index register and loading
/// them back from the same address restores them, whatever the registers
/// held in between.
pub proof fn lemma_store_load_round_trip(m: Machine, reg: u8, later: Machine)
    requires
        m.wf(),
        later.wf(),
        reg < REG_MAX,
        m.index + reg < RAM_MAX,
        later.index == m.index,
        later.ram == next_state(m, Op::LDXR { reg }, 0)->Ok_0.0.ram,
    ensures
        match next_state(later, Op::LDRX { reg }, 0) {
            Ok((loaded, _)) => forall|r: int| 0 <= r <= reg ==> #[trigger] loaded.reg[r] == m.reg[r],
            Err(_) => false,
        },
{
}

} // verus!
