//! The execution engine: machine state, fetch, execute and timers.
use vstd::prelude::*;

use crate::isa::Op;
use crate::machine::{
    any_pressed, collides, covered, cycle_state, draw, draws_at, fetch_word, font,
    is_lowest_pressed, lowest_pressed, next_state, outcome, pixel_index, program_fits, reset_ram,
    reset_state, sprite_fits, with_program, zeroed, Effect, Fault, Machine, ADDR_FONT, ADDR_START,
    FLAG_REG, FONTSET_MAX, FONTSET_SIZE, KEYPAD_MAX, RAM_MAX, REG_MAX, STACK_MAX, VIDEO_HEIGHT, VIDEO_MAX, VIDEO_WIDTH,
};
use crate::mem::Mem;

verus! {

/// A CHIP-8 machine.
pub struct Chip8 {
    reg: Mem<u8, REG_MAX>,
    stack: Mem<u16, STACK_MAX>,
    ram: Mem<u8, RAM_MAX>,
    video: Mem<bool, VIDEO_MAX>,
    keypad: Mem<bool, KEYPAD_MAX>,
    pc: u16,
    sp: u8,
    index: u16,
    dt: u8,
    st: u8,
}

impl View for Chip8 {
    type V = Machine;

    closed spec fn view(&self) -> Machine {
        Machine {
            ram: self.ram@,
            reg: self.reg@,
            stack: self.stack@,
            video: self.video@,
            keypad: self.keypad@,
            pc: self.pc,
            sp: self.sp,
            index: self.index,
            dt: self.dt,
            st: self.st,
        }
    }
}

impl Chip8 {
    /// The state is well formed and every memory clears to zero.
    pub closed spec fn wf(&self) -> bool {
        &&& self@.wf()
        &&& self.reg.blank == 0
        &&& self.stack.blank == 0
        &&& self.ram.blank == 0
        &&& self.video.blank == false
        &&& self.keypad.blank == false
    }

    /// What `wf` says of the abstract state.
    pub proof fn lemma_wf_view(&self)
        requires
            self.wf(),
        ensures
            self@.wf(),
    {
    }

    /// A machine with all state zero.
    pub fn new() -> (r: Self)
        ensures
            r.wf(),
            r@ == zeroed(),
    {
        let r = Chip8 {
            reg: Mem::new(0),
            stack: Mem::new(0),
            ram: Mem::new(0),
            video: Mem::new(false),
            keypad: Mem::new(false),
            pc: 0,
            sp: 0,
            index: 0,
            dt: 0,
            st: 0,
        };
        assert(r.reg@ =~= zeroed().reg);
        assert(r.stack@ =~= zeroed().stack);
        assert(r.ram@ =~= zeroed().ram);
        assert(r.video@ =~= zeroed().video);
        assert(r.keypad@ =~= zeroed().keypad);
        r
    }

    /// Clears RAM and writes the font glyphs at `ADDR_FONT`.
    fn init_ram(&mut self)
        requires
            old(self).wf(),
        ensures
            final(self).wf(),
            final(self)@ == (Machine { ram: reset_ram(), ..old(self)@ }),
    {
        let fontset: [u8; FONTSET_MAX] = [
            0xF0, 0x90, 0x90, 0x90, 0xF0, // 0
            0x20, 0x60, 0x20, 0x20, 0x70, // 1
            0xF0, 0x10, 0xF0, 0x80, 0xF0, // 2
            0xF0, 0x10, 0xF0, 0x10, 0xF0, // 3
            0x90, 0x90, 0xF0, 0x10, 0x10, // 4
            0xF0, 0x80, 0xF0, 0x10, 0xF0, // 5
            0xF0, 0x80, 0xF0, 0x90, 0xF0, // 6
            0xF0, 0x10, 0x20, 0x40, 0x40, // 7
            0xF0, 0x90, 0xF0, 0x90, 0xF0, // 8
            0xF0, 0x90, 0xF0, 0x10, 0xF0, // 9
            0xF0, 0x90, 0xF0, 0x90, 0x90, // A
            0xE0, 0x90, 0xE0, 0x90, 0xE0, // B
            0xF0, 0x80, 0x80, 0x80, 0xF0, // C
            0xE0, 0x90, 0x90, 0x90, 0xE0, // D
            0xF0, 0x80, 0xF0, 0x80, 0xF0, // E
            0xF0, 0x80, 0xF0, 0x80, 0x80, // F
        ];
        assert(fontset@ =~= font());
        self.ram.clear();
        let mut i: usize = 0;
        while i < FONTSET_MAX
            invariant
                i <= FONTSET_MAX,
                fontset@ == font(),
                self.ram.blank == 0,
                self.ram@.len() == RAM_MAX,
                forall|a: int|
                    0 <= a < RAM_MAX ==> #[trigger] self.ram@[a] == (if ADDR_FONT <= a < ADDR_FONT + i {
                        font()[a - ADDR_FONT]
                    } else {
                        0u8
                    }),
                self.reg == old(self).reg,
                self.stack == old(self).stack,
                self.video == old(self).video,
                self.keypad == old(self).keypad,
                self.pc == old(self).pc,
                self.sp == old(self).sp,
                self.index == old(self).index,
                self.dt == old(self).dt,
                self.st == old(self).st,
            decreases FONTSET_MAX - i,
        {
            self.ram.set(ADDR_FONT as usize + i, fontset[i]);
            i = i + 1;
        }
        assert(self.ram@ =~= reset_ram());
    }

    /// Puts the machine in its start state: font loaded, program counter at
    /// `ADDR_START`, everything else cleared but the keypad, which belongs
    /// to the input layer.
    pub fn reset(&mut self)
        requires
            old(self).wf(),
        ensures
            final(self).wf(),
            final(self)@ == reset_state(old(self)@.keypad),
    {
        self.init_ram();
        self.reg.clear();
        self.stack.clear();
        self.video.clear();
        self.pc = ADDR_START;
        self.sp = 0;
        self.index = 0;
        self.dt = 0;
        self.st = 0;
        assert(self.reg@ =~= zeroed().reg);
        assert(self.stack@ =~= zeroed().stack);
        assert(self.video@ =~= zeroed().video);
    }

    /// Writes `program` into RAM from `ADDR_START` on. A program that does
    /// not fit is refused and nothing changes.
    pub fn load_program(&mut self, program: &[u8]) -> (r: Result<(), Fault>)
        requires
            old(self).wf(),
        ensures
            final(self).wf(),
            program_fits(program@) ==> r == Ok::<(), Fault>(()) && final(self)@ == (Machine {
                ram: with_program(old(self)@.ram, program@),
                ..old(self)@
            }),
            !program_fits(program@) ==> r == Err::<(), Fault>(Fault::ProgramTooLarge)
                && final(self)@ == old(self)@,
    {
        if program.len() > RAM_MAX - ADDR_START as usize {
            return Err(Fault::ProgramTooLarge);
        }
        let ghost ram0 = self.ram@;
        let mut i: usize = 0;
        while i < program.len()
            invariant
                i <= program@.len(),
                program@.len() <= RAM_MAX - ADDR_START,
                self.ram.blank == old(self).ram.blank,
                self.ram@ == with_program(ram0, program@.take(i as int)),
                ram0 == old(self).ram@,
                ram0.len() == RAM_MAX,
                self.reg == old(self).reg,
                self.stack == old(self).stack,
                self.video == old(self).video,
                self.keypad == old(self).keypad,
                self.pc == old(self).pc,
                self.sp == old(self).sp,
                self.index == old(self).index,
                self.dt == old(self).dt,
                self.st == old(self).st,
            decreases program@.len() - i,
        {
            self.ram.set(ADDR_START as usize + i, program[i]);
            i = i + 1;
            assert(self.ram@ =~= with_program(ram0, program@.take(i as int)));
        }
        assert(program@.take(i as int) =~= program@);
        Ok(())
    }

    /// Resets the machine, then loads `program` as [`Chip8::load_program`]
    /// does. A program that does not fit is refused and nothing changes.
    pub fn load(&mut self, program: &[u8]) -> (r: Result<(), Fault>)
        requires
            old(self).wf(),
        ensures
            final(self).wf(),
            program_fits(program@) ==> r == Ok::<(), Fault>(()) && final(self)@ == (Machine {
                ram: with_program(reset_ram(), program@),
                ..reset_state(old(self)@.keypad)
            }),
            !program_fits(program@) ==> r == Err::<(), Fault>(Fault::ProgramTooLarge)
                && final(self)@ == old(self)@,
    {
        if program.len() > RAM_MAX - ADDR_START as usize {
            return Err(Fault::ProgramTooLarge);
        }
        self.reset();
        self.load_program(program)
    }
}


/// Sprite pixel `(r, c)` comes before `(row, col)` in drawing order.
spec fn before(row: int, col: int, r: int, c: int) -> bool {
    r < row || (r == row && c < col)
}

/// Cell `i` is under a set pixel drawn before `(row, col)`.
spec fn covered_upto(m: Machine, x: int, y: int, n: int, row: int, col: int, i: int) -> bool {
    exists|r: int, c: int| #[trigger]
        draws_at(m, n, r, c) && before(row, col, r, c) && pixel_index(x, y, r, c) == i
}

/// A set pixel drawn before `(row, col)` landed on a lit cell.
spec fn collides_upto(m: Machine, x: int, y: int, n: int, row: int, col: int) -> bool {
    exists|r: int, c: int| #[trigger]
        draws_at(m, n, r, c) && before(row, col, r, c) && m.video[pixel_index(x, y, r, c)]
}

/// Every set pixel drawn before `(row, col)` lands inside the framebuffer.
spec fn fits_upto(m: Machine, x: int, y: int, n: int, row: int, col: int) -> bool {
    forall|r: int, c: int| #[trigger]
        draws_at(m, n, r, c) && before(row, col, r, c) ==> pixel_index(x, y, r, c) < VIDEO_MAX
}

/// Two sprite pixels of one row width never land on the same cell.
proof fn lemma_pixel_index_injective(x: int, y: int, r1: int, c1: int, r2: int, c2: int)
    requires
        0 <= c1 < 8,
        0 <= c2 < 8,
        pixel_index(x, y, r1, c1) == pixel_index(x, y, r2, c2),
    ensures
        r1 == r2,
        c1 == c2,
{
    assert((y + r1) * 64 + x + c1 == (y + r2) * 64 + x + c2 ==> r1 == r2) by (nonlinear_arith)
        requires
            0 <= c1 < 8,
            0 <= c2 < 8,
    ;
}

/// Moving one pixel on within a row adds that pixel to what has been drawn.
proof fn lemma_next_col(m: Machine, x: int, y: int, n: int, row: int, col: int)
    requires
        0 <= col < 8,
    ensures
        forall|i: int|
            #[trigger] covered_upto(m, x, y, n, row, col + 1, i) == (covered_upto(
                m,
                x,
                y,
                n,
                row,
                col,
                i,
            ) || (draws_at(m, n, row, col) && pixel_index(x, y, row, col) == i)),
        collides_upto(m, x, y, n, row, col + 1) == (collides_upto(m, x, y, n, row, col) || (
        draws_at(m, n, row, col) && m.video[pixel_index(x, y, row, col)])),
        fits_upto(m, x, y, n, row, col + 1) == (fits_upto(m, x, y, n, row, col) && (draws_at(
            m,
            n,
            row,
            col,
        ) ==> pixel_index(x, y, row, col) < VIDEO_MAX)),
{
    assert forall|i: int|
        #[trigger] covered_upto(m, x, y, n, row, col + 1, i) == (covered_upto(
            m,
            x,
            y,
            n,
            row,
            col,
            i,
        ) || (draws_at(m, n, row, col) && pixel_index(x, y, row, col) == i)) by {
        if covered_upto(m, x, y, n, row, col + 1, i) {
            let (r, c) = choose|r: int, c: int| #[trigger]
                draws_at(m, n, r, c) && before(row, col + 1, r, c) && pixel_index(x, y, r, c)
                    == i;
            if !(r == row && c == col) {
                assert(before(row, col, r, c));
            }
        }
        if covered_upto(m, x, y, n, row, col, i) {
            let (r, c) = choose|r: int, c: int| #[trigger]
                draws_at(m, n, r, c) && before(row, col, r, c) && pixel_index(x, y, r, c) == i;
            assert(before(row, col + 1, r, c));
        }
        if draws_at(m, n, row, col) && pixel_index(x, y, row, col) == i {
            assert(before(row, col + 1, row, col));
        }
    }
    if collides_upto(m, x, y, n, row, col + 1) {
        let (r, c) = choose|r: int, c: int| #[trigger]
            draws_at(m, n, r, c) && before(row, col + 1, r, c) && m.video[pixel_index(x, y, r, c)];
        if !(r == row && c == col) {
            assert(before(row, col, r, c));
        }
    }
    if collides_upto(m, x, y, n, row, col) {
        let (r, c) = choose|r: int, c: int| #[trigger]
            draws_at(m, n, r, c) && before(row, col, r, c) && m.video[pixel_index(x, y, r, c)];
        assert(before(row, col + 1, r, c));
    }
    if draws_at(m, n, row, col) {
        assert(before(row, col + 1, row, col));
    }
    if fits_upto(m, x, y, n, row, col) && (draws_at(m, n, row, col) ==> pixel_index(x, y, row, col)
        < VIDEO_MAX) {
        assert forall|r: int, c: int| #[trigger]
            draws_at(m, n, r, c) && before(row, col + 1, r, c) implies pixel_index(x, y, r, c)
            < VIDEO_MAX by {
            if !(r == row && c == col) {
                assert(before(row, col, r, c));
            }
        }
    }
}

/// A full row of eight pixels is the same as the start of the next row.
proof fn lemma_next_row(m: Machine, x: int, y: int, n: int, row: int)
    ensures
        forall|i: int|
            #[trigger] covered_upto(m, x, y, n, row + 1, 0, i) == covered_upto(
                m,
                x,
                y,
                n,
                row,
                8,
                i,
            ),
        collides_upto(m, x, y, n, row + 1, 0) == collides_upto(m, x, y, n, row, 8),
        fits_upto(m, x, y, n, row + 1, 0) == fits_upto(m, x, y, n, row, 8),
{
    assert forall|r: int, c: int| #[trigger]
        draws_at(m, n, r, c) implies before(row + 1, 0, r, c) == before(row, 8, r, c) by {}
}

/// Once every row is drawn, what was drawn is the whole sprite.
proof fn lemma_all_rows(m: Machine, x: int, y: int, n: int)
    ensures
        forall|i: int|
            #[trigger] covered_upto(m, x, y, n, n, 0, i) == covered(m, x, y, n, i),
        collides_upto(m, x, y, n, n, 0) == collides(m, x, y, n),
        fits_upto(m, x, y, n, n, 0) == sprite_fits(m, x, y, n),
{
    assert forall|r: int, c: int| #[trigger] draws_at(m, n, r, c) implies before(n, 0, r, c) by {}
}

impl Chip8 {
    /// Register `r`.
    fn v(&self, r: u8) -> (x: u8)
        requires
            self.wf(),
            r < REG_MAX,
        ensures
            x == self@.v(r),
    {
        self.reg.data[r as usize]
    }

    /// Sets register `r` to `x`.
    fn set_v(&mut self, r: u8, x: u8)
        requires
            old(self).wf(),
            r < REG_MAX,
        ensures
            final(self).wf(),
            final(self)@ == old(self)@.set_v(r, x),
    {
        self.reg.data[r as usize] = x;
    }

    /// Whether every set pixel of the sprite at `(x, y)` lands inside the
    /// framebuffer.
    fn sprite_in_bounds(&self, x: usize, y: usize, n: usize) -> (r: bool)
        requires
            self.wf(),
            x < VIDEO_WIDTH,
            y < VIDEO_HEIGHT,
            n < 16,
            self@.index + n <= RAM_MAX,
        ensures
            r == sprite_fits(self@, x as int, y as int, n as int),
    {
        let mut row: usize = 0;
        while row < n
            invariant
                self.wf(),
                row <= n < 16,
                x < VIDEO_WIDTH,
                y < VIDEO_HEIGHT,
                self@.index + n <= RAM_MAX,
                fits_upto(self@, x as int, y as int, n as int, row as int, 0),
            decreases n - row,
        {
            let sprite = self.ram.data[self.index as usize + row];
            let mut col: usize = 0;
            while col < 8
                invariant
                    self.wf(),
                    row < n < 16,
                    col <= 8,
                    x < VIDEO_WIDTH,
                    y < VIDEO_HEIGHT,
                    self@.index + n <= RAM_MAX,
                    sprite == self@.ram[self@.index + row],
                    fits_upto(self@, x as int, y as int, n as int, row as int, col as int),
                decreases 8 - col,
            {
                proof {
                    lemma_next_col(self@, x as int, y as int, n as int, row as int, col as int);
                }
                if sprite & (0x80u8 >> col as u8) != 0 && (y + row) * VIDEO_WIDTH + x + col
                    >= VIDEO_MAX {
                    proof {
                        lemma_all_rows(self@, x as int, y as int, n as int);
                        assert(draws_at(self@, n as int, row as int, col as int));
                    }
                    return false;
                }
                col = col + 1;
            }
            proof {
                lemma_next_row(self@, x as int, y as int, n as int, row as int);
            }
            row = row + 1;
        }
        proof {
            lemma_all_rows(self@, x as int, y as int, n as int);
        }
        true
    }

    /// Draws the sprite of `size` rows at the index register onto the
    /// framebuffer, at the coordinates held in `reg1` and `reg2`.
    fn draw_sprite(&mut self, reg1: u8, reg2: u8, size: u8) -> (r: Result<Effect, Fault>)
        requires
            old(self).wf(),
            reg1 < REG_MAX,
            reg2 < REG_MAX,
            size < 16,
        ensures
            final(self).wf(),
            outcome(draw(old(self)@, reg1, reg2, size), r, old(self)@, final(self)@),
    {
        let x: usize = self.reg.data[reg1 as usize] as usize % VIDEO_WIDTH;
        let y: usize = self.reg.data[reg2 as usize] as usize % VIDEO_HEIGHT;
        let n: usize = size as usize;
        if self.index as usize + n > RAM_MAX {
            return Err(Fault::RamOutOfRange);
        }
        if !self.sprite_in_bounds(x, y, n) {
            return Err(Fault::VideoOutOfRange);
        }
        let ghost m0 = self@;
        let ghost (xi, yi, ni) = (x as int, y as int, n as int);
        let mut collision = false;
        let mut row: usize = 0;
        while row < n
            invariant
                self.wf(),
                row <= n < 16,
                x < VIDEO_WIDTH,
                y < VIDEO_HEIGHT,
                xi == x,
                yi == y,
                ni == n,
                m0.index + n <= RAM_MAX,
                m0.video.len() == VIDEO_MAX,
                sprite_fits(m0, xi, yi, ni),
                self@ == (Machine { video: self@.video, ..m0 }),
                forall|i: int|
                    0 <= i < VIDEO_MAX ==> #[trigger] self@.video[i] == (m0.video[i]
                        != covered_upto(m0, xi, yi, ni, row as int, 0, i)),
                collision == collides_upto(m0, xi, yi, ni, row as int, 0),
            decreases n - row,
        {
            let sprite = self.ram.data[self.index as usize + row];
            let mut col: usize = 0;
            while col < 8
                invariant
                    self.wf(),
                    row < n < 16,
                    col <= 8,
                    x < VIDEO_WIDTH,
                    y < VIDEO_HEIGHT,
                    xi == x,
                    yi == y,
                    ni == n,
                    m0.index + n <= RAM_MAX,
                    m0.video.len() == VIDEO_MAX,
                    sprite_fits(m0, xi, yi, ni),
                    sprite == m0.ram[m0.index + row],
                    self@ == (Machine { video: self@.video, ..m0 }),
                    forall|i: int|
                        0 <= i < VIDEO_MAX ==> #[trigger] self@.video[i] == (m0.video[i]
                            != covered_upto(m0, xi, yi, ni, row as int, col as int, i)),
                    collision == collides_upto(m0, xi, yi, ni, row as int, col as int),
                decreases 8 - col,
            {
                proof {
                    lemma_next_col(m0, xi, yi, ni, row as int, col as int);
                }
                if sprite & (0x80u8 >> col as u8) != 0 {
                    let ghost at = pixel_index(xi, yi, row as int, col as int);
                    proof {
                        assert(draws_at(m0, ni, row as int, col as int));
                        if covered_upto(m0, xi, yi, ni, row as int, col as int, at) {
                            let (r, c) = choose|r: int, c: int| #[trigger]
                                draws_at(m0, ni, r, c) && before(row as int, col as int, r, c)
                                    && pixel_index(xi, yi, r, c) == at;
                            lemma_pixel_index_injective(xi, yi, r, c, row as int, col as int);
                        }
                    }
                    let idx = (y + row) * VIDEO_WIDTH + x + col;
                    if self.video.data[idx] {
                        collision = true;
                    }
                    self.video.data[idx] = !self.video.data[idx];
                }
                col = col + 1;
            }
            proof {
                lemma_next_row(m0, xi, yi, ni, row as int);
            }
            row = row + 1;
        }
        proof {
            lemma_all_rows(m0, xi, yi, ni);
            let video = Seq::new(
                m0.video.len(),
                |i: int| m0.video[i] != covered(m0, xi, yi, ni, i),
            );
            assert(self@.video =~= video);
        }
        self.set_v(FLAG_REG, if collision { 1 } else { 0 });
        Ok(Effect::Redraw)
    }
}


impl Chip8 {
    /// Skips the next instruction when `cond` holds.
    fn skip_if(&mut self, cond: bool)
        requires
            old(self).wf(),
            old(self).pc <= RAM_MAX,
        ensures
            final(self).wf(),
            final(self)@ == old(self)@.skip_if(cond),
    {
        if cond {
            self.pc = self.pc + 2;
        }
    }

    /// The lowest pressed key, if any key is pressed.
    fn first_pressed_key(&self) -> (r: Option<u8>)
        requires
            self.wf(),
        ensures
            r.is_some() == any_pressed(self@.keypad),
            r.is_some() ==> r.unwrap() == lowest_pressed(self@.keypad),
    {
        let mut k: usize = 0;
        while k < KEYPAD_MAX && !self.keypad.data[k]
            invariant
                self.wf(),
                k <= KEYPAD_MAX,
                forall|j: int| 0 <= j < k ==> !self@.keypad[j],
            decreases KEYPAD_MAX - k,
        {
            k = k + 1;
        }
        if k < KEYPAD_MAX {
            proof {
                let keys = self@.keypad;
                assert(is_lowest_pressed(keys, k as int));
                let l = lowest_pressed(keys);
                assert(is_lowest_pressed(keys, l));
                assert(l == k) by {
                    if l < k {
                        assert(!keys[l]);
                    } else if l > k {
                        assert(!keys[k as int]);
                    }
                }
            }
            Some(k as u8)
        } else {
            None
        }
    }

    /// Executes one decoded instruction, `rnd` standing for the random byte
    /// that `RND` masks. The program counter has already moved past it, so
    /// it lies in `2..=RAM_MAX`. On a fault nothing changes.
    pub fn exec_op(&mut self, op: Op, rnd: u8) -> (r: Result<Effect, Fault>)
        requires
            old(self).wf(),
            op.well_formed(),
            2 <= old(self)@.pc <= RAM_MAX,
        ensures
            final(self).wf(),
            outcome(next_state(old(self)@, op, rnd), r, old(self)@, final(self)@),
    {
        match op {
            Op::CLS => {
                self.video.clear();
                assert(self.video@ =~= Seq::new(VIDEO_MAX as nat, |i: int| false));
                Ok(Effect::Redraw)
            },
            Op::RET => {
                if self.sp == 0 {
                    return Err(Fault::StackUnderflow);
                }
                self.sp = self.sp - 1;
                self.pc = self.stack.data[self.sp as usize];
                Ok(Effect::Nothing)
            },
            Op::JP { addr } => {
                self.pc = addr;
                Ok(Effect::Nothing)
            },
            Op::CALL { addr } => {
                if self.sp as usize >= STACK_MAX {
                    return Err(Fault::StackOverflow);
                }
                self.stack.data[self.sp as usize] = self.pc;
                self.sp = self.sp + 1;
                self.pc = addr;
                Ok(Effect::Nothing)
            },
            Op::SEI { reg, value } => {
                let c = self.v(reg) == value;
                self.skip_if(c);
                Ok(Effect::Nothing)
            },
            Op::SNEI { reg, value } => {
                let c = self.v(reg) != value;
                self.skip_if(c);
                Ok(Effect::Nothing)
            },
            Op::SE { reg1, reg2 } => {
                let c = self.v(reg1) == self.v(reg2);
                self.skip_if(c);
                Ok(Effect::Nothing)
            },
            Op::LDI { .. } | Op::ADDI { .. } | Op::LD { .. } | Op::OR { .. } | Op::AND { .. }
            | Op::XOR { .. } | Op::RND { .. } => self.exec_logic(op, rnd),
            Op::ADD { .. } | Op::SUB { .. } | Op::SHR { .. } | Op::SUBN { .. } | Op::SHL { .. } => {
                self.exec_arith(op)
            },
            Op::SNE { reg1, reg2 } => {
                let c = self.v(reg1) != self.v(reg2);
                self.skip_if(c);
                Ok(Effect::Nothing)
            },
            Op::LDIX { addr } => {
                self.index = addr;
                Ok(Effect::Nothing)
            },
            Op::JPA { addr } => {
                self.pc = addr + self.v(0) as u16;
                Ok(Effect::Nothing)
            },
            Op::DRW { reg1, reg2, size } => self.draw_sprite(reg1, reg2, size),
            Op::SKP { reg } => {
                let key = self.v(reg);
                if key as usize >= KEYPAD_MAX {
                    return Err(Fault::KeyOutOfRange);
                }
                let c = self.keypad.data[key as usize];
                self.skip_if(c);
                Ok(Effect::Nothing)
            },
            Op::SKNP { reg } => {
                let key = self.v(reg);
                if key as usize >= KEYPAD_MAX {
                    return Err(Fault::KeyOutOfRange);
                }
                let c = !self.keypad.data[key as usize];
                self.skip_if(c);
                Ok(Effect::Nothing)
            },
            Op::LDRD { reg } => {
                let t = self.dt;
                self.set_v(reg, t);
                Ok(Effect::Nothing)
            },
            Op::LDK { reg } => {
                match self.first_pressed_key() {
                    Some(k) => self.set_v(reg, k),
                    None => self.pc = self.pc - 2,
                }
                Ok(Effect::Nothing)
            },
            Op::LDDR { reg } => {
                self.dt = self.v(reg);
                Ok(Effect::Nothing)
            },
            Op::LDST { reg } => {
                self.st = self.v(reg);
                Ok(Effect::Nothing)
            },
            Op::ADIX { reg } => {
                let sum = self.index as u32 + self.v(reg) as u32;
                if sum > 0xFFFF {
                    return Err(Fault::IndexOverflow);
                }
                self.index = sum as u16;
                Ok(Effect::Nothing)
            },
            Op::LDF { reg } => {
                self.index = ADDR_FONT + FONTSET_SIZE * self.v(reg) as u16;
                Ok(Effect::Nothing)
            },
            Op::LDB { reg } => self.store_bcd(reg),
            Op::LDXR { reg } => self.store_registers(reg),
            Op::LDRX { reg } => self.load_registers(reg),
            Op::DATA { data } => Ok(Effect::Unknown { data }),
        }
    }
}


impl Chip8 {
    /// Writes the decimal digits of register `reg` to RAM at the index
    /// register: hundreds, tens, ones.
    fn store_bcd(&mut self, reg: u8) -> (r: Result<Effect, Fault>)
        requires
            old(self).wf(),
            reg < REG_MAX,
        ensures
            final(self).wf(),
            outcome(next_state(old(self)@, Op::LDB { reg }, 0), r, old(self)@, final(self)@),
    {
        let i = self.index as usize;
        if i + 2 >= RAM_MAX {
            return Err(Fault::RamOutOfRange);
        }
        let v = self.v(reg);
        self.ram.data[i] = v / 100;
        self.ram.data[i + 1] = v % 100 / 10;
        self.ram.data[i + 2] = v % 10;
        Ok(Effect::Nothing)
    }

    /// Copies registers `0..=reg` to RAM from the index register on.
    fn store_registers(&mut self, reg: u8) -> (r: Result<Effect, Fault>)
        requires
            old(self).wf(),
            reg < REG_MAX,
        ensures
            final(self).wf(),
            outcome(next_state(old(self)@, Op::LDXR { reg }, 0), r, old(self)@, final(self)@),
    {
        let base = self.index as usize;
        if base + reg as usize >= RAM_MAX {
            return Err(Fault::RamOutOfRange);
        }
        let ghost m0 = self@;
        let mut i: usize = 0;
        while i <= reg as usize
            invariant
                self.wf(),
                reg < REG_MAX,
                base == m0.index,
                base + reg < RAM_MAX,
                i <= reg + 1,
                self@ == (Machine { ram: self@.ram, ..m0 }),
                self@.ram =~= Seq::new(
                    RAM_MAX as nat,
                    |a: int|
                        if base <= a < base + i {
                            m0.reg[a - base]
                        } else {
                            m0.ram[a]
                        },
                ),
            decreases reg + 1 - i,
        {
            self.ram.data[base + i] = self.reg.data[i];
            i = i + 1;
        }
        assert(self@.ram =~= Seq::new(
            m0.ram.len(),
            |a: int|
                if m0.index <= a <= m0.index + reg {
                    m0.reg[a - m0.index]
                } else {
                    m0.ram[a]
                },
        ));
        Ok(Effect::Nothing)
    }

    /// Fills registers `0..=reg` from RAM at the index register on.
    fn load_registers(&mut self, reg: u8) -> (r: Result<Effect, Fault>)
        requires
            old(self).wf(),
            reg < REG_MAX,
        ensures
            final(self).wf(),
            outcome(next_state(old(self)@, Op::LDRX { reg }, 0), r, old(self)@, final(self)@),
    {
        let base = self.index as usize;
        if base + reg as usize >= RAM_MAX {
            return Err(Fault::RamOutOfRange);
        }
        let ghost m0 = self@;
        let mut i: usize = 0;
        while i <= reg as usize
            invariant
                self.wf(),
                reg < REG_MAX,
                base == m0.index,
                base + reg < RAM_MAX,
                i <= reg + 1,
                self@ == (Machine { reg: self@.reg, ..m0 }),
                self@.reg =~= Seq::new(
                    REG_MAX as nat,
                    |r: int|
                        if r < i {
                            m0.ram[base + r]
                        } else {
                            m0.reg[r]
                        },
                ),
            decreases reg + 1 - i,
        {
            self.reg.data[i] = self.ram.data[base + i];
            i = i + 1;
        }
        assert(self@.reg =~= Seq::new(
            m0.reg.len(),
            |r: int|
                if r <= reg {
                    m0.ram[m0.index + r]
                } else {
                    m0.reg[r]
                },
        ));
        Ok(Effect::Nothing)
    }

    /// The instructions that set a register from a register, an immediate
    /// or the random byte, leaving the flag register alone.
    fn exec_logic(&mut self, op: Op, rnd: u8) -> (r: Result<Effect, Fault>)
        requires
            old(self).wf(),
            op.well_formed(),
            op is LDI || op is ADDI || op is LD || op is OR || op is AND || op is XOR || op is RND,
        ensures
            final(self).wf(),
            outcome(next_state(old(self)@, op, rnd), r, old(self)@, final(self)@),
    {
        match op {
            Op::LDI { reg, value } => {
                self.set_v(reg, value);
                Ok(Effect::Nothing)
            },
            Op::ADDI { reg, value } => {
                let x = self.v(reg).wrapping_add(value);
                self.set_v(reg, x);
                Ok(Effect::Nothing)
            },
            Op::LD { reg1, reg2 } => {
                let x = self.v(reg2);
                self.set_v(reg1, x);
                Ok(Effect::Nothing)
            },
            Op::OR { reg1, reg2 } => {
                let x = self.v(reg1) | self.v(reg2);
                self.set_v(reg1, x);
                Ok(Effect::Nothing)
            },
            Op::AND { reg1, reg2 } => {
                let x = self.v(reg1) & self.v(reg2);
                self.set_v(reg1, x);
                Ok(Effect::Nothing)
            },
            Op::XOR { reg1, reg2 } => {
                let x = self.v(reg1) ^ self.v(reg2);
                self.set_v(reg1, x);
                Ok(Effect::Nothing)
            },
            Op::RND { reg, value } => {
                self.set_v(reg, rnd & value);
                Ok(Effect::Nothing)
            },
            _ => Ok(Effect::Nothing),
        }
    }

    /// The arithmetic and shift instructions, which report a carry, borrow
    /// or shifted-out bit in the flag register.
    fn exec_arith(&mut self, op: Op) -> (r: Result<Effect, Fault>)
        requires
            old(self).wf(),
            op.well_formed(),
            op is ADD || op is SUB || op is SHR || op is SUBN || op is SHL,
        ensures
            final(self).wf(),
            outcome(next_state(old(self)@, op, 0), r, old(self)@, final(self)@),
    {
        match op {
            Op::ADD { reg1, reg2 } => {
                let sum = self.v(reg1) as u16 + self.v(reg2) as u16;
                self.set_v(reg1, (sum % 256) as u8);
                self.set_v(FLAG_REG, if sum > 0xFF { 1 } else { 0 });
                Ok(Effect::Nothing)
            },
            Op::SUB { reg1, reg2 } => {
                let (a, b) = (self.v(reg1), self.v(reg2));
                self.set_v(reg1, a.wrapping_sub(b));
                self.set_v(FLAG_REG, if a >= b { 1 } else { 0 });
                Ok(Effect::Nothing)
            },
            Op::SHR { reg1, .. } => {
                let a = self.v(reg1);
                self.set_v(reg1, a / 2);
                self.set_v(FLAG_REG, a % 2);
                Ok(Effect::Nothing)
            },
            Op::SUBN { reg1, reg2 } => {
                let (a, b) = (self.v(reg1), self.v(reg2));
                self.set_v(reg1, b.wrapping_sub(a));
                self.set_v(FLAG_REG, if b >= a { 1 } else { 0 });
                Ok(Effect::Nothing)
            },
            Op::SHL { reg1, .. } => {
                let a = self.v(reg1);
                self.set_v(reg1, ((a as u16 * 2) % 256) as u8);
                self.set_v(FLAG_REG, a / 128);
                Ok(Effect::Nothing)
            },
            _ => Ok(Effect::Nothing),
        }
    }
}


/// Relies on `rand::random::<u8>`: one byte from the thread-local generator.
/// Nothing is promised of its value.
#[verifier::external_body]
fn random_byte() -> (r: u8) {
    rand::random::<u8>()
}

impl Chip8 {
    /// Reads the big-endian word at the program counter and moves past it.
    fn fetch(&mut self) -> (r: Result<u16, Fault>)
        requires
            old(self).wf(),
        ensures
            final(self).wf(),
            old(self)@.pc + 1 >= RAM_MAX ==> r == Err::<u16, Fault>(Fault::RamOutOfRange)
                && final(self)@ == old(self)@,
            old(self)@.pc + 1 < RAM_MAX ==> r == Ok::<u16, Fault>(fetch_word(old(self)@))
                && final(self)@ == old(self)@.with_pc(old(self)@.pc + 2),
    {
        let pc = self.pc as usize;
        if pc + 1 >= RAM_MAX {
            return Err(Fault::RamOutOfRange);
        }
        let b1 = self.ram.data[pc];
        let b2 = self.ram.data[pc + 1];
        self.pc = self.pc + 2;
        Ok(b1 as u16 * 256 + b2 as u16)
    }

    /// One machine cycle, `rnd` standing for the random byte that an `RND`
    /// instruction masks: fetch the word at the program counter, move past
    /// it, decode and execute it, then count both timers down by one
    /// (stopping at zero). On a fault the machine is left as it was.
    pub fn cycle_with(&mut self, rnd: u8) -> (r: Result<Effect, Fault>)
        requires
            old(self).wf(),
        ensures
            final(self).wf(),
            outcome(cycle_state(old(self)@, rnd), r, old(self)@, final(self)@),
    {
        let code = match self.fetch() {
            Ok(code) => code,
            Err(f) => return Err(f),
        };
        let op = Op::from_raw(code);
        match self.exec_op(op, rnd) {
            Ok(e) => {
                if self.dt > 0 {
                    self.dt = self.dt - 1;
                }
                if self.st > 0 {
                    self.st = self.st - 1;
                }
                Ok(e)
            },
            Err(f) => {
                self.pc = self.pc - 2;
                Err(f)
            },
        }
    }

    /// One machine cycle as [`Chip8::cycle_with`] runs it, with a freshly
    /// drawn random byte.
    pub fn cycle(&mut self) -> (r: Result<Effect, Fault>)
        requires
            old(self).wf(),
        ensures
            final(self).wf(),
            exists|rnd: u8| outcome(#[trigger] cycle_state(old(self)@, rnd), r, old(self)@, final(self)@),
    {
        let rnd = random_byte();
        let r = self.cycle_with(rnd);
        assert(outcome(cycle_state(old(self)@, rnd), r, old(self)@, self@));
        r
    }

    /// The framebuffer, row by row: cell `y * VIDEO_WIDTH + x` is pixel `(x, y)`.
    pub fn framebuffer(&self) -> (r: &[bool; VIDEO_MAX])
        ensures
            r@ == self@.video,
    {
        &self.video.data
    }

    /// Register `r`, or `None` when there is no such register.
    pub fn register(&self, r: usize) -> (x: Option<u8>)
        requires
            self.wf(),
        ensures
            x == (if r < REG_MAX { Some(self@.reg[r as int]) } else { None::<u8> }),
    {
        self.reg.get(r)
    }

    /// The RAM byte at `addr`, or `None` outside RAM.
    pub fn memory(&self, addr: usize) -> (x: Option<u8>)
        requires
            self.wf(),
        ensures
            x == (if addr < RAM_MAX { Some(self@.ram[addr as int]) } else { None::<u8> }),
    {
        self.ram.get(addr)
    }

    pub fn pc(&self) -> (x: u16)
        ensures
            x == self@.pc,
    {
        self.pc
    }

    pub fn sp(&self) -> (x: u8)
        ensures
            x == self@.sp,
    {
        self.sp
    }

    pub fn index(&self) -> (x: u16)
        ensures
            x == self@.index,
    {
        self.index
    }

    pub fn delay_timer(&self) -> (x: u8)
        ensures
            x == self@.dt,
    {
        self.dt
    }

    pub fn sound_timer(&self) -> (x: u8)
        ensures
            x == self@.st,
    {
        self.st
    }

    /// Marks key `key` as pressed or released; a key outside
    /// `0..KEYPAD_MAX` is refused and nothing changes.
    pub fn set_key(&mut self, key: usize, pressed: bool) -> (r: Result<(), Fault>)
        requires
            old(self).wf(),
        ensures
            final(self).wf(),
            key < KEYPAD_MAX ==> r == Ok::<(), Fault>(()) && final(self)@ == (Machine {
                keypad: old(self)@.keypad.update(key as int, pressed),
                ..old(self)@
            }),
            key >= KEYPAD_MAX ==> r == Err::<(), Fault>(Fault::KeyOutOfRange) && final(self)@
                == old(self)@,
    {
        if self.keypad.set(key, pressed) {
            Ok(())
        } else {
            Err(Fault::KeyOutOfRange)
        }
    }
}

impl Default for Chip8 {
    fn default() -> (r: Self)
        ensures
            r.wf(),
            r@ == zeroed(),
    {
        Chip8::new()
    }
}

} // verus!
