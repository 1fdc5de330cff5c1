use chip8::machine::{ADDR_START, RAM_MAX, VIDEO_MAX};
use chip8::{Chip8, Effect, Fault, Op};

fn machine_with(program: &[u8]) -> Chip8 {
    let mut c = Chip8::new();
    c.load(program).unwrap();
    c
}

fn run(c: &mut Chip8, cycles: usize) {
    for _ in 0..cycles {
        c.cycle_with(0).unwrap();
    }
}

#[test]
fn add_sets_carry() {
    let mut c = machine_with(&[0x60, 200, 0x61, 100, 0x80, 0x14]);
    run(&mut c, 3);
    assert_eq!(c.register(0), Some(44));
    assert_eq!(c.register(15), Some(1));
}

#[test]
fn add_without_carry_clears_flag() {
    let mut c = machine_with(&[0x6F, 1, 0x60, 20, 0x61, 30, 0x80, 0x14]);
    run(&mut c, 4);
    assert_eq!(c.register(0), Some(50));
    assert_eq!(c.register(15), Some(0));
}

#[test]
fn sub_with_borrow() {
    let mut c = machine_with(&[0x60, 5, 0x61, 10, 0x80, 0x15]);
    run(&mut c, 3);
    assert_eq!(c.register(15), Some(0));
    assert_eq!(c.register(0), Some(251));
}

#[test]
fn sub_without_borrow_and_subn() {
    let mut c = machine_with(&[0x60, 10, 0x61, 10, 0x80, 0x15, 0x62, 3, 0x63, 9, 0x82, 0x37]);
    run(&mut c, 3);
    assert_eq!(c.register(0), Some(0));
    assert_eq!(c.register(15), Some(1));
    run(&mut c, 3);
    assert_eq!(c.register(2), Some(6));
    assert_eq!(c.register(15), Some(1));
}

#[test]
fn subn_with_borrow() {
    let mut c = machine_with(&[0x60, 9, 0x61, 3, 0x80, 0x17]);
    run(&mut c, 3);
    assert_eq!(c.register(0), Some(250));
    assert_eq!(c.register(15), Some(0));
}

#[test]
fn shifts_report_the_bit_shifted_out() {
    let mut c = machine_with(&[0x60, 0x81, 0x61, 0x7F, 0x80, 0x16]);
    run(&mut c, 3);
    assert_eq!(c.register(0), Some(0x40));
    assert_eq!(c.register(15), Some(1));
    let mut c = machine_with(&[0x60, 0x81, 0x80, 0x1E]);
    run(&mut c, 2);
    assert_eq!(c.register(0), Some(0x02));
    assert_eq!(c.register(15), Some(1));
    let mut c = machine_with(&[0x60, 0x42, 0x80, 0x1E]);
    run(&mut c, 2);
    assert_eq!(c.register(0), Some(0x84));
    assert_eq!(c.register(15), Some(0));
}

#[test]
fn logic_and_immediate_add() {
    let mut c = machine_with(&[
        0x60, 0b1100, 0x61, 0b1010, 0x82, 0x00, 0x82, 0x11, 0x83, 0x00, 0x83, 0x12, 0x84, 0x00,
        0x84, 0x13, 0x75, 0xFF, 0x75, 0x02,
    ]);
    run(&mut c, 10);
    assert_eq!(c.register(2), Some(0b1110));
    assert_eq!(c.register(3), Some(0b1000));
    assert_eq!(c.register(4), Some(0b0110));
    assert_eq!(c.register(5), Some(1));
}

#[test]
fn draw_twice_cancels_and_reports_collision() {
    let mut c = machine_with(&[0xA2, 0x08, 0xD0, 0x11, 0xD0, 0x11, 0x12, 0x06, 0xFF]);
    run(&mut c, 1);
    assert_eq!(c.cycle_with(0), Ok(Effect::Redraw));
    assert_eq!(c.register(15), Some(0));
    assert!(c.framebuffer()[..8].iter().all(|p| *p));
    assert_eq!(c.framebuffer().iter().filter(|p| **p).count(), 8);
    assert_eq!(c.cycle_with(0), Ok(Effect::Redraw));
    assert!(c.framebuffer().iter().all(|p| !*p));
    assert_eq!(c.register(15), Some(1));
}

#[test]
fn draw_wraps_start_coordinates() {
    // x = 66 wraps to 2, y = 33 wraps to 1
    let mut c = machine_with(&[0x60, 66, 0x61, 33, 0xA2, 0x0A, 0xD0, 0x11, 0x12, 0x08, 0x80]);
    run(&mut c, 4);
    let lit: Vec<usize> = (0..VIDEO_MAX).filter(|i| c.framebuffer()[*i]).collect();
    assert_eq!(lit, vec![64 + 2]);
}

#[test]
fn draw_past_the_screen_is_a_fault() {
    let mut c = machine_with(&[0x60, 60, 0x61, 31, 0xA2, 0x0A, 0xD0, 0x11, 0x12, 0x08, 0xFF]);
    run(&mut c, 3);
    let pc = c.pc();
    assert_eq!(c.cycle_with(0), Err(Fault::VideoOutOfRange));
    assert_eq!(c.pc(), pc);
    assert!(c.framebuffer().iter().all(|p| !*p));
}

#[test]
fn draw_with_sprite_past_ram_is_a_fault() {
    let mut c = machine_with(&[0xAF, 0xFF, 0xD0, 0x12]);
    run(&mut c, 1);
    assert_eq!(c.cycle_with(0), Err(Fault::RamOutOfRange));
}

#[test]
fn clear_screen_blanks_framebuffer() {
    let mut c = machine_with(&[0xA2, 0x06, 0xD0, 0x11, 0x00, 0xE0, 0xFF]);
    run(&mut c, 2);
    assert!(c.framebuffer().iter().any(|p| *p));
    assert_eq!(c.cycle_with(0), Ok(Effect::Redraw));
    assert!(c.framebuffer().iter().all(|p| !*p));
}

#[test]
fn key_wait_spins_until_a_key_is_pressed() {
    let mut c = machine_with(&[0xF3, 0x0A]);
    for _ in 0..3 {
        assert_eq!(c.cycle_with(0), Ok(Effect::Nothing));
        assert_eq!(c.pc(), ADDR_START);
    }
    c.set_key(9, true).unwrap();
    c.set_key(5, true).unwrap();
    run(&mut c, 1);
    assert_eq!(c.pc(), ADDR_START + 2);
    assert_eq!(c.register(3), Some(5));
}

#[test]
fn set_key_rejects_bad_index() {
    let mut c = Chip8::new();
    assert_eq!(c.set_key(16, true), Err(Fault::KeyOutOfRange));
    assert_eq!(c.set_key(15, true), Ok(()));
}

#[test]
fn key_skips() {
    let mut c = machine_with(&[0x60, 4, 0xE0, 0x9E, 0x61, 1, 0xE0, 0xA1, 0x62, 1]);
    c.set_key(4, true).unwrap();
    run(&mut c, 2);
    assert_eq!(c.pc(), ADDR_START + 6);
    run(&mut c, 1);
    assert_eq!(c.pc(), ADDR_START + 8);
    assert_eq!(c.register(1), Some(0));
}

#[test]
fn key_skip_with_bad_key_is_a_fault() {
    let mut c = machine_with(&[0x60, 20, 0xE0, 0x9E]);
    run(&mut c, 1);
    assert_eq!(c.cycle_with(0), Err(Fault::KeyOutOfRange));
    assert_eq!(c.pc(), ADDR_START + 2);
}

#[test]
fn load_largest_program_and_refuse_one_more_byte() {
    let mut c = Chip8::new();
    let fits = vec![0xAB; RAM_MAX - ADDR_START as usize];
    assert_eq!(fits.len(), 4096 - 0x200);
    assert_eq!(c.load_program(&fits), Ok(()));
    assert_eq!(c.memory(RAM_MAX - 1), Some(0xAB));
    let before: Vec<Option<u8>> = (0..RAM_MAX).map(|a| c.memory(a)).collect();
    let too_long = vec![0xCD; RAM_MAX - ADDR_START as usize + 1];
    assert_eq!(c.load_program(&too_long), Err(Fault::ProgramTooLarge));
    assert_eq!(c.load(&too_long), Err(Fault::ProgramTooLarge));
    let after: Vec<Option<u8>> = (0..RAM_MAX).map(|a| c.memory(a)).collect();
    assert_eq!(before, after);
}

#[test]
fn store_and_load_registers_round_trip() {
    let mut c = machine_with(&[
        0x60, 11, 0x61, 22, 0x62, 33, 0x63, 44, 0x64, 55, 0x65, 66, 0x66, 77, 0xA3, 0x00,
        0xF5, 0x55, 0x60, 0, 0x61, 0, 0x62, 0, 0x63, 0, 0x64, 0, 0x65, 0, 0x66, 0, 0xF5,
        0x65,
    ]);
    run(&mut c, 9);
    assert_eq!(c.memory(0x300), Some(11));
    assert_eq!(c.memory(0x305), Some(66));
    assert_eq!(c.memory(0x306), Some(0));
    run(&mut c, 7);
    assert_eq!(c.register(0), Some(0));
    run(&mut c, 1);
    let regs: Vec<Option<u8>> = (0..7).map(|r| c.register(r)).collect();
    assert_eq!(
        regs,
        vec![Some(11), Some(22), Some(33), Some(44), Some(55), Some(66), Some(0)]
    );
}

#[test]
fn store_registers_past_ram_is_a_fault() {
    let mut c = machine_with(&[0xAF, 0xFE, 0xF2, 0x55]);
    run(&mut c, 1);
    assert_eq!(c.cycle_with(0), Err(Fault::RamOutOfRange));
}

#[test]
fn bcd_digits() {
    let mut c = machine_with(&[0x60, 254, 0xA3, 0x00, 0xF0, 0x33]);
    run(&mut c, 3);
    assert_eq!(c.memory(0x300), Some(2));
    assert_eq!(c.memory(0x301), Some(5));
    assert_eq!(c.memory(0x302), Some(4));
}

#[test]
fn bcd_past_ram_is_a_fault() {
    let mut c = machine_with(&[0xAF, 0xFE, 0xF0, 0x33]);
    run(&mut c, 1);
    assert_eq!(c.cycle_with(0), Err(Fault::RamOutOfRange));
    assert_eq!(c.memory(0xFFE), Some(0));
}

#[test]
fn font_glyph_address() {
    let mut c = machine_with(&[0x60, 0xA, 0xF0, 0x29]);
    run(&mut c, 2);
    assert_eq!(c.index(), 0x50 + 5 * 0xA);
    assert_eq!(c.memory(c.index() as usize), Some(0xF0));
    assert_eq!(c.memory(c.index() as usize + 4), Some(0x90));
}

#[test]
fn add_to_index_and_overflow() {
    let mut c = machine_with(&[0xA1, 0x00, 0x60, 0x10, 0xF0, 0x1E]);
    run(&mut c, 3);
    assert_eq!(c.index(), 0x110);
    let mut c = machine_with(&[0xAF, 0xFF, 0x60, 0xFF, 0xF0, 0x1E, 0x12, 0x04]);
    run(&mut c, 2);
    let mut adds = 0;
    loop {
        match c.cycle_with(0) {
            Ok(_) => adds += 1,
            Err(f) => {
                assert_eq!(f, Fault::IndexOverflow);
                break;
            }
        }
    }
    // 0xFFF + 240 * 0xFF = 0xFF0F, one more add passes 0xFFFF; each add is
    // followed by a jump back
    assert_eq!(c.index(), 0xFF0F);
    assert_eq!(adds, 2 * 240);
}

#[test]
fn call_and_return() {
    let mut c = machine_with(&[0x22, 0x06, 0x60, 7, 0x12, 0x04, 0x61, 8, 0x00, 0xEE]);
    run(&mut c, 1);
    assert_eq!(c.pc(), 0x206);
    assert_eq!(c.sp(), 1);
    run(&mut c, 2);
    assert_eq!(c.pc(), 0x202);
    assert_eq!(c.sp(), 0);
    run(&mut c, 1);
    assert_eq!(c.register(0), Some(7));
    assert_eq!(c.register(1), Some(8));
}

#[test]
fn return_with_empty_stack_is_a_fault() {
    let mut c = machine_with(&[0x00, 0xEE]);
    assert_eq!(c.cycle_with(0), Err(Fault::StackUnderflow));
    assert_eq!(c.pc(), ADDR_START);
}

#[test]
fn sixteen_nested_calls_fit_and_seventeen_do_not() {
    let mut c = machine_with(&[0x22, 0x00]);
    run(&mut c, 16);
    assert_eq!(c.sp(), 16);
    assert_eq!(c.cycle_with(0), Err(Fault::StackOverflow));
    assert_eq!(c.sp(), 16);
}

#[test]
fn skips_on_registers_and_immediates() {
    let mut c = machine_with(&[
        0x60, 5, 0x30, 5, 0x00, 0x00, 0x40, 5, 0x61, 5, 0x50, 0x10, 0x00, 0x00, 0x90, 0x10,
        0x62, 1,
    ]);
    run(&mut c, 2);
    assert_eq!(c.pc(), 0x206);
    run(&mut c, 3);
    assert_eq!(c.pc(), 0x20E);
    run(&mut c, 2);
    assert_eq!(c.register(2), Some(1));
}

#[test]
fn jump_with_offset() {
    let mut c = machine_with(&[0x60, 4, 0xB3, 0x00]);
    run(&mut c, 2);
    assert_eq!(c.pc(), 0x304);
}

#[test]
fn random_is_masked() {
    let mut c = machine_with(&[0xC0, 0x0F, 0xC1, 0x00]);
    assert_eq!(c.cycle_with(0xAB), Ok(Effect::Nothing));
    assert_eq!(c.register(0), Some(0x0B));
    c.cycle().unwrap();
    assert_eq!(c.register(1), Some(0));
}

#[test]
fn timers_count_down_once_per_cycle() {
    let mut c = machine_with(&[0x60, 5, 0xF0, 0x15, 0xF1, 0x07, 0xF0, 0x18, 0x00, 0xE0]);
    run(&mut c, 3);
    assert_eq!(c.register(1), Some(4));
    assert_eq!(c.delay_timer(), 3);
    run(&mut c, 1);
    assert_eq!(c.sound_timer(), 4);
    run(&mut c, 1);
    assert_eq!(c.delay_timer(), 1);
    assert_eq!(c.sound_timer(), 3);
}

#[test]
fn timers_stop_at_zero() {
    let mut c = machine_with(&[0x60, 1, 0xF0, 0x15, 0x12, 0x04]);
    run(&mut c, 5);
    assert_eq!(c.delay_timer(), 0);
}

#[test]
fn unknown_word_is_reported_and_skipped() {
    let mut c = machine_with(&[0x51, 0x21, 0x60, 1]);
    assert_eq!(c.cycle_with(0), Ok(Effect::Unknown { data: 0x5121 }));
    assert_eq!(c.pc(), ADDR_START + 2);
    run(&mut c, 1);
    assert_eq!(c.register(0), Some(1));
}

#[test]
fn fetch_past_ram_is_a_fault() {
    let mut c = machine_with(&[0x1F, 0xFF]);
    run(&mut c, 1);
    assert_eq!(c.pc(), 0xFFF);
    assert_eq!(c.cycle_with(0), Err(Fault::RamOutOfRange));
    assert_eq!(c.pc(), 0xFFF);
}

#[test]
fn new_machine_is_zeroed() {
    let c = Chip8::new();
    assert_eq!(c.pc(), 0);
    assert_eq!(c.memory(0x50), Some(0));
    assert_eq!(c.register(16), None);
    assert_eq!(c.memory(RAM_MAX), None);
}

#[test]
fn reset_loads_font_and_clears_state() {
    let mut c = machine_with(&[0x60, 9, 0xA2, 0x08, 0xD0, 0x01, 0x12, 0x06, 0xFF]);
    run(&mut c, 3);
    c.set_key(1, true).unwrap();
    c.reset();
    assert_eq!(c.pc(), ADDR_START);
    assert_eq!(c.index(), 0);
    assert_eq!(c.sp(), 0);
    assert_eq!(c.register(0), Some(0));
    assert_eq!(c.memory(0x200), Some(0));
    assert_eq!(c.memory(0x50), Some(0xF0));
    assert_eq!(c.memory(0x9F), Some(0x80));
    assert!(c.framebuffer().iter().all(|p| !*p));
    // the keypad belongs to the input layer: key 1 is still held
    c.load_program(&[0xF0, 0x0A]).unwrap();
    run(&mut c, 1);
    assert_eq!(c.pc(), ADDR_START + 2);
    assert_eq!(c.register(0), Some(1));
}

#[test]
fn load_keeps_held_keys() {
    let mut c = Chip8::new();
    c.set_key(7, true).unwrap();
    c.load(&[0xF2, 0x0A]).unwrap();
    run(&mut c, 1);
    assert_eq!(c.register(2), Some(7));
}

#[test]
fn exec_op_draw_twice_restores_blank_screen() {
    let mut c = machine_with(&[0xFF]);
    c.exec_op(Op::LDIX { addr: 0x200 }, 0).unwrap();
    c.exec_op(Op::LDI { reg: 1, value: 10 }, 0).unwrap();
    c.exec_op(Op::LDI { reg: 2, value: 3 }, 0).unwrap();
    let draw = Op::DRW { reg1: 1, reg2: 2, size: 1 };
    assert_eq!(c.exec_op(draw, 0), Ok(Effect::Redraw));
    assert_eq!(c.register(15), Some(0));
    let lit: Vec<usize> = (0..VIDEO_MAX).filter(|i| c.framebuffer()[*i]).collect();
    assert_eq!(lit, (3 * 64 + 10..3 * 64 + 18).collect::<Vec<usize>>());
    assert_eq!(c.exec_op(draw, 0), Ok(Effect::Redraw));
    assert!(c.framebuffer().iter().all(|p| !*p));
    assert_eq!(c.register(15), Some(1));
}

#[test]
fn exec_op_store_then_load_registers() {
    let mut c = machine_with(&[]);
    for r in 0..6u8 {
        c.exec_op(Op::LDI { reg: r, value: 10 * (r + 1) }, 0).unwrap();
    }
    c.exec_op(Op::LDIX { addr: 0x400 }, 0).unwrap();
    c.exec_op(Op::LDXR { reg: 5 }, 0).unwrap();
    for r in 0..6u8 {
        c.exec_op(Op::LDI { reg: r, value: 0 }, 0).unwrap();
    }
    c.exec_op(Op::LDRX { reg: 5 }, 0).unwrap();
    let regs: Vec<Option<u8>> = (0..6).map(|r| c.register(r)).collect();
    assert_eq!(regs, vec![Some(10), Some(20), Some(30), Some(40), Some(50), Some(60)]);
}
