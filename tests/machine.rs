use chip_8::{Chip8, Fault, OpCode, Quirks, RomError};

fn boot(rom: &[u8]) -> Chip8 {
    let mut m = Chip8::new(false);
    m.load_rom(rom.to_vec()).expect("rom fits");
    m
}

fn boot_with(quirks: Quirks, rom: &[u8]) -> Chip8 {
    let mut m = Chip8::with_quirks(quirks);
    m.load_rom(rom.to_vec()).expect("rom fits");
    m
}

fn run(m: &mut Chip8, steps: usize) {
    for _ in 0..steps {
        m.cycle_with_random(0).expect("step succeeds");
    }
}

fn lit_count(m: &Chip8) -> usize {
    m.display().iter().map(|row| row.iter().filter(|c| **c).count()).sum()
}

const NO_QUIRKS: Quirks = Quirks {
    shift_uses_vy: false,
    load_store_increments_i: false,
    jump_offset_uses_vx: false,
    index_overflow_sets_vf: false,
};

#[test]
fn new_machine_has_font_and_starts_at_0x200() {
    let m = Chip8::new(true);
    assert_eq!(m.program_counter(), 0x200);
    assert_eq!(m.index_register(), 0);
    assert_eq!(m.stack_pointer(), 0);
    assert_eq!(m.memory_at(0x050), 0xF0);
    assert_eq!(m.memory_at(0x054), 0xF0);
    assert_eq!(m.memory_at(0x055), 0x20);
    assert_eq!(m.memory_at(0x09F), 0x80);
    assert_eq!(m.memory_at(0x0A0), 0x00);
    assert_eq!(m.memory_at(0x200), 0x00);
    assert_eq!(lit_count(&m), 0);
    assert!(!m.quirks().shift_uses_vy);
    assert!(Chip8::new(false).quirks().shift_uses_vy);
}

#[test]
fn default_machine_is_zeroed_without_font() {
    let m = Chip8::default();
    assert_eq!(m.program_counter(), 0x200);
    assert_eq!(m.memory_at(0x050), 0x00);
    assert_eq!(m.delay_timer(), 0);
    assert_eq!(m.sound_timer(), 0);
}

#[test]
fn load_rom_copies_bytes_at_0x200() {
    let m = boot(&[0x12, 0x34, 0x56]);
    assert_eq!(m.memory_at(0x200), 0x12);
    assert_eq!(m.memory_at(0x201), 0x34);
    assert_eq!(m.memory_at(0x202), 0x56);
    assert_eq!(m.memory_at(0x203), 0x00);
}

#[test]
fn load_rom_accepts_largest_image() {
    let mut m = Chip8::new(false);
    let rom = vec![0xAAu8; 3584];
    assert_eq!(m.load_rom(rom), Ok(()));
    assert_eq!(m.memory_at(0xFFF), 0xAA);
}

#[test]
fn load_rom_refuses_oversized_image() {
    let mut m = Chip8::new(false);
    let rom = vec![0xAAu8; 3585];
    assert_eq!(m.load_rom(rom), Err(RomError::TooLarge { size: 3585 }));
    assert_eq!(m.memory_at(0x200), 0x00);
}

#[test]
fn opcode_decode_splits_fields() {
    let op = OpCode::decode(&0xD123);
    assert_eq!(op, OpCode { c: 0xD, x: 0x1, y: 0x2, n: 0x3, nn: 0x23, nnn: 0x123 });
    let op = OpCode::decode(&0xABCD);
    assert_eq!((op.c, op.x, op.y, op.n, op.nn, op.nnn), (0xA, 0xB, 0xC, 0xD, 0xCD, 0xBCD));
}

#[test]
fn chip8_decode_returns_tuple() {
    let mut m = Chip8::new(false);
    assert_eq!(m.decode(&0x8AB4), (0x8, 0xA, 0xB, 0x4, 0xB4, 0xAB4));
}

#[test]
fn fetch_reads_big_endian_and_advances() {
    let mut m = boot(&[0xA2, 0xF0]);
    assert_eq!(m.fetch(), Ok(0xA2F0));
    assert_eq!(m.program_counter(), 0x202);
}

#[test]
fn fetch_at_last_byte_fails() {
    let mut m = boot(&[0x1F, 0xFF]);
    run(&mut m, 1);
    assert_eq!(m.program_counter(), 0xFFF);
    assert_eq!(m.fetch(), Err(Fault::FetchOutOfRange { pc: 0xFFF }));
    assert_eq!(m.cycle(), Err(Fault::FetchOutOfRange { pc: 0xFFF }));
    assert_eq!(m.program_counter(), 0xFFF);
}

#[test]
fn pc_wraps_to_twelve_bits_after_last_word() {
    let mut rom = vec![0u8; 3584];
    rom[0] = 0x1F;
    rom[1] = 0xFE;
    rom[3582] = 0x60;
    rom[3583] = 0x01;
    let mut m = boot(&rom);
    run(&mut m, 1);
    assert_eq!(m.program_counter(), 0xFFE);
    run(&mut m, 1);
    assert_eq!(m.register(0), 0x01);
    assert_eq!(m.program_counter(), 0x000);
}

#[test]
fn unknown_opcodes_are_fatal_and_change_nothing() {
    for word in [0x0000u16, 0x0123, 0x5121, 0x800F, 0x9AB1, 0xE0FF, 0xF0FF] {
        let mut m = boot(&[(word >> 8) as u8, word as u8]);
        assert_eq!(m.cycle(), Err(Fault::UnknownOpcode { pc: 0x200, opcode: word }));
        assert_eq!(m.program_counter(), 0x200);
    }
}

#[test]
fn add_with_carry() {
    let mut m = boot(&[0x60, 0xFF, 0x61, 0x01, 0x80, 0x14]);
    run(&mut m, 3);
    assert_eq!(m.register(0), 0x00);
    assert_eq!(m.register(0xF), 1);
}

#[test]
fn add_without_carry_clears_flag() {
    let mut m = boot(&[0x60, 0x10, 0x61, 0x01, 0x6F, 0x07, 0x80, 0x14]);
    run(&mut m, 4);
    assert_eq!(m.register(0), 0x11);
    assert_eq!(m.register(0xF), 0);
}

#[test]
fn carry_lands_in_vf_when_x_is_f() {
    let mut m = boot(&[0x6F, 0xFF, 0x61, 0x02, 0x8F, 0x14]);
    run(&mut m, 3);
    assert_eq!(m.register(0xF), 1);
}

#[test]
fn subtract_with_borrow() {
    let mut m = boot(&[0x60, 0x00, 0x61, 0x01, 0x80, 0x15]);
    run(&mut m, 3);
    assert_eq!(m.register(0), 0xFF);
    assert_eq!(m.register(0xF), 0);
}

#[test]
fn subtract_equal_values_sets_flag() {
    let mut m = boot(&[0x60, 0x05, 0x61, 0x05, 0x80, 0x15]);
    run(&mut m, 3);
    assert_eq!(m.register(0), 0x00);
    assert_eq!(m.register(0xF), 1);
}

#[test]
fn reverse_subtract() {
    let mut m = boot(&[0x60, 0x03, 0x61, 0x01, 0x80, 0x17]);
    run(&mut m, 3);
    assert_eq!(m.register(0), 0xFE);
    assert_eq!(m.register(0xF), 0);
    let mut m = boot(&[0x60, 0x01, 0x61, 0x03, 0x80, 0x17]);
    run(&mut m, 3);
    assert_eq!(m.register(0), 0x02);
    assert_eq!(m.register(0xF), 1);
}

#[test]
fn logic_operations() {
    let mut m = boot(&[0x60, 0x0C, 0x61, 0x0A, 0x82, 0x00, 0x82, 0x11, 0x83, 0x00, 0x83, 0x12, 0x84, 0x00, 0x84, 0x13]);
    run(&mut m, 8);
    assert_eq!(m.register(2), 0x0E);
    assert_eq!(m.register(3), 0x08);
    assert_eq!(m.register(4), 0x06);
}

#[test]
fn add_immediate_wraps_without_flag() {
    let mut m = boot(&[0x60, 0xFF, 0x70, 0x02]);
    run(&mut m, 2);
    assert_eq!(m.register(0), 0x01);
    assert_eq!(m.register(0xF), 0);
}

#[test]
fn shifts_in_place_when_modern() {
    let mut m = boot_with(NO_QUIRKS, &[0x60, 0x03, 0x61, 0x80, 0x80, 0x16, 0x81, 0x0E]);
    run(&mut m, 3);
    assert_eq!(m.register(0), 0x01);
    assert_eq!(m.register(0xF), 1);
    run(&mut m, 1);
    assert_eq!(m.register(1), 0x00);
    assert_eq!(m.register(0xF), 1);
}

#[test]
fn shifts_copy_vy_when_legacy() {
    let mut m = boot(&[0x60, 0x03, 0x61, 0x80, 0x80, 0x16]);
    run(&mut m, 3);
    assert_eq!(m.register(0), 0x40);
    assert_eq!(m.register(0xF), 0);
    let mut m = boot(&[0x60, 0x41, 0x61, 0x80, 0x81, 0x0E]);
    run(&mut m, 3);
    assert_eq!(m.register(1), 0x82);
    assert_eq!(m.register(0xF), 0);
}

#[test]
fn conditional_skips() {
    let mut m = boot(&[0x60, 0x07, 0x30, 0x07]);
    run(&mut m, 2);
    assert_eq!(m.program_counter(), 0x206);
    let mut m = boot(&[0x60, 0x07, 0x40, 0x07]);
    run(&mut m, 2);
    assert_eq!(m.program_counter(), 0x204);
    let mut m = boot(&[0x60, 0x07, 0x61, 0x07, 0x50, 0x10]);
    run(&mut m, 3);
    assert_eq!(m.program_counter(), 0x208);
    let mut m = boot(&[0x60, 0x07, 0x61, 0x07, 0x90, 0x10]);
    run(&mut m, 3);
    assert_eq!(m.program_counter(), 0x206);
}

#[test]
fn jump_with_offset() {
    let mut m = boot(&[0x60, 0x04, 0xB3, 0x00]);
    run(&mut m, 2);
    assert_eq!(m.program_counter(), 0x304);
    let quirks = Quirks { jump_offset_uses_vx: true, ..NO_QUIRKS };
    let mut m = boot_with(quirks, &[0x60, 0x04, 0x63, 0x10, 0xB3, 0x00]);
    run(&mut m, 3);
    assert_eq!(m.program_counter(), 0x310);
}

#[test]
fn random_is_masked_by_nn() {
    let mut m = boot(&[0xC0, 0x0F]);
    m.cycle_with_random(0xAB).unwrap();
    assert_eq!(m.register(0), 0x0B);
    let mut m = boot(&[0xC0, 0x00, 0xC1, 0xF0]);
    m.cycle().unwrap();
    assert_eq!(m.register(0), 0x00);
    m.cycle().unwrap();
    assert_eq!(m.register(1) & 0x0F, 0x00);
}

#[test]
fn index_add_past_twelve_bits() {
    let mut m = boot(&[0xAF, 0xFF, 0x60, 0x01, 0xF0, 0x1E]);
    run(&mut m, 3);
    assert_eq!(m.index_register(), 0x1000);
    assert_eq!(m.register(0xF), 0);
    let quirks = Quirks { index_overflow_sets_vf: true, ..NO_QUIRKS };
    let mut m = boot_with(quirks, &[0xAF, 0xFF, 0x60, 0x01, 0xF0, 0x1E]);
    run(&mut m, 3);
    assert_eq!(m.index_register(), 0x1000);
    assert_eq!(m.register(0xF), 1);
}

#[test]
fn font_address() {
    let mut m = boot(&[0x60, 0x1A, 0xF0, 0x29]);
    run(&mut m, 2);
    assert_eq!(m.index_register(), 0x050 + 0xA * 5);
}

#[test]
fn bcd_of_254() {
    let mut m = boot(&[0xA3, 0x00, 0x60, 0xFE, 0xF0, 0x33]);
    run(&mut m, 3);
    assert_eq!(m.memory_at(0x300), 2);
    assert_eq!(m.memory_at(0x301), 5);
    assert_eq!(m.memory_at(0x302), 4);
}

#[test]
fn bcd_of_every_byte() {
    for b in 0..=255u8 {
        let mut m = boot(&[0xA3, 0x00, 0x65, b, 0xF5, 0x33]);
        run(&mut m, 3);
        assert_eq!(m.memory_at(0x300), b / 100);
        assert_eq!(m.memory_at(0x301), (b / 10) % 10);
        assert_eq!(m.memory_at(0x302), b % 10);
    }
}

#[test]
fn store_then_load_restores_registers() {
    let mut m = boot(&[
        0x60, 0x11, 0x61, 0x22, 0x62, 0x33, 0x63, 0x44, 0xA4, 0x00, 0xF3, 0x55, 0x60, 0x00, 0x61, 0x00,
        0x62, 0x00, 0x63, 0x00, 0xF3, 0x65,
    ]);
    run(&mut m, 6);
    assert_eq!(m.memory_at(0x400), 0x11);
    assert_eq!(m.memory_at(0x403), 0x44);
    assert_eq!(m.memory_at(0x404), 0x00);
    assert_eq!(m.index_register(), 0x400);
    run(&mut m, 5);
    assert_eq!((m.register(0), m.register(1), m.register(2), m.register(3)), (0x11, 0x22, 0x33, 0x44));
}

#[test]
fn load_store_quirk_advances_index() {
    let quirks = Quirks { load_store_increments_i: true, ..NO_QUIRKS };
    let mut m = boot_with(quirks, &[0xA4, 0x00, 0xF3, 0x55]);
    run(&mut m, 2);
    assert_eq!(m.index_register(), 0x404);
}

#[test]
fn call_and_return() {
    let mut m = boot(&[0x22, 0x04, 0x00, 0x00, 0x00, 0xEE]);
    run(&mut m, 1);
    assert_eq!(m.program_counter(), 0x204);
    assert_eq!(m.stack_pointer(), 1);
    run(&mut m, 1);
    assert_eq!(m.program_counter(), 0x202);
    assert_eq!(m.stack_pointer(), 0);
}

#[test]
fn sixteen_calls_fit_and_seventeenth_overflows() {
    let mut rom = Vec::new();
    for k in 0..17u16 {
        let target = 0x202 + 2 * k;
        rom.push(0x20 | (target >> 8) as u8);
        rom.push(target as u8);
    }
    let mut m = boot(&rom);
    run(&mut m, 15);
    assert_eq!(m.stack_pointer(), 15);
    run(&mut m, 1);
    assert_eq!(m.stack_pointer(), 16);
    assert_eq!(m.cycle(), Err(Fault::StackOverflow { pc: 0x220, opcode: 0x2222 }));
    assert_eq!(m.stack_pointer(), 16);
}

#[test]
fn return_on_empty_stack_underflows() {
    let mut m = boot(&[0x00, 0xEE]);
    assert_eq!(m.cycle(), Err(Fault::StackUnderflow { pc: 0x200, opcode: 0x00EE }));
    assert_eq!(m.stack_pointer(), 0);
}

#[test]
fn jump_to_self_halts() {
    let mut m = boot(&[0x12, 0x00]);
    run(&mut m, 1);
    assert_eq!(m.program_counter(), 0x200);
    assert_eq!(lit_count(&m), 0);
    run(&mut m, 5);
    assert_eq!(m.program_counter(), 0x200);
}

#[test]
fn draw_single_pixel() {
    let mut m = boot(&[0x60, 0x05, 0x61, 0x07, 0xA2, 0x0A, 0xD0, 0x11, 0x12, 0x06, 0x80]);
    run(&mut m, 4);
    assert_eq!((m.register(0), m.register(1), m.index_register()), (5, 7, 0x20A));
    assert!(m.display()[7][5]);
    assert_eq!(lit_count(&m), 1);
    assert_eq!(m.register(0xF), 0);
    assert_eq!(m.lit_pixels(), vec![(5, 7)]);
}

#[test]
fn draw_twice_collides() {
    let mut m = boot(&[0x60, 0x05, 0x61, 0x07, 0xA2, 0x0A, 0xD0, 0x11, 0x12, 0x06, 0x80]);
    run(&mut m, 6);
    assert_eq!(m.program_counter(), 0x208);
    assert!(!m.display()[7][5]);
    assert_eq!(lit_count(&m), 0);
    assert_eq!(m.register(0xF), 1);
    run(&mut m, 2);
    assert!(m.display()[7][5]);
    assert_eq!(m.register(0xF), 0);
}

#[test]
fn clear_screen_blanks_everything_and_is_idempotent() {
    let mut m = boot(&[0xA0, 0x50, 0xD0, 0x05, 0x00, 0xE0, 0x00, 0xE0]);
    run(&mut m, 2);
    assert!(lit_count(&m) > 0);
    run(&mut m, 1);
    assert_eq!(lit_count(&m), 0);
    run(&mut m, 1);
    assert_eq!(lit_count(&m), 0);
}

#[test]
fn draw_at_corner_is_clipped() {
    let mut m = boot(&[0x60, 0x3F, 0x61, 0x1F, 0xA0, 0x50, 0xD0, 0x15]);
    run(&mut m, 4);
    assert!(m.display()[31][63]);
    assert_eq!(lit_count(&m), 1);
}

#[test]
fn draw_start_wraps() {
    let mut m = boot(&[0x60, 0x41, 0x61, 0x21, 0xA0, 0x50, 0xD0, 0x11]);
    run(&mut m, 4);
    assert_eq!(m.lit_pixels(), vec![(1, 1), (2, 1), (3, 1), (4, 1)]);
}

#[test]
fn draw_clips_row_at_right_edge() {
    let mut m = boot(&[0x60, 0x3D, 0x61, 0x00, 0xA0, 0x50, 0xD0, 0x11]);
    run(&mut m, 4);
    assert_eq!(m.lit_pixels(), vec![(61, 0), (62, 0), (63, 0)]);
}

#[test]
fn lit_pixels_in_reading_order() {
    let mut m = boot(&[0x60, 0x00, 0x61, 0x00, 0xA0, 0x50, 0xD0, 0x15]);
    run(&mut m, 4);
    let lit = m.lit_pixels();
    assert_eq!(lit.len(), 14);
    assert_eq!(lit[0], (0, 0));
    assert_eq!(lit[4], (0, 1));
    assert_eq!(lit[5], (3, 1));
    assert_eq!(lit[13], (3, 4));
}

#[test]
fn timer_decay() {
    let mut m = boot(&[0x60, 0x0A, 0xF0, 0x15, 0xF1, 0x07]);
    run(&mut m, 2);
    assert_eq!(m.delay_timer(), 10);
    for _ in 0..10 {
        m.tick_timers();
    }
    run(&mut m, 1);
    assert_eq!(m.register(1), 0);
}

#[test]
fn timers_count_down_to_zero() {
    let mut m = boot(&[0x60, 0x0A, 0xF0, 0x15, 0xF0, 0x18, 0xF1, 0x07]);
    run(&mut m, 3);
    assert_eq!(m.delay_timer(), 10);
    assert!(m.sound_active());
    for _ in 0..9 {
        m.tick_timers();
    }
    assert_eq!(m.delay_timer(), 1);
    m.tick_timers();
    assert_eq!(m.delay_timer(), 0);
    assert_eq!(m.sound_timer(), 0);
    assert!(!m.sound_active());
    run(&mut m, 1);
    assert_eq!(m.register(1), 0);
    m.tick_timers();
    assert_eq!(m.delay_timer(), 0);
}

#[test]
fn update_timers_ticks_only_after_a_period() {
    let mut m = boot(&[0x60, 0x05, 0xF0, 0x15]);
    run(&mut m, 2);
    assert!(!m.update_timers(16_666));
    assert_eq!(m.delay_timer(), 5);
    assert!(m.update_timers(16_667));
    assert_eq!(m.delay_timer(), 4);
}

#[test]
fn key_wait_blocks_then_takes_key() {
    let mut m = boot(&[0xF0, 0x0A]);
    for _ in 0..5 {
        run(&mut m, 1);
        assert_eq!(m.program_counter(), 0x200);
    }
    m.press_key(0xA);
    run(&mut m, 1);
    assert_eq!(m.register(0), 0xA);
    assert_eq!(m.program_counter(), 0x202);
    assert!(!m.is_key_pressed(0xA));
}

#[test]
fn key_wait_takes_lowest_key() {
    let mut m = boot(&[0xF3, 0x0A]);
    m.press_key(0x9);
    m.press_key(0x4);
    run(&mut m, 1);
    assert_eq!(m.register(3), 0x4);
    assert!(m.is_key_pressed(0x9));
}

#[test]
fn key_skips_mask_vx() {
    let mut m = boot(&[0x60, 0x1A, 0xE0, 0x9E]);
    m.press_key(0xA);
    run(&mut m, 2);
    assert_eq!(m.program_counter(), 0x206);
    let mut m = boot(&[0x60, 0x1A, 0xE0, 0xA1]);
    m.press_key(0xA);
    m.release_key(0xA);
    run(&mut m, 2);
    assert_eq!(m.program_counter(), 0x206);
    let mut m = boot(&[0x60, 0x0A, 0xE0, 0xA1]);
    m.press_key(0xA);
    run(&mut m, 2);
    assert_eq!(m.program_counter(), 0x204);
}
