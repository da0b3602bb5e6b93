use chip8::machine::Chip8;
use chip8::machine::Chip8Error;

fn machine_with(rom: &[u8]) -> Chip8 {
    let mut c = Chip8::new();
    c.load_program(rom);
    c
}

#[test]
fn new_zeroes_state_and_installs_font() {
    let c = Chip8::new();
    assert_eq!(c.pc, 0x200);
    assert_eq!(c.i, 0);
    assert_eq!(c.sp, 0);
    assert_eq!(c.delay_timer, 0);
    assert_eq!(c.sound_timer, 0);
    assert!(!c.waiting_for_key);
    assert!(c.registers.iter().all(|&r| r == 0));
    assert!(c.display.iter().all(|&b| b == 0));
    assert!(c.keys.iter().all(|&k| !k));
    // Font glyph for 0 at the base, last byte of glyph F at the end.
    assert_eq!(c.memory[0x050], 0xF0);
    assert_eq!(c.memory[0x051], 0x90);
    assert_eq!(c.memory[0x09F], 0x80);
    assert!(c.memory[..0x050].iter().all(|&b| b == 0));
    assert!(c.memory[0x0A0..].iter().all(|&b| b == 0));
}

#[test]
fn load_program_copies_rom_at_0x200() {
    let c = machine_with(&[0xDE, 0xAD, 0xBE, 0xEF]);
    assert_eq!(&c.memory[0x200..0x204], &[0xDE, 0xAD, 0xBE, 0xEF]);
    assert_eq!(c.memory[0x204], 0);
    assert_eq!(c.memory[0x1FF], 0);
}

#[test]
fn fetch_reads_big_endian() {
    let c = machine_with(&[0x12, 0x34]);
    assert_eq!(c.fetch(), 0x1234);
}

#[test]
fn cycle_advances_pc_by_two() {
    // 6XNN: set register, no control transfer.
    let mut c = machine_with(&[0x60, 0x2A]);
    assert_eq!(c.cycle(), Ok(true));
    assert_eq!(c.pc, 0x202);
    assert_eq!(c.registers[0], 0x2A);
}

#[test]
fn add_immediate_wraps_modulo_256() {
    let mut c = Chip8::new();
    c.registers[0] = 200;
    c.pc = 0x202;
    assert_eq!(c.execute(0x7064), Ok(true)); // V0 += 100
    assert_eq!(c.registers[0], ((200 + 100) % 256) as u8);
    assert_eq!(c.registers[0xF], 0); // no flag side effect
}

#[test]
fn add_registers_sets_carry() {
    let mut c = Chip8::new();
    c.pc = 0x202;
    c.registers[1] = 200;
    c.registers[2] = 100;
    assert_eq!(c.execute(0x8124), Ok(true)); // V1 += V2
    assert_eq!(c.registers[1], ((200 + 100) % 256) as u8);
    assert_eq!(c.registers[0xF], 1);
    // No carry case, and the same wrapped result as 7XNN addition.
    c.registers[3] = 30;
    c.registers[4] = 12;
    assert_eq!(c.execute(0x8344), Ok(true)); // V3 += V4
    assert_eq!(c.registers[3], 42);
    assert_eq!(c.registers[0xF], 0);
    c.registers[5] = 30;
    assert_eq!(c.execute(0x750C), Ok(true)); // V5 += 12
    assert_eq!(c.registers[5], c.registers[3]);
}

#[test]
fn sub_registers_sets_inverted_borrow() {
    let mut c = Chip8::new();
    c.pc = 0x202;
    c.registers[1] = 10;
    c.registers[2] = 20;
    assert_eq!(c.execute(0x8125), Ok(true)); // V1 -= V2, borrow
    assert_eq!(c.registers[1], 246); // (10 - 20) mod 256
    assert_eq!(c.registers[0xF], 0);
    c.registers[3] = 20;
    c.registers[4] = 10;
    assert_eq!(c.execute(0x8345), Ok(true)); // V3 -= V4, no borrow
    assert_eq!(c.registers[3], 10);
    assert_eq!(c.registers[0xF], 1);
    c.registers[5] = 7;
    c.registers[6] = 7;
    assert_eq!(c.execute(0x8565), Ok(true)); // equal: zero, no borrow
    assert_eq!(c.registers[5], 0);
    assert_eq!(c.registers[0xF], 1);
}

#[test]
fn copy_and_and_registers() {
    let mut c = Chip8::new();
    c.pc = 0x202;
    c.registers[2] = 0xAB;
    assert_eq!(c.execute(0x8120), Ok(true)); // V1 = V2
    assert_eq!(c.registers[1], 0xAB);
    c.registers[3] = 0b1100_1010;
    c.registers[4] = 0b1010_0110;
    assert_eq!(c.execute(0x8342), Ok(true)); // V3 &= V4
    assert_eq!(c.registers[3], 0b1000_0010);
}

#[test]
fn jump_sets_pc_and_touches_nothing_else() {
    let mut c = machine_with(&[0x13, 0x45]); // jump 0x345
    let registers_before = c.registers.clone();
    assert_eq!(c.cycle(), Ok(true));
    assert_eq!(c.pc, 0x345);
    assert_eq!(c.registers, registers_before);
    assert_eq!(c.sp, 0);
    assert_eq!(c.i, 0);
}

#[test]
fn skips_compare_register_and_immediate() {
    // 3XNN taken: +4; not taken: +2.
    let mut c = machine_with(&[0x30, 0x07]);
    c.registers[0] = 0x07;
    let registers_before = c.registers.clone();
    assert_eq!(c.cycle(), Ok(true));
    assert_eq!(c.pc, 0x204);
    assert_eq!(c.registers, registers_before);

    let mut c = machine_with(&[0x30, 0x07]);
    c.registers[0] = 0x08;
    assert_eq!(c.cycle(), Ok(true));
    assert_eq!(c.pc, 0x202);

    // 4XNN is the negated form.
    let mut c = machine_with(&[0x40, 0x07]);
    c.registers[0] = 0x08;
    assert_eq!(c.cycle(), Ok(true));
    assert_eq!(c.pc, 0x204);
}

#[test]
fn skips_compare_two_registers() {
    let mut c = machine_with(&[0x50, 0x10]);
    c.registers[0] = 9;
    c.registers[1] = 9;
    assert_eq!(c.cycle(), Ok(true));
    assert_eq!(c.pc, 0x204);

    let mut c = machine_with(&[0x90, 0x10]);
    c.registers[0] = 9;
    c.registers[1] = 9;
    assert_eq!(c.cycle(), Ok(true));
    assert_eq!(c.pc, 0x202);

    let mut c = machine_with(&[0x90, 0x10]);
    c.registers[0] = 9;
    c.registers[1] = 8;
    assert_eq!(c.cycle(), Ok(true));
    assert_eq!(c.pc, 0x204);
}

#[test]
fn set_index_register() {
    let mut c = machine_with(&[0xA1, 0x23]);
    assert_eq!(c.cycle(), Ok(true));
    assert_eq!(c.i, 0x123);
    assert_eq!(c.pc, 0x202);
}

#[test]
fn clear_display_composites_all_dark() {
    let mut c = Chip8::new();
    c.pc = 0x202;
    c.display[0] = 0xFF;
    c.display[100] = 0x5A;
    c.display[255] = 0x01;
    assert_eq!(c.execute(0x00E0), Ok(true));
    assert!(c.display.iter().all(|&b| b == 0));
    let buffer = c.get_display_buffer();
    assert_eq!(buffer.len(), 64 * 32);
    assert!(buffer.iter().all(|&px| px == 0x000000));
}

#[test]
fn display_buffer_maps_lit_pixels_to_white() {
    let mut c = Chip8::new();
    c.display[0] = 0b1010_0000; // pixels (0,0) and (0,2) of the top row
    let buffer = c.get_display_buffer();
    assert_eq!(buffer[0], 0xFFFFFF);
    assert_eq!(buffer[1], 0x000000);
    assert_eq!(buffer[2], 0xFFFFFF);
    assert_eq!(buffer[3], 0x000000);
    // Second display row starts 64 pixels later.
    assert_eq!(buffer[64], 0x000000);
}

#[test]
fn draw_aligned_sprite_xors_bytes() {
    let mut c = Chip8::new();
    c.pc = 0x202;
    c.memory[0x300] = 0xF0;
    c.memory[0x301] = 0x90;
    c.i = 0x300;
    c.registers[0] = 8; // column 8: byte-aligned
    c.registers[1] = 2; // row 2
    assert_eq!(c.execute(0xD012), Ok(true));
    assert_eq!(c.display[2 * 8 + 1], 0xF0);
    assert_eq!(c.display[3 * 8 + 1], 0x90);
    assert_eq!(c.registers[0xF], 0);
}

#[test]
fn draw_unaligned_sprite_spills_into_next_byte() {
    let mut c = Chip8::new();
    c.pc = 0x202;
    c.memory[0x300] = 0xFF;
    c.i = 0x300;
    c.registers[0] = 3;
    c.registers[1] = 0;
    assert_eq!(c.execute(0xD011), Ok(true));
    assert_eq!(c.display[0], 0xFF >> 3); // 0x1F
    assert_eq!(c.display[1], (0xFFu8) << 5); // 0xE0
    assert_eq!(c.registers[0xF], 0);
}

#[test]
fn draw_does_not_wrap_past_right_edge() {
    let mut c = Chip8::new();
    c.pc = 0x202;
    c.memory[0x300] = 0xFF;
    c.i = 0x300;
    c.registers[0] = 60; // shift 4, sprite runs off the right edge
    c.registers[1] = 0;
    assert_eq!(c.execute(0xD011), Ok(true));
    assert_eq!(c.display[7], 0xFF >> 4); // 0x0F in the last byte of row 0
    assert_eq!(c.display[8], 0); // first byte of row 1 untouched
}

#[test]
fn draw_wraps_rows_vertically() {
    let mut c = Chip8::new();
    c.pc = 0x202;
    c.memory[0x300] = 0x80;
    c.memory[0x301] = 0x40;
    c.memory[0x302] = 0x20;
    c.i = 0x300;
    c.registers[0] = 0;
    c.registers[1] = 30; // rows 30, 31, then wraps to 0
    assert_eq!(c.execute(0xD013), Ok(true));
    assert_eq!(c.display[30 * 8], 0x80);
    assert_eq!(c.display[31 * 8], 0x40);
    assert_eq!(c.display[0], 0x20);
}

#[test]
fn draw_twice_restores_display_and_reports_collision() {
    let mut c = Chip8::new();
    c.pc = 0x202;
    c.memory[0x300] = 0x3C;
    c.memory[0x301] = 0xC3;
    c.i = 0x300;
    c.registers[0] = 5;
    c.registers[1] = 10;
    let display_before = c.display.clone();
    assert_eq!(c.execute(0xD012), Ok(true));
    assert_eq!(c.registers[0xF], 0); // nothing was lit before
    assert_ne!(c.display, display_before);
    assert_eq!(c.execute(0xD012), Ok(true));
    assert_eq!(c.display, display_before); // XOR self-inverse
    assert_eq!(c.registers[0xF], 1); // the sprite collided with itself
}

#[test]
fn call_and_return_round_trip() {
    // 0x200: call 0x300; 0x300: return.
    let mut c = machine_with(&[0x23, 0x00]);
    c.memory[0x300] = 0x00;
    c.memory[0x301] = 0xEE;
    assert_eq!(c.cycle(), Ok(true));
    assert_eq!(c.pc, 0x300);
    assert_eq!(c.sp, 1);
    assert_eq!(c.stack[0], 0x202);
    assert_eq!(c.cycle(), Ok(true));
    assert_eq!(c.pc, 0x202); // just after the call instruction
    assert_eq!(c.sp, 0);
}

#[test]
fn call_with_full_stack_faults() {
    let mut c = machine_with(&[0x23, 0x00]);
    c.sp = 16;
    assert_eq!(c.cycle(), Err(Chip8Error::StackOverflow));
    assert_eq!(c.pc, 0x200); // fault leaves the machine unchanged
    assert_eq!(c.sp, 16);
}

#[test]
fn return_with_empty_stack_faults() {
    let mut c = machine_with(&[0x00, 0xEE]);
    assert_eq!(c.cycle(), Err(Chip8Error::StackUnderflow));
    assert_eq!(c.pc, 0x200);
    assert_eq!(c.sp, 0);
}

#[test]
fn pc_outside_memory_faults() {
    let mut c = Chip8::new();
    c.pc = 4095;
    assert_eq!(c.cycle(), Err(Chip8Error::MemoryOutOfRange));
    assert_eq!(c.pc, 4095);
}

#[test]
fn sprite_read_past_memory_end_faults() {
    let mut c = machine_with(&[0xD0, 0x15]); // 5-row sprite
    c.i = 4093;
    let display_before = c.display.clone();
    assert_eq!(c.cycle(), Err(Chip8Error::MemoryOutOfRange));
    assert_eq!(c.pc, 0x200);
    assert_eq!(c.display, display_before);
}

#[test]
fn bcd_write_past_memory_end_faults() {
    let mut c = machine_with(&[0xF0, 0x33]);
    c.i = 4094;
    assert_eq!(c.cycle(), Err(Chip8Error::MemoryOutOfRange));
    assert_eq!(c.pc, 0x200);
}

#[test]
fn key_skip_with_key_index_out_of_range_faults() {
    let mut c = machine_with(&[0xE0, 0x9E]);
    c.registers[0] = 16;
    assert_eq!(c.cycle(), Err(Chip8Error::KeyOutOfRange));
    assert_eq!(c.pc, 0x200);
}

#[test]
fn key_skips_follow_key_state() {
    let mut c = machine_with(&[0xE0, 0x9E]);
    c.registers[0] = 5;
    c.set_key(5, true);
    assert_eq!(c.cycle(), Ok(true));
    assert_eq!(c.pc, 0x204); // pressed: skip

    let mut c = machine_with(&[0xE0, 0x9E]);
    c.registers[0] = 5;
    assert_eq!(c.cycle(), Ok(true));
    assert_eq!(c.pc, 0x202); // not pressed: no skip

    let mut c = machine_with(&[0xE0, 0xA1]);
    c.registers[0] = 5;
    assert_eq!(c.cycle(), Ok(true));
    assert_eq!(c.pc, 0x204); // not pressed: EXA1 skips
}

#[test]
fn key_wait_blocks_until_a_key_arrives() {
    let mut c = machine_with(&[0xF3, 0x0A]); // wait into register 3
    assert_eq!(c.cycle(), Ok(true));
    assert!(c.waiting_for_key);
    assert_eq!(c.key_register, 3);
    assert_eq!(c.pc, 0x200); // rolled back to the waiting instruction
    // With no key pressed, further cycles change nothing.
    for _ in 0..5 {
        assert_eq!(c.cycle(), Ok(true));
        assert!(c.waiting_for_key);
        assert_eq!(c.pc, 0x200);
        assert!(c.registers.iter().all(|&r| r == 0));
    }
    c.set_key(5, true);
    assert_eq!(c.cycle(), Ok(true));
    assert!(!c.waiting_for_key);
    assert_eq!(c.registers[3], 5);
    assert_eq!(c.pc, 0x202);
}

#[test]
fn key_wait_takes_lowest_pressed_key() {
    let mut c = machine_with(&[0xF0, 0x0A]);
    assert_eq!(c.cycle(), Ok(true));
    c.set_key(9, true);
    c.set_key(4, true);
    assert_eq!(c.cycle(), Ok(true));
    assert_eq!(c.registers[0], 4);
}

#[test]
fn delay_timer_reads_and_writes() {
    let mut c = Chip8::new();
    c.pc = 0x202;
    c.registers[2] = 77;
    assert_eq!(c.execute(0xF215), Ok(true)); // delay = V2
    assert_eq!(c.delay_timer, 77);
    assert_eq!(c.execute(0xF307), Ok(true)); // V3 = delay
    assert_eq!(c.registers[3], 77);
    c.registers[4] = 9;
    assert_eq!(c.execute(0xF418), Ok(true)); // sound = V4
    assert_eq!(c.sound_timer, 9);
}

#[test]
fn timers_decrement_and_saturate_at_zero() {
    let mut c = Chip8::new();
    c.delay_timer = 2;
    c.sound_timer = 1;
    c.update_timers();
    assert_eq!(c.delay_timer, 1);
    assert_eq!(c.sound_timer, 0);
    c.update_timers();
    assert_eq!(c.delay_timer, 0);
    assert_eq!(c.sound_timer, 0);
    c.update_timers();
    assert_eq!(c.delay_timer, 0);
    assert_eq!(c.sound_timer, 0);
}

#[test]
fn font_index_selects_glyph_sprite() {
    let mut c = Chip8::new();
    c.pc = 0x202;
    c.registers[6] = 0xA;
    assert_eq!(c.execute(0xF629), Ok(true));
    assert_eq!(c.i, 0x050 + 5 * 0xA);
    // The glyph bytes for digit A start there.
    assert_eq!(c.memory[c.i as usize], 0xF0);
    // The largest register value still lands inside memory.
    c.registers[6] = 0xFF;
    assert_eq!(c.execute(0xF629), Ok(true));
    assert_eq!(c.i, 0x050 + 5 * 0xFF);
}

#[test]
fn bcd_splits_decimal_digits() {
    let mut c = Chip8::new();
    c.pc = 0x202;
    c.registers[7] = 157;
    c.i = 0x300;
    assert_eq!(c.execute(0xF733), Ok(true));
    assert_eq!(c.memory[0x300], 1);
    assert_eq!(c.memory[0x301], 5);
    assert_eq!(c.memory[0x302], 7);
    // One- and two-digit values pad with leading zeros.
    c.registers[7] = 8;
    assert_eq!(c.execute(0xF733), Ok(true));
    assert_eq!(&c.memory[0x300..0x303], &[0, 0, 8]);
}

#[test]
fn load_registers_from_memory() {
    let mut c = Chip8::new();
    c.pc = 0x202;
    c.memory[0x300] = 11;
    c.memory[0x301] = 22;
    c.memory[0x302] = 33;
    c.i = 0x300;
    c.registers[3] = 99;
    assert_eq!(c.execute(0xF265), Ok(true)); // V0..=V2 from memory at I
    assert_eq!(c.registers[0], 11);
    assert_eq!(c.registers[1], 22);
    assert_eq!(c.registers[2], 33);
    assert_eq!(c.registers[3], 99); // untouched
    assert_eq!(c.i, 0x300); // I itself is unchanged
}

#[test]
fn load_registers_past_memory_end_faults() {
    let mut c = Chip8::new();
    c.pc = 0x202;
    c.i = 4090;
    assert_eq!(c.execute(0xF765), Err(Chip8Error::MemoryOutOfRange));
}

#[test]
fn unrecognized_opcodes_are_no_ops() {
    // 0xB and 0xC families are not implemented, nor 8XY1, nor FX55.
    for rom in [[0xB1u8, 0x23], [0xC1, 0x23], [0x81, 0x21], [0xF1, 0x55], [0x00, 0x00]] {
        let mut c = machine_with(&rom);
        let registers_before = c.registers.clone();
        let display_before = c.display.clone();
        assert_eq!(c.cycle(), Ok(false));
        assert_eq!(c.pc, 0x202); // advanced past the opcode, nothing else
        assert_eq!(c.registers, registers_before);
        assert_eq!(c.display, display_before);
        assert_eq!(c.sp, 0);
    }
}

#[test]
fn program_runs_addition_loop_to_completion() {
    // Sum VB over 1..=10 into VA, then flag completion in VF.
    let rom = [
        0x6A, 0x00, // VA = 0
        0x6B, 0x01, // VB = 1
        0x6C, 0x0A, // VC = 10
        0x6D, 0x0B, // VD = 11
        0x8A, 0xB4, // VA += VB
        0x7B, 0x01, // VB += 1
        0x5B, 0xD0, // skip next if VB == VD
        0x12, 0x08, // jump back to the add
        0x6F, 0xFF, // VF = 0xFF: done
    ];
    let mut c = machine_with(&rom);
    let mut steps: u32 = 0;
    while c.registers[0xF] != 0xFF {
        assert_eq!(c.cycle(), Ok(true));
        steps += 1;
        assert!(steps < 1000, "program did not terminate");
    }
    assert_eq!(c.registers[0xA], 55); // 1 + 2 + ... + 10
    assert_eq!(c.registers[0xB], 11);
}
