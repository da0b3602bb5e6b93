//! General properties of the instruction semantics, stated over the machine
//! model and proved once and for all: arithmetic flag behavior, the
//! non-interference of control-transfer opcodes with the register file, the
//! clear-display round trip and the call/return round trip.

use vstd::prelude::*;
use crate::machine::Chip8Error;
use crate::machine::State;
use crate::machine::MEMORY_SIZE;
use crate::machine::STACK_DEPTH;
use crate::engine::spec_execute;
use crate::engine::spec_fetch;
use crate::engine::spec_cycle;
use crate::display::spec_pixel_on;
use crate::draw::lemma_draw_rows_twice;
use crate::draw::lemma_redraw_reports_collision;
use crate::draw::spec_sprite_visible;

verus! {

/// Law: `7XNN` adds the immediate to register X modulo 256, with no flag side
/// effect and no other change to the state.
pub proof fn lemma_add_immediate_wraps(s: State, x: u16, nn: u8)
    requires
        s.wf(),
        x < 16,
    ensures
        ({
            let op = 0x7000u16 | (x << 8) | (nn as u16);
            spec_execute(s, op) == Ok::<State, Chip8Error>(
                State {
                    registers: s.registers.update(
                        x as int,
                        ((s.registers[x as int] + nn) % 256) as u8,
                    ),
                    ..s
                },
            )
        }),
{
    let op = 0x7000u16 | (x << 8) | (nn as u16);
    assert(op & 0xF000 == 0x7000 && ((op & 0x0F00) >> 8) == x && (op & 0x00FF) == nn as u16
        && op != 0x00E0 && op != 0x00EE) by (bit_vector)
        requires
            op == 0x7000u16 | (x << 8) | (nn as u16),
            x < 16,
    ;
}

/// Law: `8XY4` adds register Y into register X modulo 256 and leaves 1 in VF
/// exactly when the unreduced sum reached 256 (carry), else 0.  Together with
/// `lemma_add_immediate_wraps` this says the two additions produce the same
/// wrapped result.
pub proof fn lemma_add_with_carry(s: State, x: u16, y: u16)
    requires
        s.wf(),
        x < 16,
        y < 16,
    ensures
        ({
            let op = 0x8004u16 | (x << 8) | (y << 4);
            let a = s.registers[x as int];
            let b = s.registers[y as int];
            spec_execute(s, op) == Ok::<State, Chip8Error>(
                State {
                    registers: s.registers.update(x as int, ((a + b) % 256) as u8).update(
                        15,
                        if a + b >= 256 { 1u8 } else { 0u8 },
                    ),
                    ..s
                },
            )
        }),
{
    let op = 0x8004u16 | (x << 8) | (y << 4);
    assert(op & 0xF00F == 0x8004 && ((op & 0x0F00) >> 8) == x && ((op & 0x00F0) >> 4) == y
        && op != 0x00E0 && op != 0x00EE && op & 0xF000 == 0x8000) by (bit_vector)
        requires
            op == 0x8004u16 | (x << 8) | (y << 4),
            x < 16,
            y < 16,
    ;
}

/// Law: `8XY5` subtracts register Y from register X modulo 256 and leaves 0
/// in VF exactly when a borrow occurred (X was below Y), else 1.
pub proof fn lemma_sub_with_borrow(s: State, x: u16, y: u16)
    requires
        s.wf(),
        x < 16,
        y < 16,
    ensures
        ({
            let op = 0x8005u16 | (x << 8) | (y << 4);
            let a = s.registers[x as int];
            let b = s.registers[y as int];
            spec_execute(s, op) == Ok::<State, Chip8Error>(
                State {
                    registers: s.registers.update(x as int, ((a - b) % 256) as u8).update(
                        15,
                        if a < b { 0u8 } else { 1u8 },
                    ),
                    ..s
                },
            )
        }),
{
    let op = 0x8005u16 | (x << 8) | (y << 4);
    assert(op & 0xF00F == 0x8005 && ((op & 0x0F00) >> 8) == x && ((op & 0x00F0) >> 4) == y
        && op != 0x00E0 && op != 0x00EE && op & 0xF000 == 0x8000
        && op & 0xF00F != 0x8000 && op & 0xF00F != 0x8002 && op & 0xF00F != 0x8004) by (bit_vector)
        requires
            op == 0x8005u16 | (x << 8) | (y << 4),
            x < 16,
            y < 16,
    ;
    let a = s.registers[x as int];
    let b = s.registers[y as int];
    if a < b {
        vstd::arithmetic::div_mod::lemma_fundamental_div_mod_converse(a - b, 256, -1, a - b + 256);
    } else {
        vstd::arithmetic::div_mod::lemma_fundamental_div_mod_converse(a - b, 256, 0, a - b);
    }
}

/// Law: jump and skip opcodes (`1NNN`, `3XNN`, `4XNN`, `5XY0`, `9XY0`,
/// `EX9E`, `EXA1`) never alter a register, nor anything else: whenever they
/// execute without fault, every part of the state but the program counter is
/// unchanged.
pub proof fn lemma_jumps_skips_touch_only_pc(s: State, op: u16)
    requires
        op & 0xF000 == 0x1000 || op & 0xF000 == 0x3000 || op & 0xF000 == 0x4000 || op & 0xF000
            == 0x5000 || op & 0xF000 == 0x9000 || op & 0xF0FF == 0xE09E || op & 0xF0FF == 0xE0A1,
    ensures
        (spec_execute(s, op) matches Ok(t) ==> t == (State { pc: t.pc, ..s })),
{
    assert(0x00E0u16 & 0xF000 == 0x0000 && 0x00EEu16 & 0xF000 == 0x0000) by (bit_vector);
    assert(op & 0xF0FF == 0xE09E ==> op & 0xF000 == 0xE000 && op & 0xF00F == 0xE00E) by (bit_vector);
    assert(op & 0xF0FF == 0xE0A1 ==> op & 0xF000 == 0xE000 && op & 0xF00F == 0xE001) by (bit_vector);
    assert((op & 0xF00F == 0x8000 || op & 0xF00F == 0x8002 || op & 0xF00F == 0x8004 || op & 0xF00F
        == 0x8005) ==> op & 0xF000 == 0x8000) by (bit_vector);
    assert(spec_execute(s, op) matches Ok(t) ==> t =~= (State { pc: t.pc, ..s }));
}

/// Law: clearing the display (`00E0`) makes the whole display bitmap zero,
/// so every pixel of the composited frame reads dark, and nothing else
/// changes.
pub proof fn lemma_clear_display_blanks(s: State)
    requires
        s.wf(),
    ensures
        spec_execute(s, 0x00E0) == Ok::<State, Chip8Error>(
            State { display: Seq::new(256, |b: int| 0u8), ..s },
        ),
        (spec_execute(s, 0x00E0) matches Ok(t) ==> forall|y: int, x: int|
            0 <= y < 32 && 0 <= x < 64 ==> !spec_pixel_on(t.display, y, x)),
{
    let t = State { display: Seq::new(256, |b: int| 0u8), ..s };
    assert forall|y: int, x: int| 0 <= y < 32 && 0 <= x < 64 implies !spec_pixel_on(
        t.display,
        y,
        x,
    ) by {
        assert(0 <= y * 8 + x / 8 < 256);
        lemma_and_with_zero(1u8 << ((7 - x % 8) as u8));
    }
}

/// Zero has no bit in common with anything.
proof fn lemma_and_with_zero(m: u8)
    by (bit_vector)
    ensures
        0u8 & m == 0,
{
}

/// Law (XOR self-inverse): drawing a sprite twice at the same position with
/// no other draw in between restores the pre-draw pixel state exactly.  The
/// coordinate registers must not be VF itself, which the first draw
/// overwrites with the collision flag.
pub proof fn lemma_draw_twice_restores_display(s: State, op: u16)
    requires
        s.wf(),
        op & 0xF000 == 0xD000,
        ((op & 0x0F00) >> 8) != 15,
        ((op & 0x00F0) >> 4) != 15,
    ensures
        (spec_execute(s, op) matches Ok(s1) ==> spec_execute(s1, op) matches Ok(s2) && s2.display
            == s.display),
{
    crate::engine::lemma_opcode_fields(op);
    assert(0x00E0u16 & 0xF000 == 0x0000 && 0x00EEu16 & 0xF000 == 0x0000) by (bit_vector);
    assert((op & 0xF00F == 0x8000 || op & 0xF00F == 0x8002 || op & 0xF00F == 0x8004 || op & 0xF00F
        == 0x8005) ==> op & 0xF000 == 0x8000) by (bit_vector);
    let x = ((op & 0x0F00) >> 8) as int;
    let y = ((op & 0x00F0) >> 4) as int;
    let n = (op & 0x000F) as int;
    if s.index + n <= MEMORY_SIZE {
        let xp = (s.registers[x] % 64) as int;
        let yp = (s.registers[y] % 32) as int;
        lemma_draw_rows_twice(s.display, s.memory, s.index as int, xp, yp, n);
    }
}

/// Law (collision on redraw): after a draw onto a fully clear display,
/// repeating the same draw reports a collision in VF exactly when the sprite
/// put any lit pixel on the screen the first time.  The coordinate registers
/// must not be VF itself.
pub proof fn lemma_redraw_sets_collision_flag(s: State, op: u16)
    requires
        s.wf(),
        op & 0xF000 == 0xD000,
        ((op & 0x0F00) >> 8) != 15,
        ((op & 0x00F0) >> 4) != 15,
        forall|b: int| 0 <= b < 256 ==> s.display[b] == 0,
    ensures
        (spec_execute(s, op) matches Ok(s1) ==> spec_execute(s1, op) matches Ok(s2)
            && s2.registers[15] == (if spec_sprite_visible(
            s.memory,
            s.index as int,
            (s.registers[((op & 0x0F00) >> 8) as int] % 64) as int,
            0,
            (op & 0x000F) as int,
        ) {
            1u8
        } else {
            0u8
        })),
{
    crate::engine::lemma_opcode_fields(op);
    assert(0x00E0u16 & 0xF000 == 0x0000 && 0x00EEu16 & 0xF000 == 0x0000) by (bit_vector);
    assert((op & 0xF00F == 0x8000 || op & 0xF00F == 0x8002 || op & 0xF00F == 0x8004 || op & 0xF00F
        == 0x8005) ==> op & 0xF000 == 0x8000) by (bit_vector);
    let x = ((op & 0x0F00) >> 8) as int;
    let y = ((op & 0x00F0) >> 4) as int;
    let n = (op & 0x000F) as int;
    if s.index + n <= MEMORY_SIZE {
        let xp = (s.registers[x] % 64) as int;
        let yp = (s.registers[y] % 32) as int;
        lemma_redraw_reports_collision(s.display, s.memory, s.index as int, xp, yp, n);
    }
}

/// Law: a subroutine call followed by its return lands back just after the
/// call and restores the stack pointer.  Cycling from address P through
/// `2NNN`, then cycling through the `00EE` stored at NNN, leaves the program
/// counter at P+2 and the stack pointer at its pre-call value.
pub proof fn lemma_call_return_roundtrip(s: State, nnn: u16)
    requires
        s.wf(),
        !s.waiting_for_key,
        s.pc + 2 <= MEMORY_SIZE,
        s.sp < STACK_DEPTH,
        nnn < 0x1000,
        nnn + 2 <= MEMORY_SIZE,
        spec_fetch(s) == 0x2000u16 | nnn,
        s.memory[nnn as int] == 0x00,
        s.memory[nnn as int + 1] == 0xEE,
    ensures
        (spec_cycle(s) matches Ok(s1) && spec_cycle(s1) matches Ok(s2) && s2.pc == s.pc + 2
            && s2.sp == s.sp),
{
    let op1 = 0x2000u16 | nnn;
    assert(op1 & 0xF000 == 0x2000 && op1 & 0x0FFF == nnn && op1 != 0x00E0 && op1 != 0x00EE) by (
    bit_vector)
        requires
            op1 == 0x2000u16 | nnn,
            nnn < 0x1000,
    ;
    assert(((0x00u8 as u16) << 8) | (0xEEu8 as u16) == 0x00EE) by (bit_vector);
}

} // verus!

