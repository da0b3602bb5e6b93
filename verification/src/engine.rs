//! The instruction engine: fetch, decode, dispatch and per-opcode semantics,
//! plus the cycle driver and the key-wait logic.
//!
//! The program counter convention: `cycle` advances the program counter past
//! the fetched instruction before executing it, so a jump or call simply sets
//! the program counter to its target, a skip adds another 2, and the key-wait
//! opcode rolls it back by 2 to re-fetch the same instruction.  The net
//! program counter after a cycle is 4 bytes past a skip, 2 bytes past any
//! other non-transfer instruction, and exactly the target of a transfer.

use vstd::prelude::*;
use crate::machine::Chip8;
use crate::machine::Chip8Error;
use crate::machine::State;
use crate::machine::FONT_BASE;
use crate::machine::MEMORY_SIZE;
use crate::machine::NUM_KEYS;
use crate::machine::NUM_REGISTERS;
use crate::machine::STACK_DEPTH;
use crate::draw::spec_draw_rows;

verus! {

/// The big-endian 16-bit instruction word at the program counter.
pub open spec fn spec_fetch(s: State) -> u16 {
    ((s.memory[s.pc as int] as u16) << 8) | (s.memory[s.pc as int + 1] as u16)
}

/// Whether the opcode value matches one of the 25 implemented patterns.
/// Dispatch is keyed on the top nibble; families 0x0, 0x8, 0xE and 0xF are
/// keyed further on a secondary nibble or byte.
pub open spec fn spec_recognized(op: u16) -> bool {
    ||| op == 0x00E0
    ||| op == 0x00EE
    ||| op & 0xF000 == 0x1000
    ||| op & 0xF000 == 0x2000
    ||| op & 0xF000 == 0x3000
    ||| op & 0xF000 == 0x4000
    ||| op & 0xF000 == 0x5000
    ||| op & 0xF000 == 0x6000
    ||| op & 0xF000 == 0x7000
    ||| op & 0xF00F == 0x8000
    ||| op & 0xF00F == 0x8002
    ||| op & 0xF00F == 0x8004
    ||| op & 0xF00F == 0x8005
    ||| op & 0xF000 == 0x9000
    ||| op & 0xF000 == 0xA000
    ||| op & 0xF000 == 0xD000
    ||| op & 0xF0FF == 0xE09E
    ||| op & 0xF0FF == 0xE0A1
    ||| op & 0xF0FF == 0xF007
    ||| op & 0xF0FF == 0xF00A
    ||| op & 0xF0FF == 0xF015
    ||| op & 0xF0FF == 0xF018
    ||| op & 0xF0FF == 0xF029
    ||| op & 0xF0FF == 0xF033
    ||| op & 0xF0FF == 0xF065
}

/// The state transition of executing one already-fetched opcode on a machine
/// whose program counter has been advanced past it.  An unrecognized opcode
/// leaves the state unchanged; a fault is returned without touching the
/// state.
pub open spec fn spec_execute(s: State, op: u16) -> Result<State, Chip8Error> {
    let x = ((op & 0x0F00) >> 8) as int;
    let y = ((op & 0x00F0) >> 4) as int;
    let n = (op & 0x000F) as int;
    let nn = (op & 0x00FF) as u8;
    let nnn = op & 0x0FFF;
    if op == 0x00E0 {
        // Clear the display.
        Ok(State { display: Seq::new(256, |b: int| 0u8), ..s })
    } else if op == 0x00EE {
        // Return from subroutine.
        if s.sp < 1 {
            Err(Chip8Error::StackUnderflow)
        } else {
            Ok(State { pc: s.stack[s.sp - 1], sp: s.sp - 1, ..s })
        }
    } else if op & 0xF000 == 0x1000 {
        // Jump to NNN.
        Ok(State { pc: nnn, ..s })
    } else if op & 0xF000 == 0x2000 {
        // Call subroutine at NNN; the pushed address is the instruction after
        // the call.
        if s.sp >= STACK_DEPTH {
            Err(Chip8Error::StackOverflow)
        } else {
            Ok(State { stack: s.stack.update(s.sp, s.pc), sp: s.sp + 1, pc: nnn, ..s })
        }
    } else if op & 0xF000 == 0x3000 {
        // Skip next instruction if VX == NN.
        if s.registers[x] == nn {
            Ok(State { pc: (s.pc + 2) as u16, ..s })
        } else {
            Ok(s)
        }
    } else if op & 0xF000 == 0x4000 {
        // Skip next instruction if VX != NN.
        if s.registers[x] != nn {
            Ok(State { pc: (s.pc + 2) as u16, ..s })
        } else {
            Ok(s)
        }
    } else if op & 0xF000 == 0x5000 {
        // Skip next instruction if VX == VY.
        if s.registers[x] == s.registers[y] {
            Ok(State { pc: (s.pc + 2) as u16, ..s })
        } else {
            Ok(s)
        }
    } else if op & 0xF000 == 0x6000 {
        // VX = NN.
        Ok(State { registers: s.registers.update(x, nn), ..s })
    } else if op & 0xF000 == 0x7000 {
        // VX += NN with 8-bit wraparound, no flag.
        Ok(
            State {
                registers: s.registers.update(x, ((s.registers[x] + nn) % 256) as u8),
                ..s
            },
        )
    } else if op & 0xF00F == 0x8000 {
        // VX = VY.
        Ok(State { registers: s.registers.update(x, s.registers[y]), ..s })
    } else if op & 0xF00F == 0x8002 {
        // VX &= VY.
        Ok(State { registers: s.registers.update(x, s.registers[x] & s.registers[y]), ..s })
    } else if op & 0xF00F == 0x8004 {
        // VX += VY; VF = 1 on carry, else 0.
        let sum = s.registers[x] + s.registers[y];
        Ok(
            State {
                registers: s.registers.update(x, (sum % 256) as u8).update(
                    15,
                    if sum >= 256 { 1u8 } else { 0u8 },
                ),
                ..s
            },
        )
    } else if op & 0xF00F == 0x8005 {
        // VX -= VY; VF = 0 on borrow, else 1.
        let diff = s.registers[x] - s.registers[y];
        Ok(
            State {
                registers: s.registers.update(
                    x,
                    (if diff < 0 { diff + 256 } else { diff }) as u8,
                ).update(15, if diff < 0 { 0u8 } else { 1u8 }),
                ..s
            },
        )
    } else if op & 0xF000 == 0x9000 {
        // Skip next instruction if VX != VY.
        if s.registers[x] != s.registers[y] {
            Ok(State { pc: (s.pc + 2) as u16, ..s })
        } else {
            Ok(s)
        }
    } else if op & 0xF000 == 0xA000 {
        // I = NNN.
        Ok(State { index: nnn, ..s })
    } else if op & 0xF000 == 0xD000 {
        // Draw the N-row sprite at [I, I+N) to (VX % 64, VY % 32).
        if s.index + n > MEMORY_SIZE {
            Err(Chip8Error::MemoryOutOfRange)
        } else {
            let xp = s.registers[x] % 64;
            let yp = s.registers[y] % 32;
            let t = spec_draw_rows(s.display, false, s.memory, s.index as int, xp as int, yp as int, 0, n);
            Ok(
                State {
                    display: t.0,
                    registers: s.registers.update(15, if t.1 { 1u8 } else { 0u8 }),
                    ..s
                },
            )
        }
    } else if op & 0xF0FF == 0xE09E {
        // Skip next instruction if the key numbered by VX is pressed.
        if s.registers[x] >= NUM_KEYS {
            Err(Chip8Error::KeyOutOfRange)
        } else if s.keys[s.registers[x] as int] {
            Ok(State { pc: (s.pc + 2) as u16, ..s })
        } else {
            Ok(s)
        }
    } else if op & 0xF0FF == 0xE0A1 {
        // Skip next instruction if the key numbered by VX is not pressed.
        if s.registers[x] >= NUM_KEYS {
            Err(Chip8Error::KeyOutOfRange)
        } else if !s.keys[s.registers[x] as int] {
            Ok(State { pc: (s.pc + 2) as u16, ..s })
        } else {
            Ok(s)
        }
    } else if op & 0xF0FF == 0xF007 {
        // VX = delay timer.
        Ok(State { registers: s.registers.update(x, s.delay_timer), ..s })
    } else if op & 0xF0FF == 0xF00A {
        // Enter key-wait mode targeting VX; roll the program counter back so
        // the same instruction re-fetches until a key resolves the wait.
        Ok(
            State {
                waiting_for_key: true,
                key_register: x,
                pc: (s.pc - 2) as u16,
                ..s
            },
        )
    } else if op & 0xF0FF == 0xF015 {
        // Delay timer = VX.
        Ok(State { delay_timer: s.registers[x], ..s })
    } else if op & 0xF0FF == 0xF018 {
        // Sound timer = VX.
        Ok(State { sound_timer: s.registers[x], ..s })
    } else if op & 0xF0FF == 0xF029 {
        // I = font table base + 5 * VX: the glyph sprite for a hex digit.
        Ok(State { index: (FONT_BASE + 5 * s.registers[x]) as u16, ..s })
    } else if op & 0xF0FF == 0xF033 {
        // Store the decimal digits of VX at I, I+1, I+2.
        if s.index + 2 >= MEMORY_SIZE {
            Err(Chip8Error::MemoryOutOfRange)
        } else {
            let v = s.registers[x];
            Ok(
                State {
                    memory: s.memory.update(s.index as int, (v / 100) as u8).update(
                        s.index as int + 1,
                        ((v % 100) / 10) as u8,
                    ).update(s.index as int + 2, ((v % 100) % 10) as u8),
                    ..s
                },
            )
        }
    } else if op & 0xF0FF == 0xF065 {
        // Load registers V0..=VX from memory starting at I.
        if s.index + x >= MEMORY_SIZE {
            Err(Chip8Error::MemoryOutOfRange)
        } else {
            Ok(
                State {
                    registers: Seq::new(
                        NUM_REGISTERS as nat,
                        |j: int| if j <= x { s.memory[s.index + j] } else { s.registers[j] },
                    ),
                    ..s
                },
            )
        }
    } else {
        Ok(s)
    }
}

/// The lowest pressed key at or above index `k`, if any.
pub open spec fn first_key_from(keys: Seq<bool>, k: int) -> Option<int>
    decreases keys.len() - k,
{
    if k < 0 || k >= keys.len() {
        None
    } else if keys[k] {
        Some(k)
    } else {
        first_key_from(keys, k + 1)
    }
}

/// If no key below `k` is pressed, the scan from 0 and the scan from `k`
/// agree.
proof fn lemma_first_key_skip(keys: Seq<bool>, k: int)
    requires
        0 <= k <= keys.len(),
        forall|j: int| 0 <= j < k ==> !keys[j],
    ensures
        first_key_from(keys, 0) == first_key_from(keys, k),
    decreases k,
{
    if k > 0 {
        lemma_first_key_step(keys, k - 1);
        lemma_first_key_skip(keys, k - 1);
    }
}

/// A scan that starts at an unpressed key moves one step right.
proof fn lemma_first_key_step(keys: Seq<bool>, k: int)
    requires
        0 <= k < keys.len(),
        !keys[k],
    ensures
        first_key_from(keys, k) == first_key_from(keys, k + 1),
{
}

/// One full machine cycle.  While waiting for a key: the lowest pressed key,
/// if any, lands in the wait-target register, the wait ends and the program
/// counter moves past the waiting instruction; with no key pressed nothing
/// changes.  Otherwise the instruction at the program counter is fetched and
/// executed with the program counter advanced past it.  A fault leaves the
/// state unchanged.
pub open spec fn spec_cycle(s: State) -> Result<State, Chip8Error> {
    if s.waiting_for_key {
        match first_key_from(s.keys, 0) {
            Option::Some(k) => Ok(
                State {
                    registers: s.registers.update(s.key_register, k as u8),
                    waiting_for_key: false,
                    pc: (s.pc + 2) as u16,
                    ..s
                },
            ),
            Option::None => Ok(s),
        }
    } else if s.pc + 1 >= MEMORY_SIZE {
        Err(Chip8Error::MemoryOutOfRange)
    } else {
        spec_execute(State { pc: (s.pc + 2) as u16, ..s }, spec_fetch(s))
    }
}

/// Whether the cycle found a recognized instruction: always true while
/// waiting for a key (nothing is fetched), else decided by the fetched
/// opcode.
pub open spec fn spec_cycle_recognized(s: State) -> bool {
    if s.waiting_for_key {
        true
    } else if s.pc + 1 >= MEMORY_SIZE {
        true
    } else {
        spec_recognized(spec_fetch(s))
    }
}

/// The four nibble-aligned opcode fields are in range.
pub(crate) proof fn lemma_opcode_fields(op: u16)
    by (bit_vector)
    ensures
        ((op & 0x0F00) >> 8) < 16,
        ((op & 0x00F0) >> 4) < 16,
        (op & 0x000F) < 16,
        (op & 0x00FF) < 256,
        (op & 0x0FFF) < 4096,
{
}

impl Chip8 {
    /// Reads the big-endian 16-bit instruction word at [PC, PC+1].  No side
    /// effects; PC and PC+1 must be valid memory offsets.
    pub fn fetch(&self) -> (op: u16)
        requires
            self.wf(),
            self.pc + 1 < MEMORY_SIZE,
        ensures
            op == spec_fetch(self@),
    {
        let high = self.memory[self.pc as usize] as u16;
        let low = self.memory[self.pc as usize + 1] as u16;
        (high << 8) | low
    }

    /// Executes one opcode on a machine whose program counter was just
    /// advanced past it (hence at least 2 and at most the memory size), and
    /// which is not waiting for a key: while waiting, no instruction
    /// executes.  Returns whether the opcode was recognized; an unrecognized
    /// one is a no-op.  On a fault the state is unchanged.
    pub fn execute(&mut self, opcode: u16) -> (r: Result<bool, Chip8Error>)
        requires
            old(self).wf(),
            !old(self).waiting_for_key,
            2 <= old(self).pc <= MEMORY_SIZE,
        ensures
            final(self).wf(),
            (r matches Ok(recognized) ==> spec_execute(old(self)@, opcode) matches Ok(t)
                && final(self)@ == t && recognized == spec_recognized(opcode)),
            (r matches Err(e) ==> spec_execute(old(self)@, opcode) == Err::<State, Chip8Error>(e)
                && final(self)@ == old(self)@),
    {
        proof {
            lemma_opcode_fields(opcode);
        }
        let x = ((opcode & 0x0F00) >> 8) as usize;
        let y = ((opcode & 0x00F0) >> 4) as usize;
        let n = (opcode & 0x000F) as usize;
        let nn = (opcode & 0x00FF) as u8;
        let nnn = opcode & 0x0FFF;
        if opcode == 0x00E0 {
            self.display = crate::machine::cleared_display();
            proof {
                assert(self@ =~= (State { display: Seq::new(256, |b: int| 0u8), ..old(self)@ }));
            }
            Ok(true)
        } else if opcode == 0x00EE {
            if self.sp < 1 {
                return Err(Chip8Error::StackUnderflow);
            }
            self.sp = self.sp - 1;
            self.pc = self.stack[self.sp];
            Ok(true)
        } else if opcode & 0xF000 == 0x1000 {
            self.pc = nnn;
            Ok(true)
        } else if opcode & 0xF000 == 0x2000 {
            if self.sp >= STACK_DEPTH {
                return Err(Chip8Error::StackOverflow);
            }
            self.stack.set(self.sp, self.pc);
            self.sp = self.sp + 1;
            self.pc = nnn;
            Ok(true)
        } else if opcode & 0xF000 == 0x3000 {
            if self.registers[x] == nn {
                self.pc = self.pc + 2;
            }
            Ok(true)
        } else if opcode & 0xF000 == 0x4000 {
            if self.registers[x] != nn {
                self.pc = self.pc + 2;
            }
            Ok(true)
        } else if opcode & 0xF000 == 0x5000 {
            if self.registers[x] == self.registers[y] {
                self.pc = self.pc + 2;
            }
            Ok(true)
        } else if opcode & 0xF000 == 0x6000 {
            self.registers.set(x, nn);
            Ok(true)
        } else if opcode & 0xF000 == 0x7000 {
            let sum = self.registers[x] as u16 + nn as u16;
            self.registers.set(x, (sum % 256) as u8);
            Ok(true)
        } else if opcode & 0xF00F == 0x8000 {
            let v = self.registers[y];
            self.registers.set(x, v);
            Ok(true)
        } else if opcode & 0xF00F == 0x8002 {
            let v = self.registers[x] & self.registers[y];
            self.registers.set(x, v);
            Ok(true)
        } else if opcode & 0xF00F == 0x8004 {
            let sum = self.registers[x] as u16 + self.registers[y] as u16;
            self.registers.set(x, (sum % 256) as u8);
            self.registers.set(15, if sum >= 256 { 1 } else { 0 });
            Ok(true)
        } else if opcode & 0xF00F == 0x8005 {
            let a = self.registers[x];
            let b = self.registers[y];
            if a >= b {
                self.registers.set(x, a - b);
                self.registers.set(15, 1);
            } else {
                self.registers.set(x, (a as u16 + 256 - b as u16) as u8);
                self.registers.set(15, 0);
            }
            Ok(true)
        } else if opcode & 0xF000 == 0x9000 {
            if self.registers[x] != self.registers[y] {
                self.pc = self.pc + 2;
            }
            Ok(true)
        } else if opcode & 0xF000 == 0xA000 {
            self.i = nnn;
            Ok(true)
        } else if opcode & 0xF000 == 0xD000 {
            if self.i as usize + n > MEMORY_SIZE {
                return Err(Chip8Error::MemoryOutOfRange);
            }
            let xp = (self.registers[x] % 64) as usize;
            let yp = (self.registers[y] % 32) as usize;
            self.draw_sprite(xp, yp, n);
            Ok(true)
        } else if opcode & 0xF0FF == 0xE09E {
            let key = self.registers[x];
            if key >= NUM_KEYS as u8 {
                return Err(Chip8Error::KeyOutOfRange);
            }
            if self.keys[key as usize] {
                self.pc = self.pc + 2;
            }
            Ok(true)
        } else if opcode & 0xF0FF == 0xE0A1 {
            let key = self.registers[x];
            if key >= NUM_KEYS as u8 {
                return Err(Chip8Error::KeyOutOfRange);
            }
            if !self.keys[key as usize] {
                self.pc = self.pc + 2;
            }
            Ok(true)
        } else if opcode & 0xF0FF == 0xF007 {
            let v = self.delay_timer;
            self.registers.set(x, v);
            Ok(true)
        } else if opcode & 0xF0FF == 0xF00A {
            self.waiting_for_key = true;
            self.key_register = x;
            self.pc = self.pc - 2;
            Ok(true)
        } else if opcode & 0xF0FF == 0xF015 {
            self.delay_timer = self.registers[x];
            Ok(true)
        } else if opcode & 0xF0FF == 0xF018 {
            self.sound_timer = self.registers[x];
            Ok(true)
        } else if opcode & 0xF0FF == 0xF029 {
            self.i = FONT_BASE as u16 + 5 * self.registers[x] as u16;
            Ok(true)
        } else if opcode & 0xF0FF == 0xF033 {
            if self.i as usize + 2 >= MEMORY_SIZE {
                return Err(Chip8Error::MemoryOutOfRange);
            }
            let v = self.registers[x];
            let ii = self.i as usize;
            self.memory.set(ii, v / 100);
            self.memory.set(ii + 1, (v % 100) / 10);
            self.memory.set(ii + 2, (v % 100) % 10);
            Ok(true)
        } else if opcode & 0xF0FF == 0xF065 {
            if self.i as usize + x >= MEMORY_SIZE {
                return Err(Chip8Error::MemoryOutOfRange);
            }
            let ii = self.i as usize;
            let mut k: usize = 0;
            while k <= x
                invariant
                    x < 16,
                    k <= x + 1,
                    ii + x < MEMORY_SIZE,
                    ii == old(self).i,
                    self.memory@ == old(self)@.memory,
                    self.memory@.len() == MEMORY_SIZE,
                    self.registers@.len() == NUM_REGISTERS,
                    old(self)@.registers.len() == NUM_REGISTERS,
                    forall|j: int| 0 <= j < k ==> self.registers@[j] == old(self)@.memory[ii + j],
                    forall|j: int| k <= j < NUM_REGISTERS ==> self.registers@[j] == old(self)@.registers[j],
                    self.pc == old(self).pc,
                    self.i == old(self).i,
                    self.display == old(self).display,
                    self.keys == old(self).keys,
                    self.waiting_for_key == old(self).waiting_for_key,
                    self.key_register == old(self).key_register,
                    self.delay_timer == old(self).delay_timer,
                    self.sound_timer == old(self).sound_timer,
                    self.stack == old(self).stack,
                    self.sp == old(self).sp,
                decreases x + 1 - k,
            {
                let v = self.memory[ii + k];
                self.registers.set(k, v);
                k = k + 1;
            }
            proof {
                assert(self@.registers =~= Seq::new(
                    NUM_REGISTERS as nat,
                    |j: int| if j <= x { old(self)@.memory[old(self)@.index + j] } else {
                        old(self)@.registers[j]
                    },
                ));
                assert(self@ =~= (State { registers: self@.registers, ..old(self)@ }));
            }
            Ok(true)
        } else {
            Ok(false)
        }
    }

    /// Runs one cycle: resolves a pending key wait, or fetches and executes
    /// the next instruction and advances the program counter.  `Ok(true)`
    /// means progress (or an idle wait); `Ok(false)` means the fetched opcode
    /// was unrecognized and was skipped over as a no-op.  A fault is returned
    /// with the machine unchanged; the driver's documented policy is to halt.
    pub fn cycle(&mut self) -> (r: Result<bool, Chip8Error>)
        requires
            old(self).wf(),
        ensures
            final(self).wf(),
            (r matches Ok(b) ==> spec_cycle(old(self)@) matches Ok(t) && final(self)@ == t
                && b == spec_cycle_recognized(old(self)@)),
            (r matches Err(e) ==> spec_cycle(old(self)@) == Err::<State, Chip8Error>(e)
                && final(self)@ == old(self)@),
    {
        if self.waiting_for_key {
            let mut k: usize = 0;
            while k < NUM_KEYS && !self.keys[k]
                invariant
                    old(self).wf(),
                    self == old(self),
                    k <= NUM_KEYS,
                    forall|j: int| 0 <= j < k ==> !self.keys@[j],
                decreases NUM_KEYS - k,
            {
                k = k + 1;
            }
            proof {
                lemma_first_key_skip(self.keys@, k as int);
            }
            if k < NUM_KEYS {
                let kr = self.key_register;
                self.registers.set(kr, k as u8);
                self.waiting_for_key = false;
                self.pc = self.pc + 2;
                proof {
                    assert(first_key_from(old(self)@.keys, 0) == Option::Some(k as int));
                    assert(self@ =~= (State {
                        registers: old(self)@.registers.update(old(self)@.key_register, k as u8),
                        waiting_for_key: false,
                        pc: (old(self)@.pc + 2) as u16,
                        ..old(self)@
                    }));
                }
                return Ok(true);
            }
            proof {
                assert(first_key_from(old(self)@.keys, 0) == Option::None::<int>);
            }
            return Ok(true);
        }
        if self.pc >= (MEMORY_SIZE - 1) as u16 {
            return Err(Chip8Error::MemoryOutOfRange);
        }
        let opcode = self.fetch();
        self.pc = self.pc + 2;
        let ghost advanced = State { pc: (old(self)@.pc + 2) as u16, ..old(self)@ };
        proof {
            assert(self@ =~= advanced);
        }
        let r = self.execute(opcode);
        match r {
            Ok(b) => Ok(b),
            Err(e) => {
                // A fault leaves the machine exactly as it was: undo the
                // advance past the faulting instruction.
                self.pc = self.pc - 2;
                proof {
                    assert(self@ =~= old(self)@);
                }
                Err(e)
            },
        }
    }
}

} // verus!
