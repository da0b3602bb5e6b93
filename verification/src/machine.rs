//! The machine state: memory, registers, program counter, index register,
//! display bitmap, keypad, timers and the call stack, together with its
//! mathematical model and the operations that build and refresh it.

use vstd::prelude::*;

verus! {

/// Memory holds 4096 addressable bytes.
pub const MEMORY_SIZE: usize = 4096;
/// Programs are loaded starting at this offset; everything below is reserved.
pub const PROGRAM_START: usize = 0x200;
/// The font sprite table (16 glyphs of 5 bytes each) starts here.
pub const FONT_BASE: usize = 0x050;
/// 16 general-purpose 8-bit registers.
pub const NUM_REGISTERS: usize = 16;
/// 64x32 monochrome pixels packed 8 per byte, row-major.
pub const DISPLAY_BYTES: usize = 256;
/// 16 boolean key-pressed flags.
pub const NUM_KEYS: usize = 16;
/// The call stack holds at most 16 return addresses.
pub const STACK_DEPTH: usize = 16;

/// A detectable fault of the machine.  Faults are reported to the driver and
/// leave the machine state exactly as it was before the faulting cycle; the
/// documented policy is that the driver halts emulation on a fault.
#[derive(Clone, Copy, Debug, PartialEq, Eq)]
pub enum Chip8Error {
    /// A subroutine call was executed with the call stack already full.
    StackOverflow,
    /// A return was executed with the call stack empty.
    StackUnderflow,
    /// The program counter, the index register or an address derived from the
    /// index register fell outside the 4096-byte memory.
    MemoryOutOfRange,
    /// A keypad opcode named a key index outside 0..16.
    KeyOutOfRange,
}

/// The mathematical model of the machine state.
#[verifier::ext_equal]
pub ghost struct State {
    pub memory: Seq<u8>,
    pub registers: Seq<u8>,
    pub pc: u16,
    pub index: u16,
    pub display: Seq<u8>,
    pub keys: Seq<bool>,
    pub waiting_for_key: bool,
    pub key_register: int,
    pub delay_timer: u8,
    pub sound_timer: u8,
    pub stack: Seq<u16>,
    pub sp: int,
}

impl State {
    /// Well-formedness: every container has its fixed capacity, the stack
    /// pointer and the key-wait target register are in range, and while the
    /// machine waits for a key the program counter still addresses a full
    /// instruction (it was rolled back to the waiting instruction, which was
    /// fetched from a valid address).
    pub open spec fn wf(self) -> bool {
        &&& self.memory.len() == MEMORY_SIZE
        &&& self.registers.len() == NUM_REGISTERS
        &&& self.display.len() == DISPLAY_BYTES
        &&& self.keys.len() == NUM_KEYS
        &&& self.stack.len() == STACK_DEPTH
        &&& 0 <= self.sp <= STACK_DEPTH
        &&& 0 <= self.key_register < NUM_REGISTERS
        &&& (self.waiting_for_key ==> self.pc + 2 <= MEMORY_SIZE)
    }
}

/// The 80-byte font table: one 5-byte sprite per hexadecimal digit.
pub open spec fn spec_font() -> Seq<u8> {
    seq![
        0xF0u8, 0x90, 0x90, 0x90, 0xF0, // 0
        0x20, 0x60, 0x20, 0x20, 0x70, // 1
        0xF0, 0x10, 0xF0, 0x80, 0xF0, // 2
        0xF0, 0x10, 0xF0, 0x10, 0xF0, // 3
        0x90, 0x90, 0xF0, 0x10, 0x10, // 4
        0xF0, 0x80, 0xF0, 0x10, 0xF0, // 5
        0xF0, 0x80, 0xF0, 0x90, 0xF0, // 6
        0xF0, 0x10, 0x20, 0x40, 0x40, // 7
        0xF0, 0x90, 0xF0, 0x90, 0xF0, // 8
        0xF0, 0x90, 0xF0, 0x10, 0xF0, // 9
        0xF0, 0x90, 0xF0, 0x90, 0x90, // A
        0xE0, 0x90, 0xE0, 0x90, 0xE0, // B
        0xF0, 0x80, 0x80, 0x80, 0xF0, // C
        0xE0, 0x90, 0x90, 0x90, 0xE0, // D
        0xF0, 0x80, 0xF0, 0x80, 0xF0, // E
        0xF0, 0x80, 0xF0, 0x80, 0x80, // F
    ]
}

/// The state of a freshly constructed machine: memory zeroed but for the font
/// table, registers and timers zeroed, the program counter at the program
/// start, the display clear, no key pressed and the stack empty.
pub open spec fn spec_initial() -> State {
    State {
        memory: Seq::new(MEMORY_SIZE as nat, |j: int| {
            if FONT_BASE <= j < FONT_BASE + 80 {
                spec_font()[j - FONT_BASE]
            } else {
                0u8
            }
        }),
        registers: Seq::new(NUM_REGISTERS as nat, |j: int| 0u8),
        pc: PROGRAM_START as u16,
        index: 0,
        display: Seq::new(DISPLAY_BYTES as nat, |j: int| 0u8),
        keys: Seq::new(NUM_KEYS as nat, |j: int| false),
        waiting_for_key: false,
        key_register: 0,
        delay_timer: 0,
        sound_timer: 0,
        stack: Seq::new(STACK_DEPTH as nat, |j: int| 0u16),
        sp: 0,
    }
}

/// The CHIP-8 machine.
pub struct Chip8 {
    /// 4096 bytes of memory; the font table sits at `FONT_BASE`, programs at
    /// `PROGRAM_START`.
    pub memory: Vec<u8>,
    /// The 16 general-purpose registers V0..VF; VF doubles as the
    /// carry/borrow/collision flag.
    pub registers: Vec<u8>,
    /// Address of the next instruction to fetch.
    pub pc: u16,
    /// The index register used by memory-indexed opcodes.
    pub i: u16,
    /// 64x32 pixels packed 8 per byte, row-major: 256 bytes.
    pub display: Vec<u8>,
    /// Current pressed state of the 16 keys.
    pub keys: Vec<bool>,
    /// True while a key-wait opcode suspends instruction progress.
    pub waiting_for_key: bool,
    /// The register that receives the next pressed key while waiting.
    pub key_register: usize,
    /// Delay timer; decremented once per frame until it reaches zero.
    pub delay_timer: u8,
    /// Sound timer; decremented once per frame until it reaches zero.
    pub sound_timer: u8,
    /// Return addresses of the subroutine calls in progress.
    pub stack: Vec<u16>,
    /// Number of return addresses currently on the stack.
    pub sp: usize,
}

impl View for Chip8 {
    type V = State;

    open spec fn view(&self) -> State {
        State {
            memory: self.memory@,
            registers: self.registers@,
            pc: self.pc,
            index: self.i,
            display: self.display@,
            keys: self.keys@,
            waiting_for_key: self.waiting_for_key,
            key_register: self.key_register as int,
            delay_timer: self.delay_timer,
            sound_timer: self.sound_timer,
            stack: self.stack@,
            sp: self.sp as int,
        }
    }
}

/// A vector of `len` copies of `val`.
fn filled<T: Copy>(len: usize, val: T) -> (v: Vec<T>)
    ensures
        v@ == Seq::new(len as nat, |j: int| val),
{
    let mut v: Vec<T> = Vec::new();
    let mut k: usize = 0;
    while k < len
        invariant
            k <= len,
            v@.len() == k,
            forall|j: int| 0 <= j < k ==> v@[j] == val,
        decreases len - k,
    {
        v.push(val);
        k = k + 1;
    }
    proof {
        assert(v@ =~= Seq::new(len as nat, |j: int| val));
    }
    v
}

/// A fully dark display bitmap.
pub(crate) fn cleared_display() -> (v: Vec<u8>)
    ensures
        v@ == Seq::new(DISPLAY_BYTES as nat, |j: int| 0u8),
{
    filled(DISPLAY_BYTES, 0u8)
}

/// The font table as a vector, in glyph order.
fn font_rom() -> (v: Vec<u8>)
    ensures
        v@ == spec_font(),
{
    let v: Vec<u8> = vec![
        0xF0u8, 0x90, 0x90, 0x90, 0xF0, // 0
        0x20, 0x60, 0x20, 0x20, 0x70, // 1
        0xF0, 0x10, 0xF0, 0x80, 0xF0, // 2
        0xF0, 0x10, 0xF0, 0x10, 0xF0, // 3
        0x90, 0x90, 0xF0, 0x10, 0x10, // 4
        0xF0, 0x80, 0xF0, 0x10, 0xF0, // 5
        0xF0, 0x80, 0xF0, 0x90, 0xF0, // 6
        0xF0, 0x10, 0x20, 0x40, 0x40, // 7
        0xF0, 0x90, 0xF0, 0x90, 0xF0, // 8
        0xF0, 0x90, 0xF0, 0x10, 0xF0, // 9
        0xF0, 0x90, 0xF0, 0x90, 0x90, // A
        0xE0, 0x90, 0xE0, 0x90, 0xE0, // B
        0xF0, 0x80, 0x80, 0x80, 0xF0, // C
        0xE0, 0x90, 0x90, 0x90, 0xE0, // D
        0xF0, 0x80, 0xF0, 0x80, 0xF0, // E
        0xF0, 0x80, 0xF0, 0x80, 0x80, // F
    ];
    proof {
        assert(v@ =~= spec_font());
    }
    v
}

impl Chip8 {
    /// Builds a machine with memory and registers zeroed, the program counter
    /// at the program start and the font table installed at `FONT_BASE`.
    pub fn new() -> (c: Chip8)
        ensures
            c.wf(),
            c@ == spec_initial(),
    {
        let mut memory: Vec<u8> = filled(MEMORY_SIZE, 0u8);
        let font: Vec<u8> = font_rom();
        let mut k: usize = 0;
        while k < 80
            invariant
                k <= 80,
                memory@.len() == MEMORY_SIZE,
                font@ == spec_font(),
                forall|j: int|
                    0 <= j < MEMORY_SIZE && !(FONT_BASE <= j < FONT_BASE + k) ==> memory@[j] == 0u8,
                forall|j: int|
                    FONT_BASE <= j < FONT_BASE + k ==> memory@[j] == spec_font()[j - FONT_BASE],
            decreases 80 - k,
        {
            memory.set(FONT_BASE + k, font[k]);
            k = k + 1;
        }
        let c = Chip8 {
            memory,
            registers: filled(NUM_REGISTERS, 0u8),
            pc: PROGRAM_START as u16,
            i: 0,
            display: filled(DISPLAY_BYTES, 0u8),
            keys: filled(NUM_KEYS, false),
            waiting_for_key: false,
            key_register: 0,
            delay_timer: 0,
            sound_timer: 0,
            stack: filled(STACK_DEPTH, 0u16),
            sp: 0,
        };
        proof {
            assert(c@.memory =~= spec_initial().memory);
            assert(c@ =~= spec_initial());
        }
        c
    }

    /// Well-formedness of the machine, stated on its model.
    pub open spec fn wf(&self) -> bool {
        self@.wf()
    }

    /// Copies a ROM image verbatim into memory starting at `PROGRAM_START`.
    /// The image must fit in the memory above the reserved area.
    pub fn load_program(&mut self, program: &[u8])
        requires
            old(self).wf(),
            program@.len() <= MEMORY_SIZE - PROGRAM_START,
        ensures
            final(self).wf(),
            final(self)@ == (State {
                memory: Seq::new(MEMORY_SIZE as nat, |j: int| {
                    if PROGRAM_START <= j < PROGRAM_START + program@.len() {
                        program@[j - PROGRAM_START]
                    } else {
                        old(self)@.memory[j]
                    }
                }),
                ..old(self)@
            }),
    {
        let len = program.len();
        let mut k: usize = 0;
        while k < len
            invariant
                k <= len,
                len == program@.len(),
                len <= MEMORY_SIZE - PROGRAM_START,
                self.memory@.len() == MEMORY_SIZE,
                forall|j: int|
                    PROGRAM_START <= j < PROGRAM_START + k ==> self.memory@[j] == program@[j - PROGRAM_START],
                forall|j: int|
                    0 <= j < MEMORY_SIZE && !(PROGRAM_START <= j < PROGRAM_START + k)
                        ==> self.memory@[j] == old(self)@.memory[j],
                self.registers == old(self).registers,
                self.pc == old(self).pc,
                self.i == old(self).i,
                self.display == old(self).display,
                self.keys == old(self).keys,
                self.waiting_for_key == old(self).waiting_for_key,
                self.key_register == old(self).key_register,
                self.delay_timer == old(self).delay_timer,
                self.sound_timer == old(self).sound_timer,
                self.stack == old(self).stack,
                self.sp == old(self).sp,
            decreases len - k,
        {
            self.memory.set(PROGRAM_START + k, program[k]);
            k = k + 1;
        }
        proof {
            assert(self@.memory =~= Seq::new(MEMORY_SIZE as nat, |j: int| {
                if PROGRAM_START <= j < PROGRAM_START + program@.len() {
                    program@[j - PROGRAM_START]
                } else {
                    old(self)@.memory[j]
                }
            }));
            assert(self@ =~= State {
                memory: self@.memory,
                ..old(self)@
            });
        }
    }

    /// Records the pressed state of one key; the host calls this for each key
    /// before every frame.
    pub fn set_key(&mut self, key: usize, pressed: bool)
        requires
            old(self).wf(),
            key < NUM_KEYS,
        ensures
            final(self).wf(),
            final(self)@ == (State { keys: old(self)@.keys.update(key as int, pressed), ..old(self)@ }),
    {
        self.keys.set(key, pressed);
        proof {
            assert(self@ =~= State { keys: old(self)@.keys.update(key as int, pressed), ..old(self)@ });
        }
    }

    /// Decrements each nonzero timer by one; both saturate at zero.  The
    /// driver calls this exactly once per rendered frame, independent of how
    /// many instruction cycles ran in that frame.
    pub fn update_timers(&mut self)
        requires
            old(self).wf(),
        ensures
            final(self).wf(),
            final(self)@ == (State {
                delay_timer: if old(self)@.delay_timer > 0 {
                    (old(self)@.delay_timer - 1) as u8
                } else {
                    0u8
                },
                sound_timer: if old(self)@.sound_timer > 0 {
                    (old(self)@.sound_timer - 1) as u8
                } else {
                    0u8
                },
                ..old(self)@
            }),
    {
        if self.delay_timer > 0 {
            self.delay_timer = self.delay_timer - 1;
        }
        if self.sound_timer > 0 {
            self.sound_timer = self.sound_timer - 1;
        }
        proof {
            assert(self@ =~= State {
                delay_timer: self@.delay_timer,
                sound_timer: self@.sound_timer,
                ..old(self)@
            });
        }
    }
}

} // verus!
