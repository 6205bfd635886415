use vstd::prelude::*;
use crate::opcode::OpCode;

verus! {

/// Bytes of addressable memory.
pub const MEMORY_SIZE: usize = 4096;
/// Depth of the return-address stack.
pub const STACK_SIZE: usize = 16;
/// Number of general-purpose registers V0..VF.
pub const NUM_REGISTERS: usize = 16;
/// Number of keys on the hex keypad.
pub const NUM_KEYS: usize = 16;
/// Framebuffer width in pixels.
pub const DISPLAY_WIDTH: usize = 64;
/// Framebuffer height in pixels.
pub const DISPLAY_HEIGHT: usize = 32;
/// Address of the first byte of the built-in hexadecimal font.
pub const FONT_START: usize = 0x050;
/// Size of the font: 16 glyphs of 5 bytes.
pub const FONT_SIZE: usize = 80;
/// Address at which programs are loaded and execution starts.
pub const PROGRAM_START: usize = 0x200;
/// Largest program that fits between `PROGRAM_START` and the end of memory.
pub const MAX_ROM_SIZE: usize = 3584;
/// Index of the flag register VF.
pub const FLAG: usize = 0xF;

/// Historical behaviour variants that programs disagree on, fixed when the
/// machine is built.
#[derive(Clone, Copy, Debug, PartialEq, Eq, Structural)]
pub struct Quirks {
    /// 8XY6 / 8XYE copy VY into VX before shifting.
    pub shift_uses_vy: bool,
    /// FX55 / FX65 leave I advanced past the last register transferred.
    pub load_store_increments_i: bool,
    /// BNNN adds VX (X the high nibble of NNN) instead of V0.
    pub jump_offset_uses_vx: bool,
    /// FX1E sets VF to 1 when I goes past 0x0FFF, and to 0 otherwise.
    pub index_overflow_sets_vf: bool,
}

/// A fatal machine error: the run cannot go on.
#[derive(Clone, Copy, Debug, PartialEq, Eq, Structural)]
pub enum Fault {
    /// The instruction at `pc` would extend past the last byte of memory.
    FetchOutOfRange { pc: u16 },
    /// The word fetched at `pc` is not an instruction of the machine.
    UnknownOpcode { pc: u16, opcode: u16 },
    /// A call at `pc` found all sixteen stack slots in use.
    StackOverflow { pc: u16, opcode: u16 },
    /// A return at `pc` found the stack empty.
    StackUnderflow { pc: u16, opcode: u16 },
}

/// Why a program image was refused.
#[derive(Clone, Copy, Debug, PartialEq, Eq, Structural)]
pub enum RomError {
    /// The image holds `size` bytes, more than `MAX_ROM_SIZE`.
    TooLarge { size: usize },
}

/// The mathematical state of the machine.
pub struct MachineState {
    pub memory: Seq<u8>,
    /// Rows of the framebuffer, top first; each row is a sequence of cells,
    /// leftmost first.
    pub display: Seq<Seq<bool>>,
    pub pc: u16,
    pub i: u16,
    pub stack: Seq<u16>,
    pub sp: int,
    pub dt: u8,
    pub st: u8,
    pub v: Seq<u8>,
    pub keypad: Seq<bool>,
    pub quirks: Quirks,
}

impl MachineState {
    /// The shape of every component, and the bounds that hold between steps:
    /// PC and every stack entry fit in twelve bits, SP is in 0..=16.
    pub open spec fn wf(self) -> bool {
        &&& self.memory.len() == MEMORY_SIZE
        &&& self.display.len() == DISPLAY_HEIGHT
        &&& forall|r: int| 0 <= r < DISPLAY_HEIGHT ==> #[trigger] self.display[r].len() == DISPLAY_WIDTH
        &&& self.stack.len() == STACK_SIZE
        &&& self.v.len() == NUM_REGISTERS
        &&& self.keypad.len() == NUM_KEYS
        &&& self.pc <= 0xFFF
        &&& 0 <= self.sp <= STACK_SIZE
        &&& forall|k: int| 0 <= k < STACK_SIZE ==> #[trigger] self.stack[k] <= 0xFFF
    }

    pub open spec fn vf(self) -> u8 {
        self.v[FLAG as int]
    }
}

/// The blank framebuffer.
pub open spec fn blank_display() -> Seq<Seq<bool>> {
    Seq::new(DISPLAY_HEIGHT as nat, |r: int| Seq::new(DISPLAY_WIDTH as nat, |c: int| false))
}

/// The built-in font: glyphs 0..F, five rows each, the high nibble of a byte
/// holding the row's four pixels.
pub open spec fn font() -> Seq<u8> {
    seq![
        0xF0u8, 0x90, 0x90, 0x90, 0xF0,
        0x20, 0x60, 0x20, 0x20, 0x70,
        0xF0, 0x10, 0xF0, 0x80, 0xF0,
        0xF0, 0x10, 0xF0, 0x10, 0xF0,
        0x90, 0x90, 0xF0, 0x10, 0x10,
        0xF0, 0x80, 0xF0, 0x10, 0xF0,
        0xF0, 0x80, 0xF0, 0x90, 0xF0,
        0xF0, 0x10, 0x20, 0x40, 0x40,
        0xF0, 0x90, 0xF0, 0x90, 0xF0,
        0xF0, 0x90, 0xF0, 0x10, 0xF0,
        0xF0, 0x90, 0xF0, 0x90, 0x90,
        0xE0, 0x90, 0xE0, 0x90, 0xE0,
        0xF0, 0x80, 0x80, 0x80, 0xF0,
        0xE0, 0x90, 0x90, 0x90, 0xE0,
        0xF0, 0x80, 0xF0, 0x80, 0xF0,
        0xF0, 0x80, 0xF0, 0x80, 0x80,
    ]
}

/// A machine with everything zeroed, PC at `PROGRAM_START` and no font.
pub open spec fn zeroed(quirks: Quirks) -> MachineState {
    MachineState {
        memory: Seq::new(MEMORY_SIZE as nat, |a: int| 0u8),
        display: blank_display(),
        pc: PROGRAM_START as u16,
        i: 0,
        stack: Seq::new(STACK_SIZE as nat, |k: int| 0u16),
        sp: 0,
        dt: 0,
        st: 0,
        v: Seq::new(NUM_REGISTERS as nat, |k: int| 0u8),
        keypad: Seq::new(NUM_KEYS as nat, |k: int| false),
        quirks,
    }
}

/// A freshly built machine: zeroed, with the font installed at `FONT_START`.
pub open spec fn initial(quirks: Quirks) -> MachineState {
    let z = zeroed(quirks);
    MachineState {
        memory: Seq::new(
            MEMORY_SIZE as nat,
            |a: int|
                if FONT_START <= a < FONT_START + FONT_SIZE {
                    font()[a - FONT_START]
                } else {
                    0u8
                },
        ),
        ..z
    }
}

/// The quirk setting selected by the `modern` switch: legacy shifts unless
/// modern, every other quirk off.
pub open spec fn quirks_for(modern: bool) -> Quirks {
    Quirks {
        shift_uses_vy: !modern,
        load_store_increments_i: false,
        jump_offset_uses_vx: false,
        index_overflow_sets_vf: false,
    }
}

/// Memory after copying `rom` to `PROGRAM_START`.
pub open spec fn with_rom(s: MachineState, rom: Seq<u8>) -> MachineState {
    MachineState {
        memory: Seq::new(
            MEMORY_SIZE as nat,
            |a: int|
                if PROGRAM_START <= a < PROGRAM_START + rom.len() {
                    rom[a - PROGRAM_START]
                } else {
                    s.memory[a]
                },
        ),
        ..s
    }
}

/// One 60 Hz timer tick: each timer above zero goes down by one.
pub open spec fn tick(s: MachineState) -> MachineState {
    MachineState {
        dt: if s.dt > 0 { (s.dt - 1) as u8 } else { 0 },
        st: if s.st > 0 { (s.st - 1) as u8 } else { 0 },
        ..s
    }
}

/// `n` timer ticks in a row.
pub open spec fn ticks(s: MachineState, n: nat) -> MachineState
    decreases n,
{
    if n == 0 {
        s
    } else {
        tick(ticks(s, (n - 1) as nat))
    }
}

/// The memory address `k` bytes past `base`: only the low twelve bits
/// address memory.
pub open spec fn addr(base: u16, k: int) -> int {
    (base + k) % (MEMORY_SIZE as int)
}

/// A program-counter value reduced to twelve bits.
pub open spec fn pc12(p: int) -> u16 {
    (p % 0x1000) as u16
}

/// The big-endian instruction word at `pc`.
pub open spec fn word_at(memory: Seq<u8>, pc: int) -> u16 {
    (memory[pc] * 256 + memory[pc + 1]) as u16
}

/// Whether the two bytes of an instruction at `pc` lie in memory.
pub open spec fn fetchable(pc: u16) -> bool {
    pc + 1 < MEMORY_SIZE
}

/// The state after fetching: PC advanced past the instruction.
pub open spec fn advance(s: MachineState) -> MachineState {
    MachineState { pc: pc12(s.pc + 2), ..s }
}

pub open spec fn set_v(s: MachineState, x: int, val: u8) -> MachineState {
    MachineState { v: s.v.update(x, val), ..s }
}

/// Register `x` set to `val`, then VF set to `flag`.
pub open spec fn set_v_flag(s: MachineState, x: int, val: u8, flag: u8) -> MachineState {
    MachineState { v: s.v.update(x, val).update(FLAG as int, flag), ..s }
}

/// Skips the next instruction when `cond` holds.
pub open spec fn skip_if(s: MachineState, cond: bool) -> MachineState {
    if cond {
        MachineState { pc: pc12(s.pc + 2), ..s }
    } else {
        s
    }
}

/// Whether pixel `k` (0 leftmost) of a sprite row byte is lit.
pub open spec fn sprite_bit(b: u8, k: int) -> bool {
    (b >> ((7 - k) as u8)) & 1u8 == 1u8
}

/// Whether the sprite row `b`, placed with its left edge at column `x0`,
/// lights column `c`; columns past the right edge are clipped.
pub open spec fn lights(b: u8, x0: int, c: int) -> bool {
    x0 <= c < x0 + 8 && c < DISPLAY_WIDTH && sprite_bit(b, c - x0)
}

/// A framebuffer row with the sprite row `b` XORed in at column `x0`.
pub open spec fn xor_row(row: Seq<bool>, x0: int, b: u8) -> Seq<bool> {
    Seq::new(DISPLAY_WIDTH as nat, |c: int| row[c] != lights(b, x0, c))
}

/// Whether XORing the sprite row `b` at column `x0` turns off a lit cell.
pub open spec fn row_collides(row: Seq<bool>, x0: int, b: u8) -> bool {
    exists|c: int| 0 <= c < DISPLAY_WIDTH && #[trigger] lights(b, x0, c) && row[c]
}

/// Whether screen row `r` is covered by an `n`-row sprite whose top is row
/// `y0`; rows past the bottom edge are clipped.
pub open spec fn in_sprite_rows(y0: int, n: int, r: int) -> bool {
    y0 <= r < y0 + n && r < DISPLAY_HEIGHT
}

/// The sprite byte that screen row `r` receives.
pub open spec fn sprite_row(s: MachineState, y0: int, r: int) -> u8 {
    s.memory[addr(s.i, r - y0)]
}

/// The framebuffer after drawing the `n`-row sprite at I, top-left corner at
/// (x0, y0).
pub open spec fn drawn(s: MachineState, x0: int, y0: int, n: int) -> Seq<Seq<bool>> {
    Seq::new(
        DISPLAY_HEIGHT as nat,
        |r: int|
            if in_sprite_rows(y0, n, r) {
                xor_row(s.display[r], x0, sprite_row(s, y0, r))
            } else {
                s.display[r]
            },
    )
}

/// Whether drawing that sprite turns off at least one lit pixel.
pub open spec fn collides(s: MachineState, x0: int, y0: int, n: int) -> bool {
    exists|r: int|
        0 <= r < DISPLAY_HEIGHT && #[trigger] in_sprite_rows(y0, n, r) && row_collides(
            s.display[r],
            x0,
            sprite_row(s, y0, r),
        )
}

/// DXYN: draw at (VX mod 64, VY mod 32); VF tells whether a pixel went off.
pub open spec fn draw(s: MachineState, vx: u8, vy: u8, n: u8) -> MachineState {
    let x0 = (vx as int) % (DISPLAY_WIDTH as int);
    let y0 = (vy as int) % (DISPLAY_HEIGHT as int);
    MachineState {
        display: drawn(s, x0, y0, n as int),
        v: s.v.update(FLAG as int, if collides(s, x0, y0, n as int) { 1u8 } else { 0u8 }),
        ..s
    }
}

/// The lowest pressed key at index `from` or above, or `NUM_KEYS` when none is.
pub open spec fn lowest_pressed(keys: Seq<bool>, from: int) -> int
    decreases NUM_KEYS - from,
{
    if from >= NUM_KEYS || from < 0 {
        NUM_KEYS as int
    } else if keys[from] {
        from
    } else {
        lowest_pressed(keys, from + 1)
    }
}

/// FX0A: with no key down, wind PC back so the instruction runs again;
/// otherwise store the lowest pressed key in VX and consume it.
pub open spec fn wait_key(s: MachineState, x: int) -> MachineState {
    let k = lowest_pressed(s.keypad, 0);
    if k == NUM_KEYS {
        MachineState { pc: pc12(s.pc + 0xFFE), ..s }
    } else {
        MachineState { v: s.v.update(x, k as u8), keypad: s.keypad.update(k, false), ..s }
    }
}

/// How far memory address `a` lies past I, counting round the end of memory.
pub open spec fn offset_from(i: u16, a: int) -> int {
    (a - i) % (MEMORY_SIZE as int)
}

/// FX55: V0..=VX stored from I on.
pub open spec fn store_registers(s: MachineState, x: int) -> MachineState {
    MachineState {
        memory: Seq::new(
            MEMORY_SIZE as nat,
            |a: int|
                if offset_from(s.i, a) <= x {
                    s.v[offset_from(s.i, a)]
                } else {
                    s.memory[a]
                },
        ),
        i: if s.quirks.load_store_increments_i { ((s.i + x + 1) % 0x10000) as u16 } else { s.i },
        ..s
    }
}

/// FX65: V0..=VX loaded from I on.
pub open spec fn load_registers(s: MachineState, x: int) -> MachineState {
    MachineState {
        v: Seq::new(
            NUM_REGISTERS as nat,
            |k: int|
                if k <= x {
                    s.memory[addr(s.i, k)]
                } else {
                    s.v[k]
                },
        ),
        i: if s.quirks.load_store_increments_i { ((s.i + x + 1) % 0x10000) as u16 } else { s.i },
        ..s
    }
}

/// FX33: the decimal digits of `b` written at I, I+1, I+2.
pub open spec fn store_bcd(s: MachineState, b: u8) -> MachineState {
    MachineState {
        memory: s.memory.update(addr(s.i, 0), b / 100).update(addr(s.i, 1), (b / 10) % 10).update(
            addr(s.i, 2),
            b % 10,
        ),
        ..s
    }
}

/// FX1E: I plus VX, modulo 2^16; VF reports going past 0x0FFF only under
/// the quirk.
pub open spec fn add_to_index(s: MachineState, x: int) -> MachineState {
    let sum = s.i + s.v[x];
    let t = MachineState { i: (sum % 0x10000) as u16, ..s };
    if s.quirks.index_overflow_sets_vf {
        set_v(t, FLAG as int, if sum > 0xFFF { 1 } else { 0 })
    } else {
        t
    }
}

/// 00EE: pop the return address.
pub open spec fn ret(s: MachineState) -> MachineState {
    MachineState { sp: s.sp - 1, pc: s.stack[s.sp - 1], ..s }
}

/// 2NNN: push PC and jump.
pub open spec fn call(s: MachineState, nnn: u16) -> MachineState {
    MachineState { stack: s.stack.update(s.sp, s.pc), sp: s.sp + 1, pc: nnn, ..s }
}

/// The 8XYN arithmetic and logic family.
pub open spec fn alu(s: MachineState, op: OpCode) -> Option<MachineState> {
    let x = op.x as int;
    let y = op.y as int;
    let vx = s.v[x];
    let vy = s.v[y];
    if op.n == 0x0 {
        Some(set_v(s, x, vy))
    } else if op.n == 0x1 {
        Some(set_v(s, x, vx | vy))
    } else if op.n == 0x2 {
        Some(set_v(s, x, vx & vy))
    } else if op.n == 0x3 {
        Some(set_v(s, x, vx ^ vy))
    } else if op.n == 0x4 {
        Some(set_v_flag(s, x, ((vx + vy) % 256) as u8, if vx + vy > 255 { 1 } else { 0 }))
    } else if op.n == 0x5 {
        Some(set_v_flag(s, x, ((vx - vy) % 256) as u8, if vx >= vy { 1 } else { 0 }))
    } else if op.n == 0x7 {
        Some(set_v_flag(s, x, ((vy - vx) % 256) as u8, if vy >= vx { 1 } else { 0 }))
    } else if op.n == 0x6 {
        let src = if s.quirks.shift_uses_vy { vy } else { vx };
        Some(set_v_flag(s, x, src >> 1u8, src & 1u8))
    } else if op.n == 0xE {
        let src = if s.quirks.shift_uses_vy { vy } else { vx };
        Some(set_v_flag(s, x, src << 1u8, (src >> 7u8) & 1u8))
    } else {
        None
    }
}

/// The FX.. family, selected by the low byte.
pub open spec fn misc(s: MachineState, op: OpCode) -> Option<MachineState> {
    let x = op.x as int;
    let vx = s.v[x];
    if op.nn == 0x07 {
        Some(set_v(s, x, s.dt))
    } else if op.nn == 0x0A {
        Some(wait_key(s, x))
    } else if op.nn == 0x15 {
        Some(MachineState { dt: vx, ..s })
    } else if op.nn == 0x18 {
        Some(MachineState { st: vx, ..s })
    } else if op.nn == 0x1E {
        Some(add_to_index(s, x))
    } else if op.nn == 0x29 {
        Some(MachineState { i: (FONT_START + (vx % 16) * 5) as u16, ..s })
    } else if op.nn == 0x33 {
        Some(store_bcd(s, vx))
    } else if op.nn == 0x55 {
        Some(store_registers(s, x))
    } else if op.nn == 0x65 {
        Some(load_registers(s, x))
    } else {
        None
    }
}

/// The effect of the instruction word `w`, fetched at `at`, on the state
/// `s` (whose PC already points past it). `rnd` is the random byte that
/// CXNN draws.
pub open spec fn execute(s: MachineState, at: u16, w: u16, rnd: u8) -> Result<MachineState, Fault> {
    let op = OpCode::spec_decode(w);
    let x = op.x as int;
    let vx = s.v[x];
    let vy = s.v[op.y as int];
    let unknown = Err(Fault::UnknownOpcode { pc: at, opcode: w });
    if op.c == 0x0 {
        if w == 0x00E0 {
            Ok(MachineState { display: blank_display(), ..s })
        } else if w == 0x00EE {
            if s.sp == 0 {
                Err(Fault::StackUnderflow { pc: at, opcode: w })
            } else {
                Ok(ret(s))
            }
        } else {
            unknown
        }
    } else if op.c == 0x1 {
        Ok(MachineState { pc: op.nnn, ..s })
    } else if op.c == 0x2 {
        if s.sp >= STACK_SIZE {
            Err(Fault::StackOverflow { pc: at, opcode: w })
        } else {
            Ok(call(s, op.nnn))
        }
    } else if op.c == 0x3 {
        Ok(skip_if(s, vx == op.nn))
    } else if op.c == 0x4 {
        Ok(skip_if(s, vx != op.nn))
    } else if op.c == 0x5 {
        if op.n == 0 {
            Ok(skip_if(s, vx == vy))
        } else {
            unknown
        }
    } else if op.c == 0x6 {
        Ok(set_v(s, x, op.nn))
    } else if op.c == 0x7 {
        Ok(set_v(s, x, ((vx + op.nn) % 256) as u8))
    } else if op.c == 0x8 {
        match alu(s, op) {
            Some(t) => Ok(t),
            None => unknown,
        }
    } else if op.c == 0x9 {
        if op.n == 0 {
            Ok(skip_if(s, vx != vy))
        } else {
            unknown
        }
    } else if op.c == 0xA {
        Ok(MachineState { i: op.nnn, ..s })
    } else if op.c == 0xB {
        let offset = if s.quirks.jump_offset_uses_vx { vx } else { s.v[0] };
        Ok(MachineState { pc: pc12(op.nnn + offset), ..s })
    } else if op.c == 0xC {
        Ok(set_v(s, x, rnd & op.nn))
    } else if op.c == 0xD {
        Ok(draw(s, vx, vy, op.n))
    } else if op.c == 0xE {
        if op.nn == 0x9E {
            Ok(skip_if(s, s.keypad[(vx % 16) as int]))
        } else if op.nn == 0xA1 {
            Ok(skip_if(s, !s.keypad[(vx % 16) as int]))
        } else {
            unknown
        }
    } else {
        match misc(s, op) {
            Some(t) => Ok(t),
            None => unknown,
        }
    }
}

/// One fetch-decode-execute step.
pub open spec fn step(s: MachineState, rnd: u8) -> Result<MachineState, Fault> {
    if !fetchable(s.pc) {
        Err(Fault::FetchOutOfRange { pc: s.pc })
    } else {
        execute(advance(s), s.pc, word_at(s.memory, s.pc as int), rnd)
    }
}

/// The outcome of a step as a `Result` over states: the state reached when
/// the step succeeded, the fault otherwise.
pub open spec fn outcome(r: Result<(), Fault>, s: MachineState) -> Result<MachineState, Fault> {
    match r {
        Ok(_) => Ok(s),
        Err(e) => Err(e),
    }
}

/// Stepping `k` bytes past I reaches address `a` exactly when `a` lies `k`
/// bytes past I.
pub proof fn lemma_offset(i: u16, k: int, a: int)
    requires
        0 <= k < MEMORY_SIZE,
        0 <= a < MEMORY_SIZE,
    ensures
        (offset_from(i, a) == k) <==> (a == addr(i, k)),
        0 <= offset_from(i, a) < MEMORY_SIZE,
        0 <= addr(i, k) < MEMORY_SIZE,
{
}

} // verus!
