use vstd::prelude::*;
use crate::model::{
    MachineState, Quirks, Fault, RomError, MEMORY_SIZE, STACK_SIZE, NUM_REGISTERS, NUM_KEYS,
    DISPLAY_WIDTH, DISPLAY_HEIGHT, FONT_START, FONT_SIZE, PROGRAM_START, MAX_ROM_SIZE, FLAG,
    zeroed, initial, quirks_for, with_rom, tick, word_at, fetchable, advance, set_v_flag,
    skip_if, addr, lights, xor_row, row_collides, in_sprite_rows, sprite_row,
    collides, draw, lowest_pressed, lemma_offset, wait_key, offset_from, store_registers, load_registers,
    store_bcd, add_to_index, ret, call, alu, misc, execute, step, outcome, blank_display, font,
};
use crate::opcode::OpCode;

verus! {

/// The CHIP-8 virtual machine: memory, registers, stack, timers,
/// framebuffer, keypad and the quirk setting it was built with.
///
/// PC is a twelve-bit register: every value written to it is taken modulo
/// 0x1000, so it always addresses memory. I is sixteen bits wide, and memory
/// accesses through it use its low twelve bits (addresses wrap round the end
/// of memory). Its behaviour is stated over `MachineState`, its view.
pub struct Chip8 {
    memory: [u8; MEMORY_SIZE],
    display: [[bool; DISPLAY_WIDTH]; DISPLAY_HEIGHT],
    program_counter: u16,
    index_register: u16,
    stack: [u16; STACK_SIZE],
    delay_timer: u8,
    sound_timer: u8,
    registers: [u8; NUM_REGISTERS],
    stack_pointer: usize,
    keypad: [bool; NUM_KEYS],
    quirks: Quirks,
}

/// A framebuffer as rows of cells.
pub open spec fn display_view(d: [[bool; DISPLAY_WIDTH]; DISPLAY_HEIGHT]) -> Seq<Seq<bool>> {
    d@.map_values(|row: [bool; DISPLAY_WIDTH]| row@)
}

impl View for Chip8 {
    type V = MachineState;

    closed spec fn view(&self) -> MachineState {
        MachineState {
            memory: self.memory@,
            display: display_view(self.display),
            pc: self.program_counter,
            i: self.index_register,
            stack: self.stack@,
            sp: self.stack_pointer as int,
            dt: self.delay_timer,
            st: self.sound_timer,
            v: self.registers@,
            keypad: self.keypad@,
            quirks: self.quirks,
        }
    }
}

/// Where the cell at (column, row) `p` comes in reading order.
pub open spec fn cell_rank(p: (u32, u32)) -> int {
    p.1 * DISPLAY_WIDTH + p.0
}

/// Microseconds in one 60 Hz timer period.
pub const TIMER_INTERVAL_MICROS: u64 = 16_666;

/// What the host must do with its tone generator.
#[derive(Clone, Copy, Debug, PartialEq, Eq, Structural)]
pub enum SoundCommand {
    /// Start the tone.
    Resume,
    /// Stop the tone.
    Pause,
    /// Leave it as it is.
    Keep,
}

/// The beeper command for a sound timer that is (or is not) running and a
/// tone that is (or is not) playing.
pub open spec fn sound_command(active: bool, playing: bool) -> SoundCommand {
    if active && !playing {
        SoundCommand::Resume
    } else if !active && playing {
        SoundCommand::Pause
    } else {
        SoundCommand::Keep
    }
}

impl Default for Chip8 {
    /// A zeroed machine with legacy shifts and no font.
    fn default() -> (r: Self)
        ensures
            r@ == zeroed(quirks_for(false)),
    {
        Chip8::zeroed_with(
            Quirks {
                shift_uses_vy: true,
                load_store_increments_i: false,
                jump_offset_uses_vx: false,
                index_overflow_sets_vf: false,
            },
        )
    }
}

impl Chip8 {
    #[verifier::type_invariant]
    spec fn bounded(&self) -> bool {
        &&& self.program_counter <= 0xFFF
        &&& self.stack_pointer <= STACK_SIZE
        &&& forall|k: int| 0 <= k < STACK_SIZE ==> #[trigger] self.stack[k] <= 0xFFF
    }

    /// The type invariant seen through the model.
    proof fn lemma_wf(&self)
        requires
            self.bounded(),
        ensures
            self@.wf(),
    {
        assert forall|r: int| 0 <= r < DISPLAY_HEIGHT implies #[trigger] self@.display[r].len()
            == DISPLAY_WIDTH by {
            assert(self@.display[r] == self.display[r]@);
        }
    }

    /// A zeroed machine with the given quirks and no font.
    fn zeroed_with(quirks: Quirks) -> (r: Self)
        ensures
            r@ == zeroed(quirks),
    {
        let r = Chip8 {
            memory: [0u8; MEMORY_SIZE],
            display: [[false; DISPLAY_WIDTH]; DISPLAY_HEIGHT],
            program_counter: PROGRAM_START as u16,
            index_register: 0,
            stack: [0u16; STACK_SIZE],
            delay_timer: 0,
            sound_timer: 0,
            registers: [0u8; NUM_REGISTERS],
            stack_pointer: 0,
            keypad: [false; NUM_KEYS],
            quirks,
        };
        assert(r@.memory =~= zeroed(quirks).memory);
        let ghost row = [false; DISPLAY_WIDTH];
        assert(row@ =~= Seq::new(DISPLAY_WIDTH as nat, |c: int| false));
        assert forall|y: int| 0 <= y < DISPLAY_HEIGHT implies #[trigger] r@.display[y]
            == zeroed(quirks).display[y] by {
            assert(r.display[y] == row);
        }
        assert(r@.display =~= zeroed(quirks).display);
        assert(r@.stack =~= zeroed(quirks).stack);
        assert(r@.v =~= zeroed(quirks).v);
        assert(r@.keypad =~= zeroed(quirks).keypad);
        r
    }

    /// A machine ready to run: everything zeroed, PC at 0x200, the font
    /// installed at 0x050, with the given quirks.
    pub fn with_quirks(quirks: Quirks) -> (r: Self)
        ensures
            r@ == initial(quirks),
            r@.wf(),
    {
        let mut r = Chip8::zeroed_with(quirks);
        let fonts: [u8; FONT_SIZE] = [
            0xF0, 0x90, 0x90, 0x90, 0xF0,
            0x20, 0x60, 0x20, 0x20, 0x70,
            0xF0, 0x10, 0xF0, 0x80, 0xF0,
            0xF0, 0x10, 0xF0, 0x10, 0xF0,
            0x90, 0x90, 0xF0, 0x10, 0x10,
            0xF0, 0x80, 0xF0, 0x10, 0xF0,
            0xF0, 0x80, 0xF0, 0x90, 0xF0,
            0xF0, 0x10, 0x20, 0x40, 0x40,
            0xF0, 0x90, 0xF0, 0x90, 0xF0,
            0xF0, 0x90, 0xF0, 0x10, 0xF0,
            0xF0, 0x90, 0xF0, 0x90, 0x90,
            0xE0, 0x90, 0xE0, 0x90, 0xE0,
            0xF0, 0x80, 0x80, 0x80, 0xF0,
            0xE0, 0x90, 0x90, 0x90, 0xE0,
            0xF0, 0x80, 0xF0, 0x80, 0xF0,
            0xF0, 0x80, 0xF0, 0x80, 0x80,
        ];
        assert(fonts@ =~= font());
        let ghost z = r@;
        let mut k: usize = 0;
        while k < FONT_SIZE
            invariant
                k <= FONT_SIZE,
                fonts@ == font(),
                z == zeroed(quirks),
                r@ == (MachineState { memory: r@.memory, ..z }),
                r@.memory.len() == MEMORY_SIZE,
                forall|a: int|
                    0 <= a < MEMORY_SIZE ==> #[trigger] r@.memory[a] == if FONT_START <= a
                        < FONT_START + k {
                        font()[a - FONT_START]
                    } else {
                        0u8
                    },
            decreases FONT_SIZE - k,
        {
            proof {
                use_type_invariant(&r);
            }
            r.memory[FONT_START + k] = fonts[k];
            k += 1;
        }
        assert(r@.memory =~= initial(quirks).memory);
        proof {
            use_type_invariant(&r);
            r.lemma_wf();
        }
        r
    }

    /// A machine ready to run, as `with_quirks`: `modern` selects in-place
    /// shifts, otherwise 8XY6 / 8XYE shift VY; every other quirk is off.
    pub fn new(modern: bool) -> (r: Self)
        ensures
            r@ == initial(quirks_for(modern)),
            r@.wf(),
    {
        Chip8::with_quirks(
            Quirks {
                shift_uses_vy: !modern,
                load_store_increments_i: false,
                jump_offset_uses_vx: false,
                index_overflow_sets_vf: false,
            },
        )
    }

    /// Copies `rom` into memory from 0x200 on. A program longer than the
    /// 3584 bytes that fit there is refused and nothing is changed.
    pub fn load_rom(&mut self, rom: Vec<u8>) -> (r: Result<(), RomError>)
        ensures
            r is Ok <==> rom@.len() <= MAX_ROM_SIZE,
            r is Ok ==> final(self)@ == with_rom(old(self)@, rom@),
            r is Err ==> r == Err::<(), RomError>(RomError::TooLarge { size: rom@.len() as usize })
                && final(self)@ == old(self)@,
    {
        proof {
            use_type_invariant(&*self);
        }
        if rom.len() > MAX_ROM_SIZE {
            return Err(RomError::TooLarge { size: rom.len() });
        }
        let ghost s0 = self@;
        let mut k: usize = 0;
        while k < rom.len()
            invariant
                k <= rom@.len() <= MAX_ROM_SIZE,
                s0.memory.len() == MEMORY_SIZE,
                self@ == (MachineState { memory: self@.memory, ..s0 }),
                self@.memory.len() == MEMORY_SIZE,
                forall|a: int|
                    0 <= a < MEMORY_SIZE ==> #[trigger] self@.memory[a] == if PROGRAM_START <= a
                        < PROGRAM_START + k {
                        rom@[a - PROGRAM_START]
                    } else {
                        s0.memory[a]
                    },
            decreases rom@.len() - k,
        {
            proof {
                use_type_invariant(&*self);
            }
            self.memory[PROGRAM_START + k] = rom[k];
            k += 1;
        }
        assert(self@.memory =~= with_rom(s0, rom@).memory);
        Ok(())
    }

    /// One 60 Hz tick: each of the delay and sound timers that is above zero
    /// goes down by one.
    pub fn tick_timers(&mut self)
        ensures
            final(self)@ == tick(old(self)@),
    {
        proof {
            use_type_invariant(&*self);
        }
        if self.delay_timer > 0 {
            self.delay_timer -= 1;
        }
        if self.sound_timer > 0 {
            self.sound_timer -= 1;
        }
    }

    /// Ticks the timers once when more than one 60 Hz period has passed
    /// since the last tick: `elapsed_micros` is the time since then. Tells
    /// whether it ticked, so that the caller restarts its clock.
    pub fn update_timers(&mut self, elapsed_micros: u64) -> (ticked: bool)
        ensures
            ticked == (elapsed_micros > TIMER_INTERVAL_MICROS),
            final(self)@ == if ticked { tick(old(self)@) } else { old(self)@ },
    {
        if elapsed_micros > TIMER_INTERVAL_MICROS {
            self.tick_timers();
            true
        } else {
            false
        }
    }

    /// Whether a tone should sound: the sound timer is above zero.
    pub fn sound_active(&self) -> (r: bool)
        ensures
            r == (self@.st > 0),
    {
        self.sound_timer > 0
    }

    /// What the beeper must do, given whether it is playing now: start when
    /// the sound timer is above zero and it is silent, stop when the timer is
    /// zero and it plays, else nothing.
    pub fn update_sound(&self, playing: bool) -> (r: SoundCommand)
        ensures
            r == sound_command(self@.st > 0, playing),
    {
        if self.sound_timer > 0 {
            if !playing {
                SoundCommand::Resume
            } else {
                SoundCommand::Keep
            }
        } else if playing {
            SoundCommand::Pause
        } else {
            SoundCommand::Keep
        }
    }

    /// Marks key `k` as held down.
    pub fn press_key(&mut self, k: usize)
        requires
            k < NUM_KEYS,
        ensures
            final(self)@ == (MachineState { keypad: old(self)@.keypad.update(k as int, true), ..old(self)@ }),
    {
        proof {
            use_type_invariant(&*self);
        }
        self.keypad[k] = true;
    }

    /// Marks key `k` as released.
    pub fn release_key(&mut self, k: usize)
        requires
            k < NUM_KEYS,
        ensures
            final(self)@ == (MachineState { keypad: old(self)@.keypad.update(k as int, false), ..old(self)@ }),
    {
        proof {
            use_type_invariant(&*self);
        }
        self.keypad[k] = false;
    }

    /// Whether key `k` is held down.
    pub fn is_key_pressed(&self, k: usize) -> (r: bool)
        requires
            k < NUM_KEYS,
        ensures
            r == self@.keypad[k as int],
    {
        self.keypad[k]
    }

    /// The framebuffer, rows top first.
    pub fn display(&self) -> (r: &[[bool; DISPLAY_WIDTH]; DISPLAY_HEIGHT])
        ensures
            display_view(*r) == self@.display,
    {
        &self.display
    }

    /// The lit cells of the framebuffer as (column, row) pairs, each once,
    /// in reading order: top row first, left to right within a row.
    pub fn lit_pixels(&self) -> (r: Vec<(u32, u32)>)
        ensures
            forall|k: int|
                0 <= k < r@.len() ==> (#[trigger] r@[k]).0 < DISPLAY_WIDTH && r@[k].1
                    < DISPLAY_HEIGHT && self@.display[r@[k].1 as int][r@[k].0 as int],
            forall|k: int, j: int|
                0 <= k < j < r@.len() ==> cell_rank(#[trigger] r@[k]) < cell_rank(#[trigger] r@[j]),
            forall|x: int, y: int|
                0 <= x < DISPLAY_WIDTH && 0 <= y < DISPLAY_HEIGHT && #[trigger] self@.display[y][x]
                    ==> exists|k: int| 0 <= k < r@.len() && #[trigger] r@[k] == (x as u32, y as u32),
    {
        let mut r: Vec<(u32, u32)> = Vec::new();
        let mut y: usize = 0;
        while y < DISPLAY_HEIGHT
            invariant
                y <= DISPLAY_HEIGHT,
                forall|k: int|
                    0 <= k < r@.len() ==> (#[trigger] r@[k]).0 < DISPLAY_WIDTH && r@[k].1
                        < DISPLAY_HEIGHT && self@.display[r@[k].1 as int][r@[k].0 as int]
                        && cell_rank(r@[k]) < y * DISPLAY_WIDTH,
                forall|k: int, j: int|
                    0 <= k < j < r@.len() ==> cell_rank(#[trigger] r@[k]) < cell_rank(
                        #[trigger] r@[j],
                    ),
                forall|cx: int, cy: int|
                    0 <= cx < DISPLAY_WIDTH && 0 <= cy < y && #[trigger] self@.display[cy][cx]
                        ==> exists|k: int| 0 <= k < r@.len() && #[trigger] r@[k] == (cx as u32, cy as u32),
            decreases DISPLAY_HEIGHT - y,
        {
            let mut x: usize = 0;
            while x < DISPLAY_WIDTH
                invariant
                    y < DISPLAY_HEIGHT,
                    x <= DISPLAY_WIDTH,
                    forall|k: int|
                        0 <= k < r@.len() ==> (#[trigger] r@[k]).0 < DISPLAY_WIDTH && r@[k].1
                            < DISPLAY_HEIGHT && self@.display[r@[k].1 as int][r@[k].0 as int]
                            && cell_rank(r@[k]) < y * DISPLAY_WIDTH + x,
                    forall|k: int, j: int|
                        0 <= k < j < r@.len() ==> cell_rank(#[trigger] r@[k]) < cell_rank(
                            #[trigger] r@[j],
                        ),
                    forall|cx: int, cy: int|
                        0 <= cx < DISPLAY_WIDTH && 0 <= cy < DISPLAY_HEIGHT && (cy < y || (cy == y
                            && cx < x)) && #[trigger] self@.display[cy][cx] ==> exists|k: int|
                            0 <= k < r@.len() && #[trigger] r@[k] == (cx as u32, cy as u32),
                decreases DISPLAY_WIDTH - x,
            {
                assert(self@.display[y as int] == self.display[y as int]@);
                if self.display[y][x] {
                    let ghost before = r@;
                    r.push((x as u32, y as u32));
                    proof {
                        assert forall|cx: int, cy: int|
                            0 <= cx < DISPLAY_WIDTH && 0 <= cy < DISPLAY_HEIGHT && (cy < y || (cy
                                == y && cx < x + 1)) && #[trigger] self@.display[cy][cx] implies exists|k: int|
                            0 <= k < r@.len() && #[trigger] r@[k] == (cx as u32, cy as u32) by {
                            if cy == y && cx == x {
                                assert(r@[before.len() as int] == (cx as u32, cy as u32));
                            } else {
                                let k = choose|k: int| 0 <= k < before.len() && #[trigger] before[k] == (cx as u32, cy as u32);
                                assert(r@[k] == before[k]);
                            }
                        }
                    }
                }
                x += 1;
            }
            y += 1;
        }
        r
    }

    pub fn program_counter(&self) -> (r: u16)
        ensures
            r == self@.pc,
    {
        self.program_counter
    }

    pub fn index_register(&self) -> (r: u16)
        ensures
            r == self@.i,
    {
        self.index_register
    }

    /// Register V`x`.
    pub fn register(&self, x: usize) -> (r: u8)
        requires
            x < NUM_REGISTERS,
        ensures
            r == self@.v[x as int],
    {
        self.registers[x]
    }

    pub fn stack_pointer(&self) -> (r: usize)
        ensures
            r == self@.sp,
    {
        self.stack_pointer
    }

    pub fn delay_timer(&self) -> (r: u8)
        ensures
            r == self@.dt,
    {
        self.delay_timer
    }

    pub fn sound_timer(&self) -> (r: u8)
        ensures
            r == self@.st,
    {
        self.sound_timer
    }

    /// The byte at memory address `a`.
    pub fn memory_at(&self, a: usize) -> (r: u8)
        requires
            a < MEMORY_SIZE,
        ensures
            r == self@.memory[a as int],
    {
        self.memory[a]
    }

    pub fn quirks(&self) -> (r: Quirks)
        ensures
            r == self@.quirks,
    {
        self.quirks
    }

    /// Reads the instruction at PC, high byte first, and advances PC past it.
    /// Fails, leaving the machine as it was, when the instruction's second
    /// byte would lie past the end of memory.
    pub fn fetch(&mut self) -> (r: Result<u16, Fault>)
        ensures
            r is Ok <==> fetchable(old(self)@.pc),
            r matches Ok(w) ==> w == word_at(old(self)@.memory, old(self)@.pc as int) && final(self)@
                == advance(old(self)@),
            r matches Err(e) ==> e == (Fault::FetchOutOfRange { pc: old(self)@.pc }) && final(self)@
                == old(self)@,
    {
        proof {
            use_type_invariant(&*self);
        }
        let pc = self.program_counter as usize;
        if pc + 1 >= MEMORY_SIZE {
            return Err(Fault::FetchOutOfRange { pc: self.program_counter });
        }
        let hi = self.memory[pc] as u16;
        let lo = self.memory[pc + 1] as u16;
        self.program_counter = (self.program_counter + 2) % 0x1000;
        proof {
            lemma_word(hi, lo);
        }
        Ok(hi << 8 | lo)
    }

    /// Splits an instruction word into (category, X, Y, N, NN, NNN).
    pub fn decode(&mut self, opcode: &u16) -> (r: (u8, u8, u8, u8, u8, u16))
        ensures
            *final(self) == *old(self),
            ({
                let op = OpCode::spec_decode(*opcode);
                r == (op.c, op.x, op.y, op.n, op.nn, op.nnn)
            }),
    {
        let op = OpCode::decode(opcode);
        (op.c, op.x, op.y, op.n, op.nn, op.nnn)
    }

    /// Skips the next instruction when `cond` holds.
    fn skip_when(&mut self, cond: bool)
        ensures
            final(self)@ == skip_if(old(self)@, cond),
    {
        proof {
            use_type_invariant(&*self);
        }
        if cond {
            self.program_counter = (self.program_counter + 2) % 0x1000;
        }
    }

    /// Pushes PC and jumps to `addr`.
    fn call_subroutine(&mut self, addr: u16)
        requires
            old(self)@.sp < STACK_SIZE,
            addr <= 0xFFF,
        ensures
            final(self)@ == call(old(self)@, addr),
    {
        proof {
            use_type_invariant(&*self);
        }
        self.stack[self.stack_pointer] = self.program_counter;
        self.stack_pointer += 1;
        self.program_counter = addr;
    }

    /// Pops the return address into PC.
    fn return_subroutine(&mut self)
        requires
            old(self)@.sp > 0,
        ensures
            final(self)@ == ret(old(self)@),
    {
        proof {
            use_type_invariant(&*self);
        }
        self.stack_pointer -= 1;
        let addr = self.stack[self.stack_pointer];
        self.program_counter = addr;
    }

    /// Runs the instruction word `w`, fetched at `at`, on a machine whose PC
    /// already points past it. On a fault nothing is changed.
    fn execute(&mut self, at: u16, w: u16, rnd: u8) -> (r: Result<(), Fault>)
        ensures
            outcome(r, final(self)@) == execute(old(self)@, at, w, rnd),
            r is Err ==> final(self)@ == old(self)@,
    {
        proof {
            use_type_invariant(&*self);
        }
        let op = OpCode::decode(&w);
        let x = op.x as usize;
        let vx = self.registers[x];
        let vy = self.registers[op.y as usize];
        let unknown = Err(Fault::UnknownOpcode { pc: at, opcode: w });
        match op.c {
            0x0 => {
                if w == 0x00E0 {
                    self.display = [[false; DISPLAY_WIDTH]; DISPLAY_HEIGHT];
                    proof {
                        let ghost row = [false; DISPLAY_WIDTH];
                        assert(row@ =~= Seq::new(DISPLAY_WIDTH as nat, |c: int| false));
                        assert forall|y: int| 0 <= y < DISPLAY_HEIGHT implies #[trigger] self@.display[y]
                            == blank_display()[y] by {
                            assert(self.display[y] == row);
                        }
                        assert(self@.display =~= blank_display());
                    }
                } else if w == 0x00EE {
                    if self.stack_pointer == 0 {
                        return Err(Fault::StackUnderflow { pc: at, opcode: w });
                    }
                    self.return_subroutine();
                } else {
                    return unknown;
                }
            },
            0x1 => {
                self.program_counter = op.nnn;
            },
            0x2 => {
                if self.stack_pointer >= STACK_SIZE {
                    return Err(Fault::StackOverflow { pc: at, opcode: w });
                }
                self.call_subroutine(op.nnn);
            },
            0x3 => self.skip_when(vx == op.nn),
            0x4 => self.skip_when(vx != op.nn),
            0x5 => {
                if op.n != 0 {
                    return unknown;
                }
                self.skip_when(vx == vy);
            },
            0x6 => {
                self.registers[x] = op.nn;
            },
            0x7 => {
                self.registers[x] = ((vx as u16 + op.nn as u16) % 256) as u8;
            },
            0x8 => {
                if !self.execute_alu(op) {
                    return unknown;
                }
            },
            0x9 => {
                if op.n != 0 {
                    return unknown;
                }
                self.skip_when(vx != vy);
            },
            0xA => {
                self.index_register = op.nnn;
            },
            0xB => {
                let offset = if self.quirks.jump_offset_uses_vx { vx } else { self.registers[0] };
                self.program_counter = (op.nnn + offset as u16) % 0x1000;
            },
            0xC => {
                self.registers[x] = rnd & op.nn;
            },
            0xD => self.draw_sprite(vx, vy, op.n),
            0xE => {
                if op.nn == 0x9E {
                    let pressed = self.keypad[(vx % 16) as usize];
                    self.skip_when(pressed);
                } else if op.nn == 0xA1 {
                    let pressed = self.keypad[(vx % 16) as usize];
                    self.skip_when(!pressed);
                } else {
                    return unknown;
                }
            },
            _ => {
                if !self.execute_misc(op) {
                    return unknown;
                }
            },
        }
        Ok(())
    }

    /// One fetch-decode-execute step, with `random` as the byte that CXNN
    /// draws. On a fault the machine is left as it was. Either way the
    /// machine's bounds hold afterwards.
    pub fn cycle_with_random(&mut self, random: u8) -> (r: Result<(), Fault>)
        ensures
            outcome(r, final(self)@) == step(old(self)@, random),
            r is Err ==> final(self)@ == old(self)@,
            final(self)@.wf(),
    {
        proof {
            use_type_invariant(&*self);
        }
        let at = self.program_counter;
        let r = match self.fetch() {
            Ok(w) => {
                let r = self.execute(at, w, random);
                if r.is_err() {
                    self.program_counter = at;
                }
                r
            },
            Err(e) => Err(e),
        };
        proof {
            use_type_invariant(&*self);
            self.lemma_wf();
        }
        r
    }

    /// One fetch-decode-execute step, drawing the random byte for CXNN from
    /// the thread-local generator. On a fault the machine is left as it was.
    pub fn cycle(&mut self) -> (r: Result<(), Fault>)
        ensures
            exists|rnd: u8| outcome(r, final(self)@) == #[trigger] step(old(self)@, rnd),
            r is Err ==> final(self)@ == old(self)@,
            final(self)@.wf(),
    {
        let rnd = random_byte();
        self.cycle_with_random(rnd)
    }

    /// DXYN: draws the `n`-row sprite at I with its top-left corner at
    /// (VX mod 64, VY mod 32), clipping at the right and bottom edges; VF
    /// becomes 1 when a lit pixel went off, 0 otherwise.
    fn draw_sprite(&mut self, vx: u8, vy: u8, n: u8)
        ensures
            final(self)@ == draw(old(self)@, vx, vy, n),
    {
        proof {
            use_type_invariant(&*self);
            self.lemma_wf();
        }
        let ghost s0 = self@;
        let x0 = (vx % 64) as usize;
        let y0 = (vy % 32) as usize;
        let mut hit = false;
        let mut row: usize = 0;
        while row < n as usize && y0 + row < DISPLAY_HEIGHT
            invariant
                s0.wf(),
                x0 == (vx as int) % (DISPLAY_WIDTH as int),
                y0 == (vy as int) % (DISPLAY_HEIGHT as int),
                y0 + row <= DISPLAY_HEIGHT,
                row <= n,
                self@ == (MachineState { display: self@.display, ..s0 }),
                self@.display.len() == DISPLAY_HEIGHT,
                forall|r: int|
                    0 <= r < DISPLAY_HEIGHT ==> #[trigger] self@.display[r] == if y0 <= r < y0
                        + row {
                        xor_row(s0.display[r], x0 as int, sprite_row(s0, y0 as int, r))
                    } else {
                        s0.display[r]
                    },
                hit == exists|r: int|
                    y0 <= r < y0 + row && #[trigger] in_sprite_rows(y0 as int, n as int, r)
                        && row_collides(s0.display[r], x0 as int, sprite_row(s0, y0 as int, r)),
            decreases n - row,
        {
            proof {
                use_type_invariant(&*self);
            }
            let ghost before = self.display;
            let a = (self.index_register as usize + row) % MEMORY_SIZE;
            let b = self.memory[a];
            assert(b == sprite_row(s0, y0 as int, (y0 + row) as int));
            let y = y0 + row;
            let mut line = self.display[y];
            assert(self@.display[y as int] == line@);
            let h = draw_row(&mut line, x0, b);
            self.display[y] = line;
            if h {
                hit = true;
            }
            proof {
                assert forall|r: int| 0 <= r < DISPLAY_HEIGHT implies #[trigger] self@.display[r]
                    == if r == y { line@ } else { before[r]@ } by {
                    assert(self@.display[r] == self.display[r]@);
                    assert(display_view(before)[r] == before[r]@);
                    assert(self.display@ == before@.update(y as int, line));
                    if r != y {
                        assert(self.display@[r] == before@[r]);
                    }
                }
                assert forall|r: int| 0 <= r < DISPLAY_HEIGHT implies #[trigger] self@.display[r]
                    == if y0 <= r < y0 + row + 1 {
                    xor_row(s0.display[r], x0 as int, sprite_row(s0, y0 as int, r))
                } else {
                    s0.display[r]
                } by {
                    if r != y {
                        assert(self@.display[r] == display_view(before)[r]);
                    }
                }
                if h {
                    assert(in_sprite_rows(y0 as int, n as int, y as int));
                }
            }
            row += 1;
        }
        self.registers[FLAG] = if hit { 1 } else { 0 };
        proof {
            let t = draw(s0, vx, vy, n);
            assert(self@.display =~= t.display);
            assert(hit == collides(s0, x0 as int, y0 as int, n as int));
            assert(self@.v =~= t.v);
        }
    }

    /// FX0A: with no key down, winds PC back onto this instruction; otherwise
    /// stores the lowest pressed key in VX and releases it.
    fn wait_for_key(&mut self, x: u8)
        requires
            x < 16,
        ensures
            final(self)@ == wait_key(old(self)@, x as int),
    {
        proof {
            use_type_invariant(&*self);
        }
        let ghost s0 = self@;
        let mut k: usize = 0;
        while k < NUM_KEYS && !self.keypad[k]
            invariant
                k <= NUM_KEYS,
                self@ == s0,
                lowest_pressed(s0.keypad, 0) == lowest_pressed(s0.keypad, k as int),
            decreases NUM_KEYS - k,
        {
            k += 1;
        }
        if k < NUM_KEYS {
            self.registers[x as usize] = k as u8;
            self.keypad[k] = false;
            assert(lowest_pressed(s0.keypad, k as int) == k);
        } else {
            self.program_counter = (self.program_counter + 0xFFE) % 0x1000;
        }
    }

    /// FX55: stores V0..=VX into memory from I on.
    fn store_registers(&mut self, x: u8)
        requires
            x < 16,
        ensures
            final(self)@ == store_registers(old(self)@, x as int),
    {
        proof {
            use_type_invariant(&*self);
        }
        let ghost s0 = self@;
        let i = self.index_register;
        let mut k: usize = 0;
        while k <= x as usize
            invariant
                x < 16,
                k <= x + 1,
                i == s0.i,
                s0.v.len() == NUM_REGISTERS,
                self@ == (MachineState { memory: self@.memory, ..s0 }),
                self@.memory.len() == MEMORY_SIZE,
                forall|a: int|
                    0 <= a < MEMORY_SIZE ==> #[trigger] self@.memory[a] == if offset_from(i, a)
                        < k {
                        s0.v[offset_from(i, a)]
                    } else {
                        s0.memory[a]
                    },
            decreases x + 1 - k,
        {
            proof {
                use_type_invariant(&*self);
            }
            let a = (i as usize + k) % MEMORY_SIZE;
            self.memory[a] = self.registers[k];
            proof {
                assert forall|b: int| 0 <= b < MEMORY_SIZE implies (offset_from(i, b) == k) <==> (b
                    == a) by {
                    lemma_offset(i, k as int, b);
                }
            }
            k += 1;
        }
        if self.quirks.load_store_increments_i {
            self.index_register = ((i as u32 + x as u32 + 1) % 0x10000) as u16;
        }
        assert(self@.memory =~= store_registers(s0, x as int).memory);
    }

    /// FX65: loads V0..=VX from memory from I on.
    fn load_registers(&mut self, x: u8)
        requires
            x < 16,
        ensures
            final(self)@ == load_registers(old(self)@, x as int),
    {
        proof {
            use_type_invariant(&*self);
        }
        let ghost s0 = self@;
        let i = self.index_register;
        let mut k: usize = 0;
        while k <= x as usize
            invariant
                x < 16,
                k <= x + 1,
                i == s0.i,
                s0.memory.len() == MEMORY_SIZE,
                self@ == (MachineState { v: self@.v, ..s0 }),
                self@.v.len() == NUM_REGISTERS,
                forall|j: int|
                    0 <= j < NUM_REGISTERS ==> #[trigger] self@.v[j] == if j < k {
                        s0.memory[addr(i, j)]
                    } else {
                        s0.v[j]
                    },
            decreases x + 1 - k,
        {
            proof {
                use_type_invariant(&*self);
            }
            self.registers[k] = self.memory[(i as usize + k) % MEMORY_SIZE];
            k += 1;
        }
        if self.quirks.load_store_increments_i {
            self.index_register = ((i as u32 + x as u32 + 1) % 0x10000) as u16;
        }
        assert(self@.v =~= load_registers(s0, x as int).v);
    }

    /// FX33: writes the hundreds, tens and units digits of `b` at I, I+1, I+2.
    fn store_bcd(&mut self, b: u8)
        ensures
            final(self)@ == store_bcd(old(self)@, b),
    {
        proof {
            use_type_invariant(&*self);
        }
        let i = self.index_register as usize;
        self.memory[i % MEMORY_SIZE] = b / 100;
        self.memory[(i + 1) % MEMORY_SIZE] = (b / 10) % 10;
        self.memory[(i + 2) % MEMORY_SIZE] = b % 10;
    }

    /// FX1E: adds VX to I modulo 2^16; under the quirk VF tells whether I
    /// went past 0x0FFF.
    fn add_to_index(&mut self, x: u8)
        requires
            x < 16,
        ensures
            final(self)@ == add_to_index(old(self)@, x as int),
    {
        proof {
            use_type_invariant(&*self);
        }
        let sum = self.index_register as u32 + self.registers[x as usize] as u32;
        self.index_register = (sum % 0x10000) as u16;
        if self.quirks.index_overflow_sets_vf {
            self.registers[FLAG] = if sum > 0xFFF { 1 } else { 0 };
        }
    }

    /// Runs one instruction of the 8XYN family; false, with nothing changed,
    /// when N names no instruction.
    fn execute_alu(&mut self, op: OpCode) -> (known: bool)
        requires
            op.x < 16,
            op.y < 16,
        ensures
            match alu(old(self)@, op) {
                Some(t) => known && final(self)@ == t,
                None => !known && final(self)@ == old(self)@,
            },
    {
        proof {
            use_type_invariant(&*self);
        }
        let x = op.x as usize;
        let vx = self.registers[x];
        let vy = self.registers[op.y as usize];
        match op.n {
            0x0 => {
                self.registers[x] = vy;
            },
            0x1 => {
                self.registers[x] = vx | vy;
            },
            0x2 => {
                self.registers[x] = vx & vy;
            },
            0x3 => {
                self.registers[x] = vx ^ vy;
            },
            0x4 => self.add_xy(op.x, op.y),
            0x5 => self.subtract_xy(op.x, op.y),
            0x7 => self.subtract_yx(op.x, op.y),
            0x6 => {
                let src = if self.quirks.shift_uses_vy { vy } else { vx };
                self.registers[x] = src >> 1u8;
                self.registers[FLAG] = src & 1u8;
            },
            0xE => {
                let src = if self.quirks.shift_uses_vy { vy } else { vx };
                self.registers[x] = src << 1u8;
                self.registers[FLAG] = (src >> 7u8) & 1u8;
            },
            _ => {
                return false;
            },
        }
        true
    }

    /// Runs one instruction of the FX.. family; false, with nothing changed,
    /// when the low byte names no instruction.
    fn execute_misc(&mut self, op: OpCode) -> (known: bool)
        requires
            op.x < 16,
        ensures
            match misc(old(self)@, op) {
                Some(t) => known && final(self)@ == t,
                None => !known && final(self)@ == old(self)@,
            },
    {
        proof {
            use_type_invariant(&*self);
        }
        let x = op.x as usize;
        let vx = self.registers[x];
        match op.nn {
            0x07 => {
                self.registers[x] = self.delay_timer;
            },
            0x0A => self.wait_for_key(op.x),
            0x15 => {
                self.delay_timer = vx;
            },
            0x18 => {
                self.sound_timer = vx;
            },
            0x1E => self.add_to_index(op.x),
            0x29 => {
                self.index_register = FONT_START as u16 + (vx % 16) as u16 * 5;
            },
            0x33 => self.store_bcd(vx),
            0x55 => self.store_registers(op.x),
            0x65 => self.load_registers(op.x),
            _ => {
                return false;
            },
        }
        true
    }

    /// 8XY4: VX plus VY modulo 256, then VF set to the carry.
    fn add_xy(&mut self, x: u8, y: u8)
        requires
            x < 16,
            y < 16,
        ensures
            ({
                let vx = old(self)@.v[x as int];
                let vy = old(self)@.v[y as int];
                final(self)@ == set_v_flag(old(self)@, x as int, ((vx + vy) % 256) as u8, if vx + vy > 255 { 1 } else { 0 })
            }),
    {
        proof {
            use_type_invariant(&*self);
        }
        let vx = self.registers[x as usize];
        let vy = self.registers[y as usize];
        let sum = vx as u16 + vy as u16;
        self.registers[x as usize] = (sum % 256) as u8;
        self.registers[FLAG] = if sum > 255 { 1 } else { 0 };
    }

    /// 8XY5: VX minus VY modulo 256, then VF set to 1 when no borrow occurred.
    fn subtract_xy(&mut self, x: u8, y: u8)
        requires
            x < 16,
            y < 16,
        ensures
            ({
                let vx = old(self)@.v[x as int];
                let vy = old(self)@.v[y as int];
                final(self)@ == set_v_flag(old(self)@, x as int, ((vx - vy) % 256) as u8, if vx >= vy { 1 } else { 0 })
            }),
    {
        proof {
            use_type_invariant(&*self);
        }
        let vx = self.registers[x as usize];
        let vy = self.registers[y as usize];
        let val = if vx >= vy { vx - vy } else { (256 + vx as u16 - vy as u16) as u8 };
        self.registers[x as usize] = val;
        self.registers[FLAG] = if vx >= vy { 1 } else { 0 };
    }

    /// 8XY7: VY minus VX modulo 256, then VF set to 1 when no borrow occurred.
    fn subtract_yx(&mut self, x: u8, y: u8)
        requires
            x < 16,
            y < 16,
        ensures
            ({
                let vx = old(self)@.v[x as int];
                let vy = old(self)@.v[y as int];
                final(self)@ == set_v_flag(old(self)@, x as int, ((vy - vx) % 256) as u8, if vy >= vx { 1 } else { 0 })
            }),
    {
        proof {
            use_type_invariant(&*self);
        }
        let vx = self.registers[x as usize];
        let vy = self.registers[y as usize];
        let val = if vy >= vx { vy - vx } else { (256 + vy as u16 - vx as u16) as u8 };
        self.registers[x as usize] = val;
        self.registers[FLAG] = if vy >= vx { 1 } else { 0 };
    }
}

/// Relies on `rand::random`: a byte from the thread-local generator; any
/// value may come back.
#[verifier::external_body]
fn random_byte() -> (r: u8) {
    rand::random::<u8>()
}

/// Reading the two instruction bytes high-first gives the big-endian word.
proof fn lemma_word(hi: u16, lo: u16)
    requires
        hi < 256,
        lo < 256,
    ensures
        (hi << 8u16) | lo == hi * 256 + lo,
{
    assert((hi << 8u16) | lo == hi * 256 + lo) by (bit_vector)
        requires
            hi < 256,
            lo < 256,
    ;
}

/// XORs the sprite row `b` into `row` with its left edge at column `x0`,
/// clipping at the right edge; tells whether a lit cell went off.
fn draw_row(row: &mut [bool; DISPLAY_WIDTH], x0: usize, b: u8) -> (hit: bool)
    requires
        x0 < DISPLAY_WIDTH,
    ensures
        final(row)@ == xor_row(old(row)@, x0 as int, b),
        hit == row_collides(old(row)@, x0 as int, b),
{
    let mut hit = false;
    let mut col: usize = 0;
    while col < 8 && x0 + col < DISPLAY_WIDTH
        invariant
            x0 < DISPLAY_WIDTH,
            col <= 8,
            x0 + col <= DISPLAY_WIDTH,
            forall|c: int|
                0 <= c < DISPLAY_WIDTH ==> #[trigger] row@[c] == if c < x0 + col {
                    old(row)@[c] != lights(b, x0 as int, c)
                } else {
                    old(row)@[c]
                },
            hit == exists|c: int|
                0 <= c < x0 + col && #[trigger] lights(b, x0 as int, c) && old(row)@[c],
        decreases 8 - col,
    {
        let c = x0 + col;
        let on = (b >> ((7 - col) as u8)) & 1u8 == 1u8;
        assert(on == lights(b, x0 as int, c as int));
        if on {
            if row[c] {
                hit = true;
            }
            row[c] = !row[c];
        }
        col += 1;
    }
    assert(final(row)@ =~= xor_row(old(row)@, x0 as int, b));
    assert(hit == row_collides(old(row)@, x0 as int, b)) by {
        if hit {
            let c = choose|c: int| 0 <= c < x0 + col && #[trigger] lights(b, x0 as int, c) && old(row)@[c];
            assert(0 <= c < DISPLAY_WIDTH && lights(b, x0 as int, c) && old(row)@[c]);
        }
        if row_collides(old(row)@, x0 as int, b) {
            let c = choose|c: int| 0 <= c < DISPLAY_WIDTH && #[trigger] lights(b, x0 as int, c) && old(row)@[c];
            assert(c < x0 + col);
        }
    }
    hit
}

} // verus!
