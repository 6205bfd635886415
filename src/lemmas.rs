use vstd::prelude::*;
use crate::model::{
    MachineState, DISPLAY_WIDTH, DISPLAY_HEIGHT, STACK_SIZE, NUM_REGISTERS,
    step, execute, ticks, blank_display, draw, addr, lights, in_sprite_rows, sprite_row,
    sprite_bit, row_collides, collides, drawn, advance, word_at, lowest_pressed, NUM_KEYS,
};
use crate::opcode::{OpCode, lemma_fields};
use crate::model::{Fault, store_registers, load_registers, lemma_offset};

verus! {

/// Every successful step keeps the machine's bounds: PC within
/// 0..=0xFFF, SP within 0..=16, every stack entry within twelve bits,
/// every register, DT and ST a byte, I within sixteen bits, and the
/// framebuffer a 32 x 64 grid of cells.
pub proof fn lemma_step_keeps_bounds(s: MachineState, rnd: u8)
    requires
        s.wf(),
    ensures
        step(s, rnd) matches Ok(t) ==> {
            &&& t.wf()
            &&& 0 <= t.pc <= 0xFFF
            &&& 0 <= t.sp <= 16
            &&& forall|k: int| 0 <= k < NUM_REGISTERS ==> 0 <= #[trigger] t.v[k] <= 255
            &&& 0 <= t.dt <= 255 && 0 <= t.st <= 255
            &&& 0 <= t.i <= 0xFFFF
            &&& t.display.len() == 32
            &&& forall|r: int| 0 <= r < 32 ==> #[trigger] t.display[r].len() == 64
        },
{
    if let Ok(t) = step(s, rnd) {
        let a = advance(s);
        let w = word_at(s.memory, s.pc as int);
        lemma_execute_keeps_wf(a, s.pc, w, rnd);
    }
}

/// `n` ticks take a delay timer that is at least `n` down by exactly `n`.
pub proof fn lemma_ticks_count_down(s: MachineState, n: nat)
    requires
        s.dt >= n,
    ensures
        ticks(s, n).dt == s.dt - n,
    decreases n,
{
    if n > 0 {
        lemma_ticks_count_down(s, (n - 1) as nat);
    }
}

/// Ticks leave a delay timer that is at zero at zero.
pub proof fn lemma_ticks_stay_at_zero(s: MachineState, n: nat)
    requires
        s.dt == 0,
    ensures
        ticks(s, n).dt == 0,
    decreases n,
{
    if n > 0 {
        lemma_ticks_stay_at_zero(s, (n - 1) as nat);
    }
}

/// 00E0 leaves every framebuffer cell off, whatever the framebuffer held,
/// and running it again changes nothing.
pub proof fn lemma_clear_screen(s: MachineState, at: u16, rnd: u8)
    requires
        s.wf(),
    ensures
        execute(s, at, 0x00E0, rnd) matches Ok(t) && {
            &&& t.display == blank_display()
            &&& forall|r: int, c: int|
                0 <= r < DISPLAY_HEIGHT && 0 <= c < DISPLAY_WIDTH ==> !#[trigger] t.display[r][c]
            &&& execute(t, at, 0x00E0, rnd) == Ok::<MachineState, Fault>(t)
        },
{
    assert(OpCode::spec_decode(0x00E0).c == 0);
}

/// FX55 followed by FX65 with the same I gives V0..=VX back, whatever
/// memory held there, when the load/store quirk leaves I alone.
pub proof fn lemma_store_then_load(s: MachineState, x: u8, at: u16, rnd: u8)
    requires
        s.wf(),
        x < 16,
        !s.quirks.load_store_increments_i,
    ensures
        execute(s, at, (0xF055 + x * 0x100) as u16, rnd) matches Ok(t) && execute(
            t,
            at,
            (0xF065 + x * 0x100) as u16,
            rnd,
        ) matches Ok(u) && forall|k: int| 0 <= k <= x ==> #[trigger] u.v[k] == s.v[k],
{
    let store = (0xF055 + x * 0x100) as u16;
    let load = (0xF065 + x * 0x100) as u16;
    assert(OpCode::spec_decode(store) == OpCode { c: 0xF, x, y: 5, n: 5, nn: 0x55, nnn: (0x055 + x * 0x100) as u16 });
    assert(OpCode::spec_decode(load) == OpCode { c: 0xF, x, y: 6, n: 5, nn: 0x65, nnn: (0x065 + x * 0x100) as u16 });
    let t = store_registers(s, x as int);
    let u = load_registers(t, x as int);
    assert forall|k: int| 0 <= k <= x implies #[trigger] u.v[k] == s.v[k] by {
        lemma_offset(s.i, k, addr(s.i, k));
    }
}

/// FX33 writes the hundreds, tens and units digits of VX at I, I+1, I+2.
pub proof fn lemma_bcd_digits(s: MachineState, x: u8, at: u16, rnd: u8)
    requires
        s.wf(),
        x < 16,
    ensures
        execute(s, at, (0xF033 + x * 0x100) as u16, rnd) matches Ok(t) && {
            let b = s.v[x as int];
            &&& t.memory[addr(s.i, 0)] == b / 100
            &&& t.memory[addr(s.i, 1)] == (b / 10) % 10
            &&& t.memory[addr(s.i, 2)] == b % 10
        },
{
    let w = (0xF033 + x * 0x100) as u16;
    assert(OpCode::spec_decode(w) == OpCode { c: 0xF, x, y: 3, n: 3, nn: 0x33, nnn: (0x033 + x * 0x100) as u16 });
}

/// Whether every pixel that the sprite lights is already lit.
pub open spec fn sprite_shown(s: MachineState, x0: int, y0: int, n: int) -> bool {
    forall|r: int, c: int|
        0 <= r < DISPLAY_HEIGHT && 0 <= c < DISPLAY_WIDTH && in_sprite_rows(y0, n, r) && #[trigger] lights(
            sprite_row(s, y0, r),
            x0,
            c,
        ) ==> #[trigger] s.display[r][c]
}

/// Whether the sprite lights at least one on-screen pixel.
pub open spec fn sprite_visible(s: MachineState, x0: int, y0: int, n: int) -> bool {
    exists|r: int, c: int|
        0 <= r < DISPLAY_HEIGHT && 0 <= c < DISPLAY_WIDTH && in_sprite_rows(y0, n, r) && #[trigger] lights(
            sprite_row(s, y0, r),
            x0,
            c,
        )
}

/// Drawing a visible sprite over its own image erases it and sets VF to 1;
/// drawing it again restores the framebuffer and sets VF to 0.
pub proof fn lemma_draw_erases_then_restores(s: MachineState, vx: u8, vy: u8, n: u8)
    requires
        s.wf(),
        sprite_shown(s, (vx % 64) as int, (vy % 32) as int, n as int),
        sprite_visible(s, (vx % 64) as int, (vy % 32) as int, n as int),
    ensures
        ({
            let x0 = (vx % 64) as int;
            let y0 = (vy % 32) as int;
            let t = draw(s, vx, vy, n);
            let u = draw(t, vx, vy, n);
            &&& forall|r: int, c: int|
                0 <= r < DISPLAY_HEIGHT && 0 <= c < DISPLAY_WIDTH && in_sprite_rows(y0 as int, n as int, r)
                    && #[trigger] lights(sprite_row(s, y0 as int, r), x0 as int, c) ==> !#[trigger] t.display[r][c]
            &&& t.vf() == 1
            &&& u.display == s.display
            &&& u.vf() == 0
        }),
{
    let x0 = (vx % 64) as int;
    let y0 = (vy % 32) as int;
    let t = draw(s, vx, vy, n);
    let u = draw(t, vx, vy, n);
    let (r0, c0) = choose|r: int, c: int|
        0 <= r < DISPLAY_HEIGHT && 0 <= c < DISPLAY_WIDTH && in_sprite_rows(y0, n as int, r) && #[trigger] lights(
            sprite_row(s, y0, r),
            x0,
            c,
        );
    assert(s.display[r0][c0]);
    assert(row_collides(s.display[r0], x0, sprite_row(s, y0, r0)));
    assert(collides(s, x0, y0, n as int));
    assert forall|r: int| 0 <= r < DISPLAY_HEIGHT implies #[trigger] u.display[r] =~= s.display[r] by {
        assert(sprite_row(t, y0, r) == sprite_row(s, y0, r));
    }
    assert(u.display =~= s.display);
    if collides(t, x0, y0, n as int) {
        let r = choose|r: int|
            0 <= r < DISPLAY_HEIGHT && #[trigger] in_sprite_rows(y0, n as int, r) && row_collides(
                t.display[r],
                x0,
                sprite_row(t, y0, r),
            );
        let c = choose|c: int|
            0 <= c < DISPLAY_WIDTH && #[trigger] lights(sprite_row(t, y0, r), x0, c) && t.display[r][c];
        assert(sprite_row(t, y0, r) == sprite_row(s, y0, r));
        assert(s.display[r][c]);
    }
}

/// DXYN at (63, 31) with five rows changes only the bottom-right cell,
/// which takes the sprite's top-left pixel; the rest is clipped.
pub proof fn lemma_draw_clipped_corner(s: MachineState)
    requires
        s.wf(),
    ensures
        ({
            let t = draw(s, 63, 31, 5);
            forall|r: int, c: int|
                0 <= r < DISPLAY_HEIGHT && 0 <= c < DISPLAY_WIDTH ==> #[trigger] t.display[r][c] == if r
                    == 31 && c == 63 {
                    s.display[r][c] != sprite_bit(s.memory[addr(s.i, 0)], 0)
                } else {
                    s.display[r][c]
                }
        }),
{
}

/// DXYN at (65, 33) with one row draws at (1, 1): the start position wraps,
/// and only row 1 from column 1 on changes.
pub proof fn lemma_draw_wrapped_start(s: MachineState)
    requires
        s.wf(),
    ensures
        ({
            let t = draw(s, 65, 33, 1);
            forall|r: int, c: int|
                0 <= r < DISPLAY_HEIGHT && 0 <= c < DISPLAY_WIDTH ==> #[trigger] t.display[r][c] == if r
                    == 1 && 1 <= c < 9 {
                    s.display[r][c] != sprite_bit(s.memory[addr(s.i, 0)], c - 1)
                } else {
                    s.display[r][c]
                }
        }),
{
}

/// A call with fifteen return addresses stacked succeeds and fills the
/// stack; a call with sixteen stacked is a stack overflow, and a return with
/// none stacked is a stack underflow.
pub proof fn lemma_stack_limits(s: MachineState, nnn: u16, at: u16, rnd: u8)
    requires
        s.wf(),
        nnn <= 0xFFF,
    ensures
        s.sp == 15 ==> (execute(s, at, (0x2000 + nnn) as u16, rnd) matches Ok(t) && t.sp == 16
            && t.pc == nnn),
        s.sp == 16 ==> execute(s, at, (0x2000 + nnn) as u16, rnd) == Err::<MachineState, Fault>(
            Fault::StackOverflow { pc: at, opcode: (0x2000 + nnn) as u16 },
        ),
        s.sp == 0 ==> execute(s, at, 0x00EE, rnd) == Err::<MachineState, Fault>(
            Fault::StackUnderflow { pc: at, opcode: 0x00EE },
        ),
{
    let w = (0x2000 + nnn) as u16;
    assert(OpCode::spec_decode(w).c == 2);
    assert(OpCode::spec_decode(w).nnn == nnn);
    assert(OpCode::spec_decode(0x00EE).c == 0);
}

/// The lowest pressed key from `from` on lies between `from` and the
/// number of keys.
proof fn lemma_lowest_pressed_range(keys: Seq<bool>, from: int)
    requires
        0 <= from <= NUM_KEYS,
    ensures
        from <= lowest_pressed(keys, from) <= NUM_KEYS,
    decreases NUM_KEYS - from,
{
    if from < NUM_KEYS && !keys[from] {
        lemma_lowest_pressed_range(keys, from + 1);
    }
}

/// Every instruction that runs keeps the state well formed.
proof fn lemma_execute_keeps_wf(s: MachineState, at: u16, w: u16, rnd: u8)
    requires
        s.wf(),
    ensures
        execute(s, at, w, rnd) matches Ok(t) ==> t.wf(),
{
    let op = OpCode::spec_decode(w);
    lemma_fields(w);
    if let Ok(t) = execute(s, at, w, rnd) {
        if op.c == 0x0 {
            if w == 0x00E0 {
                assert(t.wf());
            } else {
                assert(t.wf());
            }
        } else if op.c == 0x2 {
            assert forall|k: int| 0 <= k < STACK_SIZE implies #[trigger] t.stack[k] <= 0xFFF by {
                if k != s.sp {
                    assert(t.stack[k] == s.stack[k]);
                }
            }
            assert(t.wf());
        } else if op.c == 0x8 {
            assert(t.wf());
        } else if op.c == 0xD {
            let x0 = (s.v[op.x as int] as int) % (DISPLAY_WIDTH as int);
            let y0 = (s.v[op.y as int] as int) % (DISPLAY_HEIGHT as int);
            assert forall|r: int| 0 <= r < DISPLAY_HEIGHT implies #[trigger] t.display[r].len()
                == DISPLAY_WIDTH by {
                assert(t.display[r] == drawn(s, x0, y0, op.n as int)[r]);
            }
            assert(t.wf());
        } else if op.c == 0xF {
            if op.nn == 0x0A {
                lemma_lowest_pressed_range(s.keypad, 0);
                assert(t.wf());
            } else if op.nn == 0x33 {
                assert(t.wf());
            } else if op.nn == 0x55 {
                assert(t.wf());
            } else if op.nn == 0x65 {
                assert(t.wf());
            } else {
                assert(t.wf());
            }
        } else {
            assert(t.wf());
        }
    }
}

} // verus!
