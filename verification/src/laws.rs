//! Laws of the machine: properties that relate several transitions, or
//! several instructions, proved once and for all over the model.

use crate::model::draw_collision;
use crate::model::draw_hits;
use crate::model::fetch;
use crate::model::flip_pixel;
use crate::model::op_cat;
use crate::model::op_n;
use crate::model::op_nn;
use crate::model::op_nnn;
use crate::model::op_x;
use crate::model::op_y;
use crate::model::pixel_index;
use crate::model::screen_after_draw;
use crate::model::spec_key_down;
use crate::model::spec_step;
use crate::model::sprite_bit;
use crate::model::ErrorKind;
use crate::model::Model;
use crate::model::StepResult;
use vstd::prelude::*;

verus! {

/// Clearing the screen: when a running machine fetches 00E0, the step
/// succeeds, every pixel of the framebuffer comes out 0, and the program
/// counter advances by one instruction.
pub proof fn lemma_clear_screen(m: Model, b: u8)
    requires
        m.wf(),
        m.wait is None,
        m.pc <= 4094,
        fetch(m) == 0x00E0,
    ensures
        spec_step(m, b).1 == StepResult::Executed,
        forall|p: int| 0 <= p < 2048 ==> spec_step(m, b).0.screen[p] == 0,
        spec_step(m, b).0.pc == m.pc + 2,
{
    assert(0x00E0u16 >> 12 == 0x0) by (bit_vector);
}

/// The call/return round trip: a subroutine call whose target holds a
/// return instruction comes back to the instruction after the call, with
/// the stack depth it started from.
pub proof fn lemma_call_return_round_trip(m: Model, b1: u8, b2: u8)
    requires
        m.wf(),
        m.wait is None,
        m.pc <= 4094,
        op_cat(fetch(m)) == 0x2,
        m.sp < 24,
        op_nnn(fetch(m)) <= 4094,
        m.mem[op_nnn(fetch(m)) as int] == 0x00,
        m.mem[op_nnn(fetch(m)) as int + 1] == 0xEE,
    ensures
        spec_step(m, b1).1 == StepResult::Executed,
        spec_step(spec_step(m, b1).0, b2).1 == StepResult::Executed,
        spec_step(spec_step(m, b1).0, b2).0.pc == m.pc + 2,
        spec_step(spec_step(m, b1).0, b2).0.sp == m.sp,
{
    let m1 = spec_step(m, b1).0;
    assert(m1.pc == op_nnn(fetch(m)));
    assert(fetch(m1) == ((0x00u16) << 8) | (0xEEu16));
    assert(((0x00u16) << 8) | (0xEEu16) == 0x00EE) by (bit_vector);
    assert(0x00EEu16 >> 12 == 0x0) by (bit_vector);
    assert(m1.sp == m.sp + 1);
    assert(m1.stack[m.sp as int] == (m.pc + 2) as u16);
}

/// Register dump then load: after FX55 at the program counter and FX65
/// with the same X and the same I right after it, every register holds
/// what it held before, and I was changed by neither instruction.
pub proof fn lemma_dump_load_round_trip(m: Model, b1: u8, b2: u8)
    requires
        m.wf(),
        m.wait is None,
        m.pc <= 4092,
        op_cat(fetch(m)) == 0xF,
        op_nn(fetch(m)) == 0x55,
        m.i + op_x(fetch(m)) + 1 <= 4096,
        op_cat(fetch(spec_step(m, b1).0)) == 0xF,
        op_nn(fetch(spec_step(m, b1).0)) == 0x65,
        op_x(fetch(spec_step(m, b1).0)) == op_x(fetch(m)),
    ensures
        spec_step(m, b1).1 == StepResult::Executed,
        spec_step(spec_step(m, b1).0, b2).1 == StepResult::Executed,
        spec_step(m, b1).0.i == m.i,
        spec_step(spec_step(m, b1).0, b2).0.i == m.i,
        spec_step(spec_step(m, b1).0, b2).0.v == m.v,
{
    let m1 = spec_step(m, b1).0;
    let m2 = spec_step(m1, b2).0;
    let x = op_x(fetch(m)) as int;
    let i = m.i as int;
    assert(forall|j: int| 0 <= j <= x ==> m1.mem[i + j] == m.v[j]);
    assert(m2.v =~= m.v);
}

/// Drawing the same sprite at the same coordinates twice toggles every
/// touched pixel back: the sprite blit is its own inverse on a bit-valued
/// framebuffer.
pub proof fn lemma_draw_twice_restores(
    screen: Seq<u8>,
    mem: Seq<u8>,
    i: int,
    vx: int,
    vy: int,
    n: int,
)
    requires
        screen.len() == 2048,
        forall|p: int| 0 <= p < 2048 ==> screen[p] == 0 || screen[p] == 1,
    ensures
        screen_after_draw(screen_after_draw(screen, mem, i, vx, vy, n), mem, i, vx, vy, n)
            == screen,
{
    let once = screen_after_draw(screen, mem, i, vx, vy, n);
    let twice = screen_after_draw(once, mem, i, vx, vy, n);
    assert forall|p: int| 0 <= p < 2048 implies twice[p] == screen[p] by {
        if draw_hits(mem, i, vx, vy, n, p) {
            assert(twice[p] == flip_pixel(flip_pixel(screen[p])));
        }
    }
    assert(twice =~= screen);
}

/// Executing the same draw instruction twice from a clear screen: the
/// first pass reports no collision, the second pass reports one and puts
/// every pixel back.  The coordinate registers may not be VF, which the
/// draw itself overwrites, and the sprite must have at least one set bit
/// for the second pass to collide.
pub proof fn lemma_draw_twice_collides(m: Model, b1: u8, b2: u8)
    requires
        m.wf(),
        m.wait is None,
        m.pc <= 4092,
        op_cat(fetch(m)) == 0xD,
        op_x(fetch(m)) != 15,
        op_y(fetch(m)) != 15,
        op_n(fetch(m)) > 0,
        m.i + op_n(fetch(m)) <= 4096,
        exists|r: int, c: int|
            0 <= r < op_n(fetch(m)) && 0 <= c < 8 && #[trigger] sprite_bit(
                m.mem[m.i + r],
                c,
            ),
        forall|p: int| 0 <= p < 2048 ==> m.screen[p] == 0,
        fetch(spec_step(m, b1).0) == fetch(m),
    ensures
        spec_step(m, b1).1 == StepResult::Executed,
        spec_step(spec_step(m, b1).0, b2).1 == StepResult::Executed,
        spec_step(m, b1).0.v[15] == 0,
        spec_step(spec_step(m, b1).0, b2).0.v[15] == 1,
        spec_step(spec_step(m, b1).0, b2).0.screen == m.screen,
{
    let op = fetch(m);
    crate::model::lemma_op_field_bounds(op);
    let n = op_n(op) as int;
    let vx = m.v[op_x(op) as int] as int;
    let vy = m.v[op_y(op) as int] as int;
    let gi = m.i as int;
    let m1 = spec_step(m, b1).0;
    let m2 = spec_step(m1, b2).0;
    // No pixel of a clear screen is set, so the first pass cannot collide.
    assert(!draw_collision(m.screen, m.mem, gi, vx, vy, n));
    // The second pass reads the same sprite at the same coordinates.
    assert(m1.mem == m.mem && m1.i == m.i);
    assert(m1.v[op_x(op) as int] == m.v[op_x(op) as int]);
    assert(m1.v[op_y(op) as int] == m.v[op_y(op) as int]);
    // Some set bit of the sprite landed on a pixel the first pass set.
    let (r0, c0) = choose|r: int, c: int|
        0 <= r < n && 0 <= c < 8 && #[trigger] sprite_bit(m.mem[gi + r], c);
    vstd::arithmetic::div_mod::lemma_mod_bound(vx + c0, 64);
    vstd::arithmetic::div_mod::lemma_mod_bound(vy + r0, 32);
    let q = pixel_index(vx + c0, vy + r0);
    assert(draw_hits(m.mem, gi, vx, vy, n, q));
    assert(m1.screen[q] == 1);
    assert(draw_collision(m1.screen, m.mem, gi, vx, vy, n));
    assert(m2.v[15] == 1);
    lemma_draw_twice_restores(m.screen, m.mem, gi, vx, vy, n);
    assert(m2.screen == m.screen);
}

/// A machine waiting for a key does nothing: the step reports `Blocked`
/// and returns the state exactly as it was.
pub proof fn lemma_blocked_step_unchanged(m: Model, b: u8)
    requires
        m.wait is Some,
    ensures
        spec_step(m, b).0 == m,
        spec_step(m, b).1 == StepResult::Blocked,
{
}

/// Executing FX0A enters the key wait: the machine reports `Blocked`,
/// remembers the register, holds the program counter, and touches
/// nothing else.
pub proof fn lemma_key_wait_enter(m: Model, b: u8)
    requires
        m.wf(),
        m.wait is None,
        m.pc <= 4094,
        op_cat(fetch(m)) == 0xF,
        op_nn(fetch(m)) == 0x0A,
    ensures
        spec_step(m, b).1 == StepResult::Blocked,
        spec_step(m, b).0 == (Model {
            wait: Some(op_x(fetch(m)) as u8),
            opcode: fetch(m),
            ..m
        }),
{
}

/// A key press resolves a pending wait: the key code lands in the
/// waiting register, the wait is cleared, and the program counter moves
/// past the wait instruction, so the next step runs normally.
pub proof fn lemma_key_wait_resume(m: Model, x: u8, code: u8)
    requires
        m.wf(),
        m.wait == Some(x),
        code < 16,
    ensures
        spec_key_down(m, code).wait is None,
        spec_key_down(m, code).v == m.v.update(x as int, code),
        spec_key_down(m, code).key == m.key.update(code as int, true),
        spec_key_down(m, code).pc == m.pc + 2,
{
}

/// Every fatal step leaves the machine exactly as it was: a failed
/// instruction has no partial effect.
pub proof fn lemma_fatal_preserves_state(m: Model, b: u8)
    requires
        spec_step(m, b).1 is Fatal,
    ensures
        spec_step(m, b).0 == m,
{
}

/// The documented kinds of the three classic fatal paths: a return with
/// an empty stack, a call with every stack slot in use, and a family-0
/// payload outside the instruction table.
pub proof fn lemma_fatal_kinds(m: Model, b: u8)
    requires
        m.wf(),
        m.wait is None,
        m.pc <= 4094,
    ensures
        fetch(m) == 0x00EE && m.sp == 0 ==> spec_step(m, b).1 == StepResult::Fatal(
            ErrorKind::StackUnderflow,
        ),
        op_cat(fetch(m)) == 0x2 && m.sp == 24 ==> spec_step(m, b).1 == StepResult::Fatal(
            ErrorKind::StackOverflow,
        ),
        op_cat(fetch(m)) == 0x0 && fetch(m) != 0x00E0 && fetch(m) != 0x00EE ==> spec_step(
            m,
            b,
        ).1 == StepResult::Fatal(ErrorKind::InvalidOpcode),
{
    assert(0x00EEu16 >> 12 == 0x0) by (bit_vector);
}

} // verus!
