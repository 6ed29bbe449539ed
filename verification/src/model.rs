//! The mathematical model of the virtual machine.
//!
//! [`Model`] is the ghost image of the executable machine state, and
//! [`spec_step`] is the transition function: one fetch-decode-execute
//! step, written over sequences and unbounded integers.  Every executable
//! method of the interpreter is specified against this module.

use vstd::prelude::*;

verus! {

/// The reasons a step or a program load can fail.  All of them are fatal
/// to the instruction stream: the machine state is left exactly as it was.
#[derive(Clone, Copy, Debug, PartialEq, Eq, Structural)]
pub enum ErrorKind {
    /// A program image longer than the space above the program start.
    ProgramTooLarge,
    /// A subroutine call with all stack slots in use.
    StackOverflow,
    /// A subroutine return with an empty stack.
    StackUnderflow,
    /// An opcode word outside the instruction table, or one whose operands
    /// address memory or keys out of range.
    InvalidOpcode,
    /// A font-glyph lookup for a value above 0xF.
    InvalidFontIndex,
}

/// What one call of `emulate` did.
#[derive(Clone, Copy, Debug, PartialEq, Eq, Structural)]
pub enum StepResult {
    /// One instruction was fetched, decoded and executed.
    Executed,
    /// The machine is waiting for a key press; nothing was changed.
    Blocked,
    /// The step failed; the state is exactly as before the call.
    Fatal(ErrorKind),
}

/// The ghost image of the machine state.
pub ghost struct Model {
    /// 4096 bytes of memory; the font table sits at the bottom.
    pub mem: Seq<u8>,
    /// The 16 general registers V0..VF; VF doubles as the flag register.
    pub v: Seq<u8>,
    /// The index register I.
    pub i: u16,
    /// The program counter.
    pub pc: u16,
    /// The 24 return-address slots; only the first `sp` are in use.
    pub stack: Seq<u16>,
    /// The stack pointer: the number of return addresses pushed.
    pub sp: nat,
    /// 64x32 pixels, row-major; each entry is 0 or 1.
    pub screen: Seq<u8>,
    /// Set by the two drawing opcodes; the host clears it after rendering.
    pub draw_flag: bool,
    /// The 16 key states, true while held down.
    pub key: Seq<bool>,
    /// The delay timer.
    pub delay: u8,
    /// The sound timer; a beep is owed while it is above zero.
    pub sound: u8,
    /// `Some(x)` exactly while the machine is blocked waiting for a key
    /// press destined for register `x`.
    pub wait: Option<u8>,
    /// The last opcode word fetched by a step that was not fatal.
    pub opcode: u16,
}

impl Model {
    /// Well-formedness: the storage sizes are fixed, the stack pointer is
    /// within the stack, pixels are bits, and a pending key wait names a
    /// real register and a resumable program counter.
    pub open spec fn wf(self) -> bool {
        &&& self.mem.len() == 4096
        &&& self.v.len() == 16
        &&& self.stack.len() == 24
        &&& self.sp <= 24
        &&& self.screen.len() == 2048
        &&& forall|p: int| 0 <= p < 2048 ==> self.screen[p] == 0 || self.screen[p] == 1
        &&& self.key.len() == 16
        &&& match self.wait {
            Some(x) => x < 16 && self.pc <= 4094,
            None => true,
        }
    }
}

// ---------------------------------------------------------------------------
// Decoding
// ---------------------------------------------------------------------------

/// The category nibble, bits 15..12 of the opcode word.
pub open spec fn op_cat(op: u16) -> u16 {
    op >> 12
}

/// The register index X, bits 11..8.
pub open spec fn op_x(op: u16) -> u16 {
    (op >> 8) & 0xF
}

/// The register index Y, bits 7..4.
pub open spec fn op_y(op: u16) -> u16 {
    (op >> 4) & 0xF
}

/// The immediate nibble N, bits 3..0.
pub open spec fn op_n(op: u16) -> u16 {
    op & 0xF
}

/// The immediate byte NN, bits 7..0.
pub open spec fn op_nn(op: u16) -> u8 {
    (op & 0xFF) as u8
}

/// The address NNN, bits 11..0.
pub open spec fn op_nnn(op: u16) -> u16 {
    op & 0xFFF
}

/// The operand fields stay within their widths: register indices and
/// the nibble below 16, the address below 4096.
pub proof fn lemma_op_field_bounds(op: u16)
    by (bit_vector)
    ensures
        op_cat(op) < 16,
        op_x(op) < 16,
        op_y(op) < 16,
        op_n(op) < 16,
        op_nnn(op) < 4096,
{
}

/// The opcode word at the program counter: two bytes, big-endian.
pub open spec fn fetch(m: Model) -> u16 {
    ((m.mem[m.pc as int] as u16) << 8) | (m.mem[m.pc as int + 1] as u16)
}

// ---------------------------------------------------------------------------
// Eight-bit arithmetic
// ---------------------------------------------------------------------------

/// Addition modulo 256.
pub open spec fn wrap_add(a: u8, b: u8) -> u8 {
    ((a + b) % 256) as u8
}

/// Subtraction modulo 256.
pub open spec fn wrap_sub(a: u8, b: u8) -> u8 {
    if a >= b {
        (a - b) as u8
    } else {
        (a - b + 256) as u8
    }
}

// ---------------------------------------------------------------------------
// Sprite drawing
// ---------------------------------------------------------------------------

/// Whether bit `7 - c` of a sprite row byte is set: column `c` of the row.
pub open spec fn sprite_bit(b: u8, c: int) -> bool {
    b & (0x80u8 >> (c as u8)) != 0
}

/// The framebuffer index of the pixel at `(x, y)`.  Coordinates wrap
/// around the 64x32 grid.
pub open spec fn pixel_index(x: int, y: int) -> int {
    (y % 32) * 64 + (x % 64)
}

/// Whether the sprite of `n` rows at memory address `i`, drawn at
/// `(vx, vy)`, has a set bit that lands on framebuffer index `p`.
pub open spec fn draw_hits(mem: Seq<u8>, i: int, vx: int, vy: int, n: int, p: int) -> bool {
    exists|r: int, c: int|
        0 <= r < n && 0 <= c < 8 && #[trigger] sprite_bit(mem[i + r], c) && p == pixel_index(
            vx + c,
            vy + r,
        )
}

/// A pixel after an exclusive-or with 1.
pub open spec fn flip_pixel(b: u8) -> u8 {
    if b == 0 {
        1u8
    } else {
        0u8
    }
}

/// The framebuffer after the sprite blit: every pixel a set sprite bit
/// lands on is toggled, every other pixel keeps its value.
pub open spec fn screen_after_draw(
    screen: Seq<u8>,
    mem: Seq<u8>,
    i: int,
    vx: int,
    vy: int,
    n: int,
) -> Seq<u8> {
    Seq::new(
        2048,
        |p: int|
            if draw_hits(mem, i, vx, vy, n, p) {
                flip_pixel(screen[p])
            } else {
                screen[p]
            },
    )
}

/// Whether the blit turns some pixel from set to unset: a set sprite bit
/// lands on a pixel that was already 1.
pub open spec fn draw_collision(
    screen: Seq<u8>,
    mem: Seq<u8>,
    i: int,
    vx: int,
    vy: int,
    n: int,
) -> bool {
    exists|r: int, c: int|
        0 <= r < n && 0 <= c < 8 && #[trigger] sprite_bit(mem[i + r], c) && screen[pixel_index(
            vx + c,
            vy + r,
        )] == 1
}

/// Like [`draw_hits`], but over the sprite bits a row-major blit has
/// already processed: all of rows below `rd`, and the first `cd` columns
/// of row `rd`.
pub(crate) open spec fn draw_hits_upto(
    mem: Seq<u8>,
    i: int,
    vx: int,
    vy: int,
    n: int,
    rd: int,
    cd: int,
    p: int,
) -> bool {
    exists|r: int, c: int|
        0 <= r < n && 0 <= c < 8 && (r < rd || (r == rd && c < cd)) && #[trigger] sprite_bit(
            mem[i + r],
            c,
        ) && p == pixel_index(vx + c, vy + r)
}

/// Like [`draw_collision`], but over the sprite bits already processed.
pub(crate) open spec fn draw_collision_upto(
    screen: Seq<u8>,
    mem: Seq<u8>,
    i: int,
    vx: int,
    vy: int,
    n: int,
    rd: int,
    cd: int,
) -> bool {
    exists|r: int, c: int|
        0 <= r < n && 0 <= c < 8 && (r < rd || (r == rd && c < cd)) && #[trigger] sprite_bit(
            mem[i + r],
            c,
        ) && screen[pixel_index(vx + c, vy + r)] == 1
}

/// Within one sprite, distinct bits land on distinct pixels: the column
/// offsets stay apart modulo the screen width and the row offsets modulo
/// the screen height.
pub(crate) proof fn lemma_pixel_index_injective(
    vx: int,
    vy: int,
    c1: int,
    r1: int,
    c2: int,
    r2: int,
)
    requires
        vx >= 0,
        vy >= 0,
        0 <= c1 < 8,
        0 <= c2 < 8,
        0 <= r1 < 32,
        0 <= r2 < 32,
        pixel_index(vx + c1, vy + r1) == pixel_index(vx + c2, vy + r2),
    ensures
        c1 == c2,
        r1 == r2,
{
    vstd::arithmetic::div_mod::lemma_mod_bound(vx + c1, 64);
    vstd::arithmetic::div_mod::lemma_mod_bound(vx + c2, 64);
    vstd::arithmetic::div_mod::lemma_mod_bound(vy + r1, 32);
    vstd::arithmetic::div_mod::lemma_mod_bound(vy + r2, 32);
    // The quotient/remainder pair of the pixel index is unique, so the
    // wrapped coordinates agree.
    assert((vy + r1) % 32 == (vy + r2) % 32 && (vx + c1) % 64 == (vx + c2) % 64);
    vstd::arithmetic::div_mod::lemma_fundamental_div_mod(vx + c1, 64);
    vstd::arithmetic::div_mod::lemma_fundamental_div_mod(vx + c2, 64);
    vstd::arithmetic::div_mod::lemma_fundamental_div_mod(vy + r1, 32);
    vstd::arithmetic::div_mod::lemma_fundamental_div_mod(vy + r2, 32);
    // c1 - c2 is a multiple of 64 in (-64, 64), hence zero; likewise the
    // rows modulo 32.
    let dc = (vx + c1) / 64 - (vx + c2) / 64;
    assert(c1 - c2 == 64 * dc) by (nonlinear_arith)
        requires
            vx + c1 == 64 * ((vx + c1) / 64) + (vx + c1) % 64,
            vx + c2 == 64 * ((vx + c2) / 64) + (vx + c2) % 64,
            (vx + c1) % 64 == (vx + c2) % 64,
            dc == (vx + c1) / 64 - (vx + c2) / 64,
    ;
    assert(dc == 0) by (nonlinear_arith)
        requires
            c1 - c2 == 64 * dc,
            -8 < c1 - c2 < 8,
    ;
    let dr = (vy + r1) / 32 - (vy + r2) / 32;
    assert(r1 - r2 == 32 * dr) by (nonlinear_arith)
        requires
            vy + r1 == 32 * ((vy + r1) / 32) + (vy + r1) % 32,
            vy + r2 == 32 * ((vy + r2) / 32) + (vy + r2) % 32,
            (vy + r1) % 32 == (vy + r2) % 32,
            dr == (vy + r1) / 32 - (vy + r2) / 32,
    ;
    assert(dr == 0) by (nonlinear_arith)
        requires
            r1 - r2 == 32 * dr,
            -32 < r1 - r2 < 32,
    ;
}

/// Finishing row `rd` is the same as standing at the start of row
/// `rd + 1`.
pub(crate) proof fn lemma_hits_row_roll(
    mem: Seq<u8>,
    i: int,
    vx: int,
    vy: int,
    n: int,
    rd: int,
    p: int,
)
    ensures
        draw_hits_upto(mem, i, vx, vy, n, rd, 8, p) == draw_hits_upto(mem, i, vx, vy, n, rd + 1, 0, p),
{
    if draw_hits_upto(mem, i, vx, vy, n, rd, 8, p) {
        let (r, c) = choose|r: int, c: int|
            0 <= r < n && 0 <= c < 8 && (r < rd || (r == rd && c < 8)) && #[trigger] sprite_bit(
                mem[i + r],
                c,
            ) && p == pixel_index(vx + c, vy + r);
        assert(r < rd + 1);
        assert(draw_hits_upto(mem, i, vx, vy, n, rd + 1, 0, p));
    }
    if draw_hits_upto(mem, i, vx, vy, n, rd + 1, 0, p) {
        let (r, c) = choose|r: int, c: int|
            0 <= r < n && 0 <= c < 8 && (r < rd + 1 || (r == rd + 1 && c < 0)) && #[trigger] sprite_bit(
                mem[i + r],
                c,
            ) && p == pixel_index(vx + c, vy + r);
        assert(r < rd || (r == rd && c < 8));
        assert(draw_hits_upto(mem, i, vx, vy, n, rd, 8, p));
    }
}

/// The same roll, for the collision predicate.
pub(crate) proof fn lemma_collision_row_roll(
    screen: Seq<u8>,
    mem: Seq<u8>,
    i: int,
    vx: int,
    vy: int,
    n: int,
    rd: int,
)
    ensures
        draw_collision_upto(screen, mem, i, vx, vy, n, rd, 8) == draw_collision_upto(
            screen,
            mem,
            i,
            vx,
            vy,
            n,
            rd + 1,
            0,
        ),
{
    if draw_collision_upto(screen, mem, i, vx, vy, n, rd, 8) {
        let (r, c) = choose|r: int, c: int|
            0 <= r < n && 0 <= c < 8 && (r < rd || (r == rd && c < 8)) && #[trigger] sprite_bit(
                mem[i + r],
                c,
            ) && screen[pixel_index(vx + c, vy + r)] == 1;
        assert(r < rd + 1);
        assert(draw_collision_upto(screen, mem, i, vx, vy, n, rd + 1, 0));
    }
    if draw_collision_upto(screen, mem, i, vx, vy, n, rd + 1, 0) {
        let (r, c) = choose|r: int, c: int|
            0 <= r < n && 0 <= c < 8 && (r < rd + 1 || (r == rd + 1 && c < 0)) && #[trigger] sprite_bit(
                mem[i + r],
                c,
            ) && screen[pixel_index(vx + c, vy + r)] == 1;
        assert(r < rd || (r == rd && c < 8));
        assert(draw_collision_upto(screen, mem, i, vx, vy, n, rd, 8));
    }
}

/// Having processed all `n` rows is the full blit.
pub(crate) proof fn lemma_hits_full(mem: Seq<u8>, i: int, vx: int, vy: int, n: int, p: int)
    ensures
        draw_hits_upto(mem, i, vx, vy, n, n, 0, p) == draw_hits(mem, i, vx, vy, n, p),
        draw_hits_upto(mem, i, vx, vy, n, 0, 0, p) == false,
{
}

/// Having processed all `n` rows decides the collision flag.
pub(crate) proof fn lemma_collision_full(
    screen: Seq<u8>,
    mem: Seq<u8>,
    i: int,
    vx: int,
    vy: int,
    n: int,
)
    ensures
        draw_collision_upto(screen, mem, i, vx, vy, n, n, 0) == draw_collision(
            screen,
            mem,
            i,
            vx,
            vy,
            n,
        ),
        draw_collision_upto(screen, mem, i, vx, vy, n, 0, 0) == false,
{
}

// ---------------------------------------------------------------------------
// The opcode families
// ---------------------------------------------------------------------------

/// Family 0: clear screen (00E0) and subroutine return (00EE).  Any other
/// payload, including machine-code-routine calls 0NNN, is rejected.
pub open spec fn step_0(m: Model, op: u16) -> (Model, StepResult) {
    if op == 0x00E0 {
        (
            Model {
                screen: Seq::new(2048, |p: int| 0u8),
                pc: (m.pc + 2) as u16,
                draw_flag: true,
                ..m
            },
            StepResult::Executed,
        )
    } else if op == 0x00EE {
        if m.sp == 0 {
            (m, StepResult::Fatal(ErrorKind::StackUnderflow))
        } else {
            (
                Model { pc: m.stack[m.sp - 1], sp: (m.sp - 1) as nat, ..m },
                StepResult::Executed,
            )
        }
    } else {
        (m, StepResult::Fatal(ErrorKind::InvalidOpcode))
    }
}

/// 1NNN: jump.
pub open spec fn step_1(m: Model, op: u16) -> (Model, StepResult) {
    (Model { pc: op_nnn(op), ..m }, StepResult::Executed)
}

/// 2NNN: call; the return address is the instruction after the call.
pub open spec fn step_2(m: Model, op: u16) -> (Model, StepResult) {
    if m.sp >= 24 {
        (m, StepResult::Fatal(ErrorKind::StackOverflow))
    } else {
        (
            Model {
                stack: m.stack.update(m.sp as int, (m.pc + 2) as u16),
                sp: (m.sp + 1) as nat,
                pc: op_nnn(op),
                ..m
            },
            StepResult::Executed,
        )
    }
}

/// 3XNN: skip the next instruction if VX == NN.
pub open spec fn step_3(m: Model, op: u16) -> (Model, StepResult) {
    let skip = m.v[op_x(op) as int] == op_nn(op);
    (Model { pc: (m.pc + if skip { 4int } else { 2int }) as u16, ..m }, StepResult::Executed)
}

/// 4XNN: skip the next instruction if VX != NN.
pub open spec fn step_4(m: Model, op: u16) -> (Model, StepResult) {
    let skip = m.v[op_x(op) as int] != op_nn(op);
    (Model { pc: (m.pc + if skip { 4int } else { 2int }) as u16, ..m }, StepResult::Executed)
}

/// 5XY0: skip the next instruction if VX == VY.  A non-zero low nibble is
/// not in the instruction table.
pub open spec fn step_5(m: Model, op: u16) -> (Model, StepResult) {
    if op_n(op) != 0 {
        (m, StepResult::Fatal(ErrorKind::InvalidOpcode))
    } else {
        let skip = m.v[op_x(op) as int] == m.v[op_y(op) as int];
        (Model { pc: (m.pc + if skip { 4int } else { 2int }) as u16, ..m }, StepResult::Executed)
    }
}

/// 6XNN: VX := NN.
pub open spec fn step_6(m: Model, op: u16) -> (Model, StepResult) {
    (
        Model { v: m.v.update(op_x(op) as int, op_nn(op)), pc: (m.pc + 2) as u16, ..m },
        StepResult::Executed,
    )
}

/// 7XNN: VX := VX + NN, wrapping; the flag register is untouched.
pub open spec fn step_7(m: Model, op: u16) -> (Model, StepResult) {
    (
        Model {
            v: m.v.update(op_x(op) as int, wrap_add(m.v[op_x(op) as int], op_nn(op))),
            pc: (m.pc + 2) as u16,
            ..m
        },
        StepResult::Executed,
    )
}

/// The register file after a flag-producing operation: the flag goes to
/// VF first, the result to VX second, so when X is 15 the result wins.
/// Both operands are read from the state before either write.
pub open spec fn regs_with_flag(v: Seq<u8>, x: int, result: u8, flag: u8) -> Seq<u8> {
    v.update(15, flag).update(x, result)
}

/// Family 8: register-to-register moves, bitwise operations, arithmetic
/// with the carry/borrow convention, and shifts.
pub open spec fn step_8(m: Model, op: u16) -> (Model, StepResult) {
    let x = op_x(op) as int;
    let y = op_y(op) as int;
    let vx = m.v[x];
    let vy = m.v[y];
    let pc2 = (m.pc + 2) as u16;
    if op_n(op) == 0 {
        (Model { v: m.v.update(x, vy), pc: pc2, ..m }, StepResult::Executed)
    } else if op_n(op) == 1 {
        (Model { v: m.v.update(x, vx | vy), pc: pc2, ..m }, StepResult::Executed)
    } else if op_n(op) == 2 {
        (Model { v: m.v.update(x, vx & vy), pc: pc2, ..m }, StepResult::Executed)
    } else if op_n(op) == 3 {
        (Model { v: m.v.update(x, vx ^ vy), pc: pc2, ..m }, StepResult::Executed)
    } else if op_n(op) == 4 {
        // VF := 1 on unsigned overflow, else 0.
        let flag: u8 = if vx + vy > 255 { 1u8 } else { 0u8 };
        (
            Model { v: regs_with_flag(m.v, x, wrap_add(vx, vy), flag), pc: pc2, ..m },
            StepResult::Executed,
        )
    } else if op_n(op) == 5 {
        // VX := VX - VY; VF := 1 when there is no borrow.
        let flag: u8 = if vx >= vy { 1u8 } else { 0u8 };
        (
            Model { v: regs_with_flag(m.v, x, wrap_sub(vx, vy), flag), pc: pc2, ..m },
            StepResult::Executed,
        )
    } else if op_n(op) == 6 {
        // VF := the least significant bit of VX before the shift.
        (
            Model { v: regs_with_flag(m.v, x, vx >> 1, vx & 1), pc: pc2, ..m },
            StepResult::Executed,
        )
    } else if op_n(op) == 7 {
        // VX := VY - VX; VF := 1 when there is no borrow.
        let flag: u8 = if vy >= vx { 1u8 } else { 0u8 };
        (
            Model { v: regs_with_flag(m.v, x, wrap_sub(vy, vx), flag), pc: pc2, ..m },
            StepResult::Executed,
        )
    } else if op_n(op) == 0xE {
        // VF := the most significant bit of VX before the shift.
        (
            Model { v: regs_with_flag(m.v, x, vx << 1, (vx & 0x80) >> 7), pc: pc2, ..m },
            StepResult::Executed,
        )
    } else {
        (m, StepResult::Fatal(ErrorKind::InvalidOpcode))
    }
}

/// 9XY0: skip the next instruction if VX != VY.  A non-zero low nibble is
/// not in the instruction table.
pub open spec fn step_9(m: Model, op: u16) -> (Model, StepResult) {
    if op_n(op) != 0 {
        (m, StepResult::Fatal(ErrorKind::InvalidOpcode))
    } else {
        let skip = m.v[op_x(op) as int] != m.v[op_y(op) as int];
        (Model { pc: (m.pc + if skip { 4int } else { 2int }) as u16, ..m }, StepResult::Executed)
    }
}

/// ANNN: I := NNN.
pub open spec fn step_a(m: Model, op: u16) -> (Model, StepResult) {
    (Model { i: op_nnn(op), pc: (m.pc + 2) as u16, ..m }, StepResult::Executed)
}

/// BNNN: jump to V0 + NNN.
pub open spec fn step_b(m: Model, op: u16) -> (Model, StepResult) {
    (Model { pc: (m.v[0] + op_nnn(op)) as u16, ..m }, StepResult::Executed)
}

/// CXNN: VX := random byte AND NN.  The byte `b` is whatever the random
/// source produced.
pub open spec fn step_c(m: Model, op: u16, b: u8) -> (Model, StepResult) {
    (
        Model { v: m.v.update(op_x(op) as int, b & op_nn(op)), pc: (m.pc + 2) as u16, ..m },
        StepResult::Executed,
    )
}

/// DXYN: blit the sprite of N rows at memory address I to the point
/// (VX, VY), toggling pixels; VF reports whether any pixel was turned
/// off.  Coordinates wrap around the grid.  A sprite that would be read
/// past the end of memory is rejected.
pub open spec fn step_d(m: Model, op: u16) -> (Model, StepResult) {
    let n = op_n(op) as int;
    let vx = m.v[op_x(op) as int] as int;
    let vy = m.v[op_y(op) as int] as int;
    if n > 0 && m.i + n > 4096 {
        (m, StepResult::Fatal(ErrorKind::InvalidOpcode))
    } else {
        let coll = draw_collision(m.screen, m.mem, m.i as int, vx, vy, n);
        (
            Model {
                screen: screen_after_draw(m.screen, m.mem, m.i as int, vx, vy, n),
                v: m.v.update(15, if coll { 1u8 } else { 0u8 }),
                pc: (m.pc + 2) as u16,
                draw_flag: true,
                ..m
            },
            StepResult::Executed,
        )
    }
}

/// Family E: skip on key state.  The key index comes from VX and must
/// name one of the 16 keys.
pub open spec fn step_e(m: Model, op: u16) -> (Model, StepResult) {
    let vx = m.v[op_x(op) as int];
    if op_nn(op) == 0x9E {
        if vx >= 16 {
            (m, StepResult::Fatal(ErrorKind::InvalidOpcode))
        } else {
            let skip = m.key[vx as int];
            (
                Model { pc: (m.pc + if skip { 4int } else { 2int }) as u16, ..m },
                StepResult::Executed,
            )
        }
    } else if op_nn(op) == 0xA1 {
        if vx >= 16 {
            (m, StepResult::Fatal(ErrorKind::InvalidOpcode))
        } else {
            let skip = !m.key[vx as int];
            (
                Model { pc: (m.pc + if skip { 4int } else { 2int }) as u16, ..m },
                StepResult::Executed,
            )
        }
    } else {
        (m, StepResult::Fatal(ErrorKind::InvalidOpcode))
    }
}

/// Family F: timers, key wait, index-register arithmetic, font lookup,
/// decimal decomposition and register dump/load.
pub open spec fn step_f(m: Model, op: u16) -> (Model, StepResult) {
    let x = op_x(op) as int;
    let vx = m.v[x];
    let pc2 = (m.pc + 2) as u16;
    if op_nn(op) == 0x07 {
        (Model { v: m.v.update(x, m.delay), pc: pc2, ..m }, StepResult::Executed)
    } else if op_nn(op) == 0x0A {
        // Enter the key wait.  The program counter is held; it advances
        // when the key arrives.
        (Model { wait: Some(op_x(op) as u8), ..m }, StepResult::Blocked)
    } else if op_nn(op) == 0x15 {
        (Model { delay: vx, pc: pc2, ..m }, StepResult::Executed)
    } else if op_nn(op) == 0x18 {
        (Model { sound: vx, pc: pc2, ..m }, StepResult::Executed)
    } else if op_nn(op) == 0x1E {
        // I may grow past 0xFFF; it wraps only at the register width.
        (Model { i: ((m.i + vx) % 0x10000) as u16, pc: pc2, ..m }, StepResult::Executed)
    } else if op_nn(op) == 0x29 {
        if vx > 0xF {
            (m, StepResult::Fatal(ErrorKind::InvalidFontIndex))
        } else {
            (Model { i: (vx * 5) as u16, pc: pc2, ..m }, StepResult::Executed)
        }
    } else if op_nn(op) == 0x33 {
        if m.i + 3 > 4096 {
            (m, StepResult::Fatal(ErrorKind::InvalidOpcode))
        } else {
            let i = m.i as int;
            (
                Model {
                    mem: m.mem.update(i, (vx / 100) as u8).update(i + 1, ((vx / 10) % 10) as u8)
                        .update(i + 2, (vx % 10) as u8),
                    pc: pc2,
                    ..m
                },
                StepResult::Executed,
            )
        }
    } else if op_nn(op) == 0x55 {
        if m.i + x + 1 > 4096 {
            (m, StepResult::Fatal(ErrorKind::InvalidOpcode))
        } else {
            let i = m.i as int;
            (
                Model {
                    mem: Seq::new(
                        4096,
                        |j: int|
                            if i <= j <= i + x {
                                m.v[j - i]
                            } else {
                                m.mem[j]
                            },
                    ),
                    pc: pc2,
                    ..m
                },
                StepResult::Executed,
            )
        }
    } else if op_nn(op) == 0x65 {
        if m.i + x + 1 > 4096 {
            (m, StepResult::Fatal(ErrorKind::InvalidOpcode))
        } else {
            let i = m.i as int;
            (
                Model {
                    v: Seq::new(
                        16,
                        |j: int|
                            if 0 <= j <= x {
                                m.mem[i + j]
                            } else {
                                m.v[j]
                            },
                    ),
                    pc: pc2,
                    ..m
                },
                StepResult::Executed,
            )
        }
    } else {
        (m, StepResult::Fatal(ErrorKind::InvalidOpcode))
    }
}

// ---------------------------------------------------------------------------
// The step
// ---------------------------------------------------------------------------

/// Dispatch on the category nibble.  The random byte `b` is consulted
/// only by family C.
pub open spec fn spec_exec(m: Model, op: u16, b: u8) -> (Model, StepResult) {
    let cat = op_cat(op);
    if cat == 0x0 {
        step_0(m, op)
    } else if cat == 0x1 {
        step_1(m, op)
    } else if cat == 0x2 {
        step_2(m, op)
    } else if cat == 0x3 {
        step_3(m, op)
    } else if cat == 0x4 {
        step_4(m, op)
    } else if cat == 0x5 {
        step_5(m, op)
    } else if cat == 0x6 {
        step_6(m, op)
    } else if cat == 0x7 {
        step_7(m, op)
    } else if cat == 0x8 {
        step_8(m, op)
    } else if cat == 0x9 {
        step_9(m, op)
    } else if cat == 0xA {
        step_a(m, op)
    } else if cat == 0xB {
        step_b(m, op)
    } else if cat == 0xC {
        step_c(m, op, b)
    } else if cat == 0xD {
        step_d(m, op)
    } else if cat == 0xE {
        step_e(m, op)
    } else {
        step_f(m, op)
    }
}

/// One scheduling tick of the machine, as `emulate` performs it.
///
/// A machine waiting for a key does nothing and reports so.  A program
/// counter from which two bytes cannot be fetched is fatal.  Otherwise
/// the word at the program counter is fetched and executed; on success
/// the fetched word is recorded, and on a fatal error the state is
/// returned exactly as it came in.  Timers are driven separately, by
/// `tick_timers`, never by the step itself.
pub open spec fn spec_step(m: Model, b: u8) -> (Model, StepResult) {
    match m.wait {
        Some(_) => (m, StepResult::Blocked),
        None => {
            if m.pc > 4094 {
                (m, StepResult::Fatal(ErrorKind::InvalidOpcode))
            } else {
                let op = fetch(m);
                let stepped = spec_exec(m, op, b);
                match stepped.1 {
                    StepResult::Fatal(_) => (m, stepped.1),
                    _ => (Model { opcode: op, ..stepped.0 }, stepped.1),
                }
            }
        },
    }
}

/// A fatal instruction leaves the state exactly as it was.
pub proof fn lemma_exec_fatal_unchanged(m: Model, op: u16, b: u8)
    ensures
        spec_exec(m, op, b).1 is Fatal ==> spec_exec(m, op, b).0 == m,
{
}

/// Only family C reads the random byte.
pub proof fn lemma_exec_rand_independent(m: Model, op: u16, b: u8)
    requires
        op_cat(op) != 0xC,
    ensures
        spec_exec(m, op, b) == spec_exec(m, op, 0),
{
}

/// Whether the next step consults the random source: the machine is
/// running, the program counter is fetchable, and the word there is of
/// family C.
pub open spec fn is_rand_step(m: Model) -> bool {
    m.wait is None && m.pc <= 4094 && op_cat(fetch(m)) == 0xC
}

/// The state after a key-down event: the key is marked held, and a
/// pending key wait is resolved by writing the key code to the waiting
/// register, advancing past the wait instruction and resuming.
pub open spec fn spec_key_down(m: Model, code: u8) -> Model {
    let pressed = Model { key: m.key.update(code as int, true), ..m };
    match m.wait {
        Some(x) => Model {
            v: pressed.v.update(x as int, code),
            wait: None,
            pc: (m.pc + 2) as u16,
            ..pressed
        },
        None => pressed,
    }
}

/// The state after a key-up event: the key is marked released; a pending
/// key wait is never affected.
pub open spec fn spec_key_up(m: Model, code: u8) -> Model {
    Model { key: m.key.update(code as int, false), ..m }
}

/// One timer tick: both counters move toward zero and stop there.
pub open spec fn spec_tick(m: Model) -> Model {
    Model {
        delay: if m.delay > 0 { (m.delay - 1) as u8 } else { 0u8 },
        sound: if m.sound > 0 { (m.sound - 1) as u8 } else { 0u8 },
        ..m
    }
}

/// Memory after a program image is copied in at the program start; the
/// font table and everything outside the image are untouched.
pub open spec fn mem_after_load(mem: Seq<u8>, program: Seq<u8>) -> Seq<u8> {
    Seq::new(
        4096,
        |j: int|
            if 0x200 <= j < 0x200 + program.len() {
                program[j - 0x200]
            } else {
                mem[j]
            },
    )
}

/// The font table: 16 glyphs of 5 bytes, one row per byte.
pub open spec fn font_seq() -> Seq<u8> {
    seq![
        0xF0u8, 0x90, 0x90, 0x90, 0xF0,  // 0
        0x20, 0x60, 0x20, 0x20, 0x70,  // 1
        0xF0, 0x10, 0xF0, 0x80, 0xF0,  // 2
        0xF0, 0x10, 0xF0, 0x10, 0xF0,  // 3
        0x90, 0x90, 0xF0, 0x10, 0x10,  // 4
        0xF0, 0x80, 0xF0, 0x10, 0xF0,  // 5
        0xF0, 0x80, 0xF0, 0x90, 0xF0,  // 6
        0xF0, 0x10, 0x20, 0x40, 0x40,  // 7
        0xF0, 0x90, 0xF0, 0x90, 0xF0,  // 8
        0xF0, 0x90, 0xF0, 0x10, 0xF0,  // 9
        0xF0, 0x90, 0xF0, 0x90, 0x90,  // A
        0xE0, 0x90, 0xE0, 0x90, 0xE0,  // B
        0xF0, 0x80, 0x80, 0x80, 0xF0,  // C
        0xE0, 0x90, 0x90, 0x90, 0xE0,  // D
        0xF0, 0x80, 0xF0, 0x80, 0xF0,  // E
        0xF0, 0x80, 0xF0, 0x80, 0x80,  // F
    ]
}

} // verus!
