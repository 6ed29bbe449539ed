//! The executable machine state and its interpreter.
//!
//! Every method is specified against the ghost [`Model`] of the state;
//! `emulate` is proved to perform exactly one [`spec_step`] transition.

use crate::model::ErrorKind;
use crate::model::Model;
use crate::model::StepResult;
use crate::model::draw_collision_upto;
use crate::model::draw_hits;
use crate::model::draw_hits_upto;
use crate::model::fetch;
use crate::model::flip_pixel;
use crate::model::font_seq;
use crate::model::is_rand_step;
use crate::model::lemma_collision_full;
use crate::model::lemma_collision_row_roll;
use crate::model::lemma_exec_fatal_unchanged;
use crate::model::lemma_exec_rand_independent;
use crate::model::lemma_hits_full;
use crate::model::lemma_hits_row_roll;
use crate::model::lemma_pixel_index_injective;
use crate::model::mem_after_load;
use crate::model::op_cat;
use crate::model::op_n;
use crate::model::op_nn;
use crate::model::op_nnn;
use crate::model::op_x;
use crate::model::op_y;
use crate::model::pixel_index;
use crate::model::screen_after_draw;
use crate::model::spec_exec;
use crate::model::spec_key_down;
use crate::model::spec_key_up;
use crate::model::spec_step;
use crate::model::spec_tick;
use crate::model::sprite_bit;
use crate::model::step_0;
use crate::model::step_1;
use crate::model::step_2;
use crate::model::step_3;
use crate::model::step_4;
use crate::model::step_5;
use crate::model::step_6;
use crate::model::step_7;
use crate::model::step_8;
use crate::model::step_9;
use crate::model::step_a;
use crate::model::step_b;
use crate::model::step_c;
use crate::model::step_d;
use crate::model::step_e;
use crate::model::step_f;
use vstd::prelude::*;

verus! {

/// Bytes of addressable memory.
pub const MEM_SIZE: usize = 4096;

/// Return-address slots in the call stack.
pub const STACK_SIZE: usize = 24;

/// General registers.
pub const REG_SIZE: usize = 16;

/// Framebuffer width in pixels.
pub const SCREEN_WIDTH: usize = 64;

/// Framebuffer height in pixels.
pub const SCREEN_HEIGHT: usize = 32;

/// Keys on the input device.
pub const KEY_SIZE: usize = 16;

/// Where program images are loaded and execution starts.
pub const PC_START: u16 = 0x200;

/// The virtual machine: memory, registers, call stack, timers,
/// framebuffer, keypad and the key-wait condition.
///
/// The fields are public so that a host can inspect them between steps;
/// they are mutated only by this module's methods, which keep [`Model::wf`]
/// of the view.
pub struct Chip8 {
    /// The opcode word fetched by the last step that was not fatal.
    pub opcode: u16,
    /// 4096 bytes of memory; the font table occupies bytes 0..80.
    pub memory: Vec<u8>,
    /// The 16 general registers V0..VF.
    pub v: Vec<u8>,
    /// The index register I.
    pub addr_reg: u16,
    /// The program counter.
    pub pc: u16,
    /// The 24 return-address slots; only the first `sp` are in use.
    pub stack: Vec<u16>,
    /// The stack pointer.
    pub sp: usize,
    /// 64x32 pixels, row-major, each 0 or 1.
    pub screen: Vec<u8>,
    /// Set when a drawing opcode changed the screen; the host clears it
    /// after rendering a frame.
    pub draw_flag: bool,
    /// The 16 key states.
    pub key: Vec<bool>,
    /// The delay timer.
    pub delay_timer: u8,
    /// The sound timer.
    pub sound_timer: u8,
    /// `Some(x)` exactly while the machine waits for a key press destined
    /// for register `x`.
    pub key_to_wait_reg: Option<u8>,
}

impl View for Chip8 {
    type V = Model;

    open spec fn view(&self) -> Model {
        Model {
            mem: self.memory@,
            v: self.v@,
            i: self.addr_reg,
            pc: self.pc,
            stack: self.stack@,
            sp: self.sp as nat,
            screen: self.screen@,
            draw_flag: self.draw_flag,
            key: self.key@,
            delay: self.delay_timer,
            sound: self.sound_timer,
            wait: self.key_to_wait_reg,
            opcode: self.opcode,
        }
    }
}

/// A vector of `len` copies of `val`.
fn filled<T: Copy>(len: usize, val: T) -> (r: Vec<T>)
    ensures
        r@ == Seq::new(len as nat, |j: int| val),
{
    let mut r: Vec<T> = Vec::new();
    while r.len() < len
        invariant
            r@.len() <= len,
            forall|j: int| 0 <= j < r@.len() ==> r@[j] == val,
        decreases len - r@.len(),
    {
        r.push(val);
    }
    proof {
        assert(r@ =~= Seq::new(len as nat, |j: int| val));
    }
    r
}

/// The font table as bytes, equal to [`font_seq`].
pub fn font_set() -> (r: Vec<u8>)
    ensures
        r@ == font_seq(),
{
    let glyphs: Vec<u8> = vec![
        0xF0, 0x90, 0x90, 0x90, 0xF0,  // 0
        0x20, 0x60, 0x20, 0x20, 0x70,  // 1
        0xF0, 0x10, 0xF0, 0x80, 0xF0,  // 2
        0xF0, 0x10, 0xF0, 0x10, 0xF0,  // 3
        0x90, 0x90, 0xF0, 0x10, 0x10,  // 4
        0xF0, 0x80, 0xF0, 0x10, 0xF0,  // 5
        0xF0, 0x80, 0xF0, 0x90, 0xF0,  // 6
        0xF0, 0x10, 0x20, 0x40, 0x40,  // 7
        0xF0, 0x90, 0xF0, 0x90, 0xF0,  // 8
        0xF0, 0x90, 0xF0, 0x10, 0xF0,  // 9
        0xF0, 0x90, 0xF0, 0x90, 0x90,  // A
        0xE0, 0x90, 0xE0, 0x90, 0xE0,  // B
        0xF0, 0x80, 0x80, 0x80, 0xF0,  // C
        0xE0, 0x90, 0x90, 0x90, 0xE0,  // D
        0xF0, 0x80, 0xF0, 0x80, 0xF0,  // E
        0xF0, 0x80, 0xF0, 0x80, 0x80,  // F
    ];
    proof {
        assert(glyphs@ =~= font_seq());
    }
    glyphs
}

/// The standard fields of an opcode word, extracted by masking and
/// shifting.  Decoding is pure and total: every word decodes, whether or
/// not it names a defined instruction.
pub struct Decoded {
    /// Register index X, bits 11..8.
    pub x: u16,
    /// Register index Y, bits 7..4.
    pub y: u16,
    /// Immediate nibble N, bits 3..0.
    pub n: u16,
    /// Immediate byte NN, bits 7..0.
    pub nn: u8,
    /// Address NNN, bits 11..0.
    pub nnn: u16,
}

/// Extract the operand fields of an opcode word.
pub fn decode(op: u16) -> (d: Decoded)
    ensures
        d.x == op_x(op),
        d.y == op_y(op),
        d.n == op_n(op),
        d.nn == op_nn(op),
        d.nnn == op_nnn(op),
        d.x < 16,
        d.y < 16,
        d.n < 16,
        d.nnn < 4096,
{
    proof {
        assert((op >> 8) & 0xF < 16 && (op >> 4) & 0xF < 16 && op & 0xF < 16 && op & 0xFFF
            < 4096) by (bit_vector);
    }
    Decoded {
        x: (op >> 8) & 0xF,
        y: (op >> 4) & 0xF,
        n: op & 0xF,
        nn: (op & 0xFF) as u8,
        nnn: op & 0xFFF,
    }
}

/// Relies on `rand::random`: one byte from the thread-local random
/// generator.  Nothing is assumed of the value.
#[verifier::external_body]
fn random_byte() -> u8 {
    rand::random::<u8>()
}

impl Chip8 {
    /// Well-formedness of the state; see [`Model::wf`].
    pub open spec fn wf(self) -> bool {
        self@.wf()
    }

    /// A fresh machine: the font table in the bottom of memory, the
    /// program counter at the program start, and everything else zeroed.
    pub fn init() -> (r: Chip8)
        ensures
            r.wf(),
            r@.pc == 0x200,
            r@.opcode == 0,
            r@.i == 0,
            r@.sp == 0,
            forall|k: int| 0 <= k < 16 ==> r@.v[k] == 0,
            forall|k: int| 0 <= k < 24 ==> r@.stack[k] == 0,
            forall|a: int| 0 <= a < 80 ==> r@.mem[a] == font_seq()[a],
            forall|a: int| 80 <= a < 4096 ==> r@.mem[a] == 0,
            forall|p: int| 0 <= p < 2048 ==> r@.screen[p] == 0,
            !r@.draw_flag,
            forall|k: int| 0 <= k < 16 ==> !r@.key[k],
            r@.delay == 0,
            r@.sound == 0,
            r@.wait is None,
    {
        let mut memory = font_set();
        while memory.len() < MEM_SIZE
            invariant
                font_seq().len() == 80,
                80 <= memory@.len() <= 4096,
                memory@.subrange(0, 80) == font_seq(),
                forall|a: int| 80 <= a < memory@.len() ==> memory@[a] == 0,
            decreases MEM_SIZE - memory@.len(),
        {
            let ghost pre = memory@;
            memory.push(0);
            proof {
                assert(memory@.subrange(0, 80) =~= pre.subrange(0, 80));
            }
        }
        proof {
            assert(forall|a: int|
                0 <= a < 80 ==> memory@[a] == #[trigger] memory@.subrange(0, 80)[a]);
        }
        Chip8 {
            pc: PC_START,
            opcode: 0,
            addr_reg: 0,
            sp: 0,
            v: filled(REG_SIZE, 0u8),
            stack: filled(STACK_SIZE, 0u16),
            memory,
            screen: filled(SCREEN_WIDTH * SCREEN_HEIGHT, 0u8),
            draw_flag: false,
            delay_timer: 0,
            sound_timer: 0,
            key: filled(KEY_SIZE, false),
            key_to_wait_reg: None,
        }
    }

    /// Copy a program image into memory at the program start.  An image
    /// longer than the space above the program start is rejected whole.
    pub fn load_game(&mut self, program: &Vec<u8>) -> (r: Result<usize, ErrorKind>)
        requires
            old(self).wf(),
        ensures
            final(self).wf(),
            program@.len() <= 3584 ==> r == Ok::<usize, ErrorKind>(program@.len() as usize)
                && final(self)@ == (Model {
                mem: mem_after_load(old(self)@.mem, program@),
                ..old(self)@
            }),
            program@.len() > 3584 ==> r == Err::<usize, ErrorKind>(ErrorKind::ProgramTooLarge)
                && final(self)@ == old(self)@,
    {
        if program.len() > MEM_SIZE - PC_START as usize {
            return Err(ErrorKind::ProgramTooLarge);
        }
        let base = PC_START as usize;
        let mut k: usize = 0;
        while k < program.len()
            invariant
                old(self).wf(),
                base == 0x200,
                program@.len() <= 3584,
                k <= program@.len(),
                self.memory@.len() == 4096,
                forall|j: int| 0 <= j < 4096 && !(0x200 <= j < 0x200 + k)
                    ==> self.memory@[j] == old(self)@.mem[j],
                forall|j: int| 0x200 <= j < 0x200 + k ==> self.memory@[j] == program@[j - 0x200],
                self.v == old(self).v,
                self.addr_reg == old(self).addr_reg,
                self.pc == old(self).pc,
                self.stack == old(self).stack,
                self.sp == old(self).sp,
                self.screen == old(self).screen,
                self.draw_flag == old(self).draw_flag,
                self.key == old(self).key,
                self.delay_timer == old(self).delay_timer,
                self.sound_timer == old(self).sound_timer,
                self.key_to_wait_reg == old(self).key_to_wait_reg,
                self.opcode == old(self).opcode,
            decreases program@.len() - k,
        {
            self.memory.set(base + k, program[k]);
            k = k + 1;
        }
        proof {
            assert(self@.mem =~= mem_after_load(old(self)@.mem, program@));
        }
        Ok(program.len())
    }

    /// One timer tick: both counters move toward zero and stop there.
    /// The host drives this on its own cadence, decoupled from `emulate`.
    pub fn tick_timers(&mut self)
        requires
            old(self).wf(),
        ensures
            final(self).wf(),
            final(self)@ == spec_tick(old(self)@),
    {
        if self.delay_timer > 0 {
            self.delay_timer = self.delay_timer - 1;
        }
        if self.sound_timer > 0 {
            self.sound_timer = self.sound_timer - 1;
        }
    }

    /// Whether the beep signal is owed right now.
    pub fn is_sound_active(&self) -> (r: bool)
        ensures
            r == (self@.sound > 0),
    {
        self.sound_timer > 0
    }

    /// The framebuffer, read-only: 64x32 pixels, row-major, each 0 or 1.
    pub fn framebuffer(&self) -> (r: &Vec<u8>)
        ensures
            r@ == self@.screen,
    {
        &self.screen
    }

    /// A key-down event from the host.  The key is marked held; if the
    /// machine was waiting for a key, the key code is written to the
    /// waiting register, the program counter moves past the wait
    /// instruction, and the machine resumes.
    pub fn key_down(&mut self, code: u8)
        requires
            old(self).wf(),
            code < 16,
        ensures
            final(self).wf(),
            final(self)@ == spec_key_down(old(self)@, code),
    {
        self.key.set(code as usize, true);
        match self.key_to_wait_reg {
            Some(x) => {
                self.v.set(x as usize, code);
                self.key_to_wait_reg = None;
                self.pc = self.pc + 2;
            },
            None => {},
        }
    }

    /// A key-up event from the host.  Only the key table changes; a
    /// pending key wait is never affected.
    pub fn key_up(&mut self, code: u8)
        requires
            old(self).wf(),
            code < 16,
        ensures
            final(self).wf(),
            final(self)@ == spec_key_up(old(self)@, code),
    {
        self.key.set(code as usize, false);
    }

    /// Family 0: 00E0 clears the screen, 00EE returns from a subroutine.
    /// Every other payload is rejected as an invalid opcode.
    pub fn opcode_0(&mut self, op: u16) -> (r: StepResult)
        requires
            old(self).wf(),
            old(self)@.wait is None,
            op_cat(op) == 0x0,
            old(self).pc <= 4094,
        ensures
            final(self).wf(),
            final(self)@ == step_0(old(self)@, op).0,
            r == step_0(old(self)@, op).1,
    {
        if op == 0x00E0 {
            self.screen = filled(SCREEN_WIDTH * SCREEN_HEIGHT, 0u8);
            self.pc = self.pc + 2;
            self.draw_flag = true;
            proof {
                assert(self@.screen =~= Seq::new(2048, |p: int| 0u8));
            }
            StepResult::Executed
        } else if op == 0x00EE {
            if self.sp == 0 {
                return StepResult::Fatal(ErrorKind::StackUnderflow);
            }
            self.sp = self.sp - 1;
            self.pc = self.stack[self.sp];
            StepResult::Executed
        } else {
            StepResult::Fatal(ErrorKind::InvalidOpcode)
        }
    }

    /// 1NNN: jump to NNN.
    pub fn opcode_1(&mut self, op: u16) -> (r: StepResult)
        requires
            old(self).wf(),
            old(self)@.wait is None,
            op_cat(op) == 0x1,
            old(self).pc <= 4094,
        ensures
            final(self).wf(),
            final(self)@ == step_1(old(self)@, op).0,
            r == step_1(old(self)@, op).1,
    {
        let d = decode(op);
        self.pc = d.nnn;
        StepResult::Executed
    }

    /// 2NNN: call the subroutine at NNN, pushing the return address.
    pub fn opcode_2(&mut self, op: u16) -> (r: StepResult)
        requires
            old(self).wf(),
            old(self)@.wait is None,
            op_cat(op) == 0x2,
            old(self).pc <= 4094,
        ensures
            final(self).wf(),
            final(self)@ == step_2(old(self)@, op).0,
            r == step_2(old(self)@, op).1,
    {
        if self.sp >= STACK_SIZE {
            return StepResult::Fatal(ErrorKind::StackOverflow);
        }
        let d = decode(op);
        self.stack.set(self.sp, self.pc + 2);
        self.sp = self.sp + 1;
        self.pc = d.nnn;
        StepResult::Executed
    }

    /// 3XNN: skip the next instruction if VX == NN.
    pub fn opcode_3(&mut self, op: u16) -> (r: StepResult)
        requires
            old(self).wf(),
            old(self)@.wait is None,
            op_cat(op) == 0x3,
            old(self).pc <= 4094,
        ensures
            final(self).wf(),
            final(self)@ == step_3(old(self)@, op).0,
            r == step_3(old(self)@, op).1,
    {
        let d = decode(op);
        if self.v[d.x as usize] == d.nn {
            self.pc = self.pc + 4;
        } else {
            self.pc = self.pc + 2;
        }
        StepResult::Executed
    }

    /// 4XNN: skip the next instruction if VX != NN.
    pub fn opcode_4(&mut self, op: u16) -> (r: StepResult)
        requires
            old(self).wf(),
            old(self)@.wait is None,
            op_cat(op) == 0x4,
            old(self).pc <= 4094,
        ensures
            final(self).wf(),
            final(self)@ == step_4(old(self)@, op).0,
            r == step_4(old(self)@, op).1,
    {
        let d = decode(op);
        if self.v[d.x as usize] != d.nn {
            self.pc = self.pc + 4;
        } else {
            self.pc = self.pc + 2;
        }
        StepResult::Executed
    }

    /// 5XY0: skip the next instruction if VX == VY.
    pub fn opcode_5(&mut self, op: u16) -> (r: StepResult)
        requires
            old(self).wf(),
            old(self)@.wait is None,
            op_cat(op) == 0x5,
            old(self).pc <= 4094,
        ensures
            final(self).wf(),
            final(self)@ == step_5(old(self)@, op).0,
            r == step_5(old(self)@, op).1,
    {
        let d = decode(op);
        if d.n != 0 {
            return StepResult::Fatal(ErrorKind::InvalidOpcode);
        }
        if self.v[d.x as usize] == self.v[d.y as usize] {
            self.pc = self.pc + 4;
        } else {
            self.pc = self.pc + 2;
        }
        StepResult::Executed
    }

    /// 6XNN: VX := NN.
    pub fn opcode_6(&mut self, op: u16) -> (r: StepResult)
        requires
            old(self).wf(),
            old(self)@.wait is None,
            op_cat(op) == 0x6,
            old(self).pc <= 4094,
        ensures
            final(self).wf(),
            final(self)@ == step_6(old(self)@, op).0,
            r == step_6(old(self)@, op).1,
    {
        let d = decode(op);
        self.v.set(d.x as usize, d.nn);
        self.pc = self.pc + 2;
        StepResult::Executed
    }

    /// 7XNN: VX := VX + NN, wrapping; no flag is produced.
    pub fn opcode_7(&mut self, op: u16) -> (r: StepResult)
        requires
            old(self).wf(),
            old(self)@.wait is None,
            op_cat(op) == 0x7,
            old(self).pc <= 4094,
        ensures
            final(self).wf(),
            final(self)@ == step_7(old(self)@, op).0,
            r == step_7(old(self)@, op).1,
    {
        let d = decode(op);
        let sum: u16 = self.v[d.x as usize] as u16 + d.nn as u16;
        self.v.set(d.x as usize, (sum % 256) as u8);
        self.pc = self.pc + 2;
        StepResult::Executed
    }

    /// Family 8: moves, bitwise operations, add/subtract with the flag
    /// conventions, and shifts.  Operands are read into temporaries
    /// before any register is written, so X and Y may coincide.
    pub fn opcode_8(&mut self, op: u16) -> (r: StepResult)
        requires
            old(self).wf(),
            old(self)@.wait is None,
            op_cat(op) == 0x8,
            old(self).pc <= 4094,
        ensures
            final(self).wf(),
            final(self)@ == step_8(old(self)@, op).0,
            r == step_8(old(self)@, op).1,
    {
        let d = decode(op);
        let x = d.x as usize;
        let vx = self.v[x];
        let vy = self.v[d.y as usize];
        if d.n == 0 {
            self.v.set(x, vy);
        } else if d.n == 1 {
            self.v.set(x, vx | vy);
        } else if d.n == 2 {
            self.v.set(x, vx & vy);
        } else if d.n == 3 {
            self.v.set(x, vx ^ vy);
        } else if d.n == 4 {
            // VF := 1 on carry out of the top bit, else 0.
            let sum: u16 = vx as u16 + vy as u16;
            self.v.set(15, if sum > 255 { 1 } else { 0 });
            self.v.set(x, (sum % 256) as u8);
        } else if d.n == 5 {
            // VX := VX - VY; VF := 1 when there is no borrow.
            self.v.set(15, if vx >= vy { 1 } else { 0 });
            self.v.set(x, if vx >= vy { vx - vy } else { (256 + vx as u16 - vy as u16) as u8 });
        } else if d.n == 6 {
            // VF := the least significant bit of VX before the shift.
            self.v.set(15, vx & 1);
            self.v.set(x, vx >> 1);
        } else if d.n == 7 {
            // VX := VY - VX; VF := 1 when there is no borrow.
            self.v.set(15, if vy >= vx { 1 } else { 0 });
            self.v.set(x, if vy >= vx { vy - vx } else { (256 + vy as u16 - vx as u16) as u8 });
        } else if d.n == 0xE {
            // VF := the most significant bit of VX before the shift.
            self.v.set(15, (vx & 0x80) >> 7);
            self.v.set(x, vx << 1);
        } else {
            return StepResult::Fatal(ErrorKind::InvalidOpcode);
        }
        self.pc = self.pc + 2;
        StepResult::Executed
    }

    /// 9XY0: skip the next instruction if VX != VY.
    pub fn opcode_9(&mut self, op: u16) -> (r: StepResult)
        requires
            old(self).wf(),
            old(self)@.wait is None,
            op_cat(op) == 0x9,
            old(self).pc <= 4094,
        ensures
            final(self).wf(),
            final(self)@ == step_9(old(self)@, op).0,
            r == step_9(old(self)@, op).1,
    {
        let d = decode(op);
        if d.n != 0 {
            return StepResult::Fatal(ErrorKind::InvalidOpcode);
        }
        if self.v[d.x as usize] != self.v[d.y as usize] {
            self.pc = self.pc + 4;
        } else {
            self.pc = self.pc + 2;
        }
        StepResult::Executed
    }

    /// ANNN: I := NNN.
    pub fn opcode_a(&mut self, op: u16) -> (r: StepResult)
        requires
            old(self).wf(),
            old(self)@.wait is None,
            op_cat(op) == 0xA,
            old(self).pc <= 4094,
        ensures
            final(self).wf(),
            final(self)@ == step_a(old(self)@, op).0,
            r == step_a(old(self)@, op).1,
    {
        let d = decode(op);
        self.addr_reg = d.nnn;
        self.pc = self.pc + 2;
        StepResult::Executed
    }

    /// BNNN: jump to V0 + NNN.
    pub fn opcode_b(&mut self, op: u16) -> (r: StepResult)
        requires
            old(self).wf(),
            old(self)@.wait is None,
            op_cat(op) == 0xB,
            old(self).pc <= 4094,
        ensures
            final(self).wf(),
            final(self)@ == step_b(old(self)@, op).0,
            r == step_b(old(self)@, op).1,
    {
        let d = decode(op);
        self.pc = self.v[0] as u16 + d.nnn;
        StepResult::Executed
    }

    /// CXNN: VX := random byte AND NN.  The byte comes from the host's
    /// random source; the contract holds for every byte it may produce.
    pub fn opcode_c(&mut self, op: u16) -> (r: StepResult)
        requires
            old(self).wf(),
            old(self)@.wait is None,
            op_cat(op) == 0xC,
            old(self).pc <= 4094,
        ensures
            final(self).wf(),
            exists|b: u8|
                final(self)@ == #[trigger] step_c(old(self)@, op, b).0 && r == step_c(
                    old(self)@,
                    op,
                    b,
                ).1,
    {
        let b = random_byte();
        let d = decode(op);
        self.v.set(d.x as usize, b & d.nn);
        self.pc = self.pc + 2;
        proof {
            assert(self@ == step_c(old(self)@, op, b).0);
        }
        StepResult::Executed
    }

    /// Family E: skip on the state of the key named by VX.  A value of VX
    /// outside the 16 keys is rejected rather than reduced.
    pub fn opcode_e(&mut self, op: u16) -> (r: StepResult)
        requires
            old(self).wf(),
            old(self)@.wait is None,
            op_cat(op) == 0xE,
            old(self).pc <= 4094,
        ensures
            final(self).wf(),
            final(self)@ == step_e(old(self)@, op).0,
            r == step_e(old(self)@, op).1,
    {
        let d = decode(op);
        let vx = self.v[d.x as usize];
        if d.nn == 0x9E {
            if vx >= 16 {
                return StepResult::Fatal(ErrorKind::InvalidOpcode);
            }
            if self.key[vx as usize] {
                self.pc = self.pc + 4;
            } else {
                self.pc = self.pc + 2;
            }
            StepResult::Executed
        } else if d.nn == 0xA1 {
            if vx >= 16 {
                return StepResult::Fatal(ErrorKind::InvalidOpcode);
            }
            if !self.key[vx as usize] {
                self.pc = self.pc + 4;
            } else {
                self.pc = self.pc + 2;
            }
            StepResult::Executed
        } else {
            StepResult::Fatal(ErrorKind::InvalidOpcode)
        }
    }

    /// One scheduling tick: fetch, decode and execute one instruction.
    ///
    /// A machine waiting for a key reports `Blocked` and changes nothing.
    /// A program counter from which two bytes cannot be fetched, and
    /// every failure inside an instruction, is fatal: the result says
    /// why, and the state is exactly as before the call.  On success the
    /// fetched word is recorded in `opcode`.  Timers are never advanced
    /// here; the host drives `tick_timers` on its own cadence.
    ///
    /// The contract is one transition of [`spec_step`]; the random byte
    /// is existential because only family C consults it, and for every
    /// other instruction the step is pinned to `spec_step(_, 0)`.
    #[verifier::rlimit(100)]
    pub fn emulate(&mut self) -> (r: StepResult)
        requires
            old(self).wf(),
        ensures
            final(self).wf(),
            exists|b: u8|
                final(self)@ == #[trigger] spec_step(old(self)@, b).0 && r == spec_step(
                    old(self)@,
                    b,
                ).1,
            !is_rand_step(old(self)@) ==> final(self)@ == spec_step(old(self)@, 0).0 && r
                == spec_step(old(self)@, 0).1,
    {
        if self.key_to_wait_reg.is_some() {
            proof {
                assert(self@ == spec_step(old(self)@, 0).0 && StepResult::Blocked == spec_step(
                    old(self)@,
                    0,
                ).1);
            }
            return StepResult::Blocked;
        }
        if self.pc > 4094 {
            proof {
                assert(self@ == spec_step(old(self)@, 0).0 && StepResult::Fatal(
                    ErrorKind::InvalidOpcode,
                ) == spec_step(old(self)@, 0).1);
            }
            return StepResult::Fatal(ErrorKind::InvalidOpcode);
        }
        let hi = self.memory[self.pc as usize];
        let lo = self.memory[self.pc as usize + 1];
        let op = ((hi as u16) << 8) | (lo as u16);
        proof {
            assert(op == fetch(old(self)@));
        }
        let cat = op >> 12;
        let res = if cat == 0x0 {
            self.opcode_0(op)
        } else if cat == 0x1 {
            self.opcode_1(op)
        } else if cat == 0x2 {
            self.opcode_2(op)
        } else if cat == 0x3 {
            self.opcode_3(op)
        } else if cat == 0x4 {
            self.opcode_4(op)
        } else if cat == 0x5 {
            self.opcode_5(op)
        } else if cat == 0x6 {
            self.opcode_6(op)
        } else if cat == 0x7 {
            self.opcode_7(op)
        } else if cat == 0x8 {
            self.opcode_8(op)
        } else if cat == 0x9 {
            self.opcode_9(op)
        } else if cat == 0xA {
            self.opcode_a(op)
        } else if cat == 0xB {
            self.opcode_b(op)
        } else if cat == 0xC {
            self.opcode_c(op)
        } else if cat == 0xD {
            self.opcode_d(op)
        } else if cat == 0xE {
            self.opcode_e(op)
        } else {
            proof {
                assert(op >> 12 <= 15) by (bit_vector);
            }
            self.opcode_f(op)
        };
        let ghost pre = old(self)@;
        let ghost mid = self@;
        let ghost b0: u8 = if op_cat(op) == 0xC {
            choose|b: u8|
                mid == #[trigger] step_c(pre, op, b).0 && res == step_c(pre, op, b).1
        } else {
            0u8
        };
        proof {
            assert(mid == spec_exec(pre, op, b0).0 && res == spec_exec(pre, op, b0).1);
            if op_cat(op) != 0xC {
                lemma_exec_rand_independent(pre, op, b0);
            }
        }
        match res {
            StepResult::Fatal(_) => {
                proof {
                    lemma_exec_fatal_unchanged(pre, op, b0);
                    assert(self@ == spec_step(pre, b0).0 && res == spec_step(pre, b0).1);
                }
                res
            },
            _ => {
                self.opcode = op;
                proof {
                    assert(self@ == Model { opcode: op, ..spec_exec(pre, op, b0).0 });
                    assert(self@ == spec_step(pre, b0).0 && res == spec_step(pre, b0).1);
                }
                res
            },
        }
    }

    /// DXYN: blit the N-row sprite at memory address I to (VX, VY),
    /// toggling every pixel a set sprite bit lands on; VF := 1 exactly
    /// when some pixel went from set to unset.  Coordinates wrap around
    /// the 64x32 grid.  A sprite that would be read past the end of
    /// memory is rejected.
    pub fn opcode_d(&mut self, op: u16) -> (r: StepResult)
        requires
            old(self).wf(),
            old(self)@.wait is None,
            op_cat(op) == 0xD,
            old(self).pc <= 4094,
        ensures
            final(self).wf(),
            final(self)@ == step_d(old(self)@, op).0,
            r == step_d(old(self)@, op).1,
    {
        let d = decode(op);
        let n = d.n as usize;
        if n > 0 && self.addr_reg as usize + n > MEM_SIZE {
            return StepResult::Fatal(ErrorKind::InvalidOpcode);
        }
        let i = self.addr_reg as usize;
        let vx = self.v[d.x as usize] as usize;
        let vy = self.v[d.y as usize] as usize;
        self.v.set(15, 0);
        let ghost pre = old(self)@;
        let ghost gi = pre.i as int;
        let ghost gvx = pre.v[op_x(op) as int] as int;
        let ghost gvy = pre.v[op_y(op) as int] as int;
        let ghost gn = op_n(op) as int;
        proof {
            assert(self.v@ =~= pre.v.update(
                15,
                if draw_collision_upto(pre.screen, pre.mem, gi, gvx, gvy, gn, 0, 0) {
                    1u8
                } else {
                    0u8
                },
            ));
        }
        let mut row: usize = 0;
        while row < n
            invariant
                old(self).wf(),
                pre == old(self)@,
                gi == pre.i as int,
                gvx == pre.v[op_x(op) as int] as int,
                gvy == pre.v[op_y(op) as int] as int,
                gn == op_n(op) as int,
                i as int == gi,
                vx as int == gvx,
                vy as int == gvy,
                n as int == gn,
                n <= 15,
                row <= n,
                n > 0 ==> gi + gn <= 4096,
                self.memory == old(self).memory,
                self.addr_reg == old(self).addr_reg,
                self.pc == old(self).pc,
                self.stack == old(self).stack,
                self.sp == old(self).sp,
                self.draw_flag == old(self).draw_flag,
                self.key == old(self).key,
                self.delay_timer == old(self).delay_timer,
                self.sound_timer == old(self).sound_timer,
                self.key_to_wait_reg == old(self).key_to_wait_reg,
                self.opcode == old(self).opcode,
                self.v@ == pre.v.update(
                    15,
                    if draw_collision_upto(pre.screen, pre.mem, gi, gvx, gvy, gn, row as int, 0) {
                        1u8
                    } else {
                        0u8
                    },
                ),
                self.screen@.len() == 2048,
                forall|p: int|
                    0 <= p < 2048 ==> self.screen@[p] == (if draw_hits_upto(
                        pre.mem,
                        gi,
                        gvx,
                        gvy,
                        gn,
                        row as int,
                        0,
                        p,
                    ) {
                        flip_pixel(pre.screen[p])
                    } else {
                        pre.screen[p]
                    }),
            decreases n - row,
        {
            let sprite = self.memory[i + row];
            let mut col: usize = 0;
            while col < 8
                invariant
                    old(self).wf(),
                    pre == old(self)@,
                    gi == pre.i as int,
                    gvx == pre.v[op_x(op) as int] as int,
                    gvy == pre.v[op_y(op) as int] as int,
                    gn == op_n(op) as int,
                    i as int == gi,
                    vx as int == gvx,
                    vy as int == gvy,
                    n as int == gn,
                    n <= 15,
                    row < n,
                    col <= 8,
                    gi + gn <= 4096,
                    sprite == pre.mem[gi + row as int],
                    self.memory == old(self).memory,
                    self.addr_reg == old(self).addr_reg,
                    self.pc == old(self).pc,
                    self.stack == old(self).stack,
                    self.sp == old(self).sp,
                    self.draw_flag == old(self).draw_flag,
                    self.key == old(self).key,
                    self.delay_timer == old(self).delay_timer,
                    self.sound_timer == old(self).sound_timer,
                    self.key_to_wait_reg == old(self).key_to_wait_reg,
                    self.opcode == old(self).opcode,
                    self.v@ == pre.v.update(
                        15,
                        if draw_collision_upto(
                            pre.screen,
                            pre.mem,
                            gi,
                            gvx,
                            gvy,
                            gn,
                            row as int,
                            col as int,
                        ) {
                            1u8
                        } else {
                            0u8
                        },
                    ),
                    self.screen@.len() == 2048,
                    forall|p: int|
                        0 <= p < 2048 ==> self.screen@[p] == (if draw_hits_upto(
                            pre.mem,
                            gi,
                            gvx,
                            gvy,
                            gn,
                            row as int,
                            col as int,
                            p,
                        ) {
                            flip_pixel(pre.screen[p])
                        } else {
                            pre.screen[p]
                        }),
                decreases 8 - col,
            {
                let ghost rr = row as int;
                let ghost cc = col as int;
                if sprite & (0x80u8 >> (col as u8)) != 0 {
                    let px = (vx + col) % SCREEN_WIDTH;
                    let py = (vy + row) % SCREEN_HEIGHT;
                    let q = py * SCREEN_WIDTH + px;
                    proof {
                        vstd::arithmetic::div_mod::lemma_mod_bound(gvx + cc, 64);
                        vstd::arithmetic::div_mod::lemma_mod_bound(gvy + rr, 32);
                        assert(q as int == pixel_index(gvx + cc, gvy + rr));
                        assert(0 <= q < 2048);
                        assert(sprite_bit(pre.mem[gi + rr], cc));
                        // No earlier sprite bit has landed on this pixel.
                        if draw_hits_upto(pre.mem, gi, gvx, gvy, gn, rr, cc, q as int) {
                            let (r2, c2) = choose|r2: int, c2: int|
                                0 <= r2 < gn && 0 <= c2 < 8 && (r2 < rr || (r2 == rr && c2 < cc))
                                    && #[trigger] sprite_bit(pre.mem[gi + r2], c2) && q as int
                                    == pixel_index(gvx + c2, gvy + r2);
                            lemma_pixel_index_injective(gvx, gvy, c2, r2, cc, rr);
                            assert(false);
                        }
                        assert(self.screen@[q as int] == pre.screen[q as int]);
                    }
                    let hit = self.screen[q] == 1;
                    if hit {
                        self.v.set(15, 1);
                        proof {
                            assert(pre.screen[q as int] == 1);
                            assert(draw_collision_upto(
                                pre.screen,
                                pre.mem,
                                gi,
                                gvx,
                                gvy,
                                gn,
                                rr,
                                cc + 1,
                            ));
                            assert(self.v@ =~= pre.v.update(15, 1u8));
                        }
                    } else {
                        proof {
                            // The new bit does not collide, so the flag is
                            // decided by the bits before it.
                            if draw_collision_upto(pre.screen, pre.mem, gi, gvx, gvy, gn, rr, cc + 1)
                                && !draw_collision_upto(
                                pre.screen,
                                pre.mem,
                                gi,
                                gvx,
                                gvy,
                                gn,
                                rr,
                                cc,
                            ) {
                                let (r2, c2) = choose|r2: int, c2: int|
                                    0 <= r2 < gn && 0 <= c2 < 8 && (r2 < rr || (r2 == rr && c2 < cc
                                        + 1)) && #[trigger] sprite_bit(pre.mem[gi + r2], c2)
                                        && pre.screen[pixel_index(gvx + c2, gvy + r2)] == 1;
                                assert(r2 == rr && c2 == cc);
                                assert(false);
                            }
                            if draw_collision_upto(pre.screen, pre.mem, gi, gvx, gvy, gn, rr, cc) {
                                let (r2, c2) = choose|r2: int, c2: int|
                                    0 <= r2 < gn && 0 <= c2 < 8 && (r2 < rr || (r2 == rr && c2
                                        < cc)) && #[trigger] sprite_bit(pre.mem[gi + r2], c2)
                                        && pre.screen[pixel_index(gvx + c2, gvy + r2)] == 1;
                                assert(draw_collision_upto(
                                    pre.screen,
                                    pre.mem,
                                    gi,
                                    gvx,
                                    gvy,
                                    gn,
                                    rr,
                                    cc + 1,
                                ));
                            }
                        }
                    }
                    let cur = self.screen[q];
                    self.screen.set(q, if cur == 0 { 1 } else { 0 });
                    proof {
                        assert(draw_hits_upto(pre.mem, gi, gvx, gvy, gn, rr, cc + 1, q as int));
                        assert forall|p: int| 0 <= p < 2048 implies self.screen@[p] == (if
                            draw_hits_upto(pre.mem, gi, gvx, gvy, gn, rr, cc + 1, p) {
                            flip_pixel(pre.screen[p])
                        } else {
                            pre.screen[p]
                        }) by {
                            if p != q as int {
                                if draw_hits_upto(pre.mem, gi, gvx, gvy, gn, rr, cc + 1, p)
                                    && !draw_hits_upto(pre.mem, gi, gvx, gvy, gn, rr, cc, p) {
                                    let (r2, c2) = choose|r2: int, c2: int|
                                        0 <= r2 < gn && 0 <= c2 < 8 && (r2 < rr || (r2 == rr && c2
                                            < cc + 1)) && #[trigger] sprite_bit(
                                            pre.mem[gi + r2],
                                            c2,
                                        ) && p == pixel_index(gvx + c2, gvy + r2);
                                    assert(r2 == rr && c2 == cc);
                                    assert(false);
                                }
                                if draw_hits_upto(pre.mem, gi, gvx, gvy, gn, rr, cc, p) {
                                    let (r2, c2) = choose|r2: int, c2: int|
                                        0 <= r2 < gn && 0 <= c2 < 8 && (r2 < rr || (r2 == rr && c2
                                            < cc)) && #[trigger] sprite_bit(pre.mem[gi + r2], c2)
                                            && p == pixel_index(gvx + c2, gvy + r2);
                                    assert(draw_hits_upto(pre.mem, gi, gvx, gvy, gn, rr, cc + 1, p));
                                }
                            }
                        }
                    }
                } else {
                    proof {
                        assert(!sprite_bit(pre.mem[gi + rr], cc));
                        assert forall|p: int| 0 <= p < 2048 implies draw_hits_upto(
                            pre.mem,
                            gi,
                            gvx,
                            gvy,
                            gn,
                            rr,
                            cc + 1,
                            p,
                        ) == draw_hits_upto(pre.mem, gi, gvx, gvy, gn, rr, cc, p) by {
                            if draw_hits_upto(pre.mem, gi, gvx, gvy, gn, rr, cc + 1, p)
                                && !draw_hits_upto(pre.mem, gi, gvx, gvy, gn, rr, cc, p) {
                                let (r2, c2) = choose|r2: int, c2: int|
                                    0 <= r2 < gn && 0 <= c2 < 8 && (r2 < rr || (r2 == rr && c2 < cc
                                        + 1)) && #[trigger] sprite_bit(pre.mem[gi + r2], c2) && p
                                        == pixel_index(gvx + c2, gvy + r2);
                                assert(r2 == rr && c2 == cc);
                                assert(false);
                            }
                            if draw_hits_upto(pre.mem, gi, gvx, gvy, gn, rr, cc, p) {
                                let (r2, c2) = choose|r2: int, c2: int|
                                    0 <= r2 < gn && 0 <= c2 < 8 && (r2 < rr || (r2 == rr && c2
                                        < cc)) && #[trigger] sprite_bit(pre.mem[gi + r2], c2) && p
                                        == pixel_index(gvx + c2, gvy + r2);
                                assert(draw_hits_upto(pre.mem, gi, gvx, gvy, gn, rr, cc + 1, p));
                            }
                        }
                        if draw_collision_upto(pre.screen, pre.mem, gi, gvx, gvy, gn, rr, cc + 1)
                            && !draw_collision_upto(pre.screen, pre.mem, gi, gvx, gvy, gn, rr, cc) {
                            let (r2, c2) = choose|r2: int, c2: int|
                                0 <= r2 < gn && 0 <= c2 < 8 && (r2 < rr || (r2 == rr && c2 < cc
                                    + 1)) && #[trigger] sprite_bit(pre.mem[gi + r2], c2)
                                    && pre.screen[pixel_index(gvx + c2, gvy + r2)] == 1;
                            assert(r2 == rr && c2 == cc);
                            assert(false);
                        }
                        if draw_collision_upto(pre.screen, pre.mem, gi, gvx, gvy, gn, rr, cc) {
                            let (r2, c2) = choose|r2: int, c2: int|
                                0 <= r2 < gn && 0 <= c2 < 8 && (r2 < rr || (r2 == rr && c2 < cc))
                                    && #[trigger] sprite_bit(pre.mem[gi + r2], c2)
                                    && pre.screen[pixel_index(gvx + c2, gvy + r2)] == 1;
                            assert(draw_collision_upto(
                                pre.screen,
                                pre.mem,
                                gi,
                                gvx,
                                gvy,
                                gn,
                                rr,
                                cc + 1,
                            ));
                        }
                    }
                }
                col = col + 1;
            }
            proof {
                assert forall|p: int| 0 <= p < 2048 implies draw_hits_upto(
                    pre.mem,
                    gi,
                    gvx,
                    gvy,
                    gn,
                    row as int,
                    8,
                    p,
                ) == draw_hits_upto(pre.mem, gi, gvx, gvy, gn, row as int + 1, 0, p) by {
                    lemma_hits_row_roll(pre.mem, gi, gvx, gvy, gn, row as int, p);
                }
                lemma_collision_row_roll(pre.screen, pre.mem, gi, gvx, gvy, gn, row as int);
            }
            row = row + 1;
        }
        proof {
            assert forall|p: int| 0 <= p < 2048 implies draw_hits_upto(
                pre.mem,
                gi,
                gvx,
                gvy,
                gn,
                gn,
                0,
                p,
            ) == draw_hits(pre.mem, gi, gvx, gvy, gn, p) by {
                lemma_hits_full(pre.mem, gi, gvx, gvy, gn, p);
            }
            lemma_collision_full(pre.screen, pre.mem, gi, gvx, gvy, gn);
            assert(self@.screen =~= screen_after_draw(pre.screen, pre.mem, gi, gvx, gvy, gn));
        }
        self.pc = self.pc + 2;
        self.draw_flag = true;
        StepResult::Executed
    }

    /// Family F: timers, the key wait, index-register arithmetic, the
    /// font lookup, decimal decomposition, and register dump/load.
    pub fn opcode_f(&mut self, op: u16) -> (r: StepResult)
        requires
            old(self).wf(),
            old(self)@.wait is None,
            op_cat(op) == 0xF,
            old(self).pc <= 4094,
        ensures
            final(self).wf(),
            final(self)@ == step_f(old(self)@, op).0,
            r == step_f(old(self)@, op).1,
    {
        let d = decode(op);
        let x = d.x as usize;
        if d.nn == 0x07 {
            // FX07: VX := delay timer.
            let t = self.delay_timer;
            self.v.set(x, t);
            self.pc = self.pc + 2;
            StepResult::Executed
        } else if d.nn == 0x0A {
            // FX0A: block until a key press arrives for register X.  The
            // program counter is held; `key_down` advances it on resume.
            self.key_to_wait_reg = Some(d.x as u8);
            StepResult::Blocked
        } else if d.nn == 0x15 {
            // FX15: delay timer := VX.
            self.delay_timer = self.v[x];
            self.pc = self.pc + 2;
            StepResult::Executed
        } else if d.nn == 0x18 {
            // FX18: sound timer := VX.
            self.sound_timer = self.v[x];
            self.pc = self.pc + 2;
            StepResult::Executed
        } else if d.nn == 0x1E {
            // FX1E: I := I + VX; I may grow past 0xFFF and wraps only at
            // the register width.
            let wide: u32 = self.addr_reg as u32 + self.v[x] as u32;
            self.addr_reg = (wide % 0x10000) as u16;
            self.pc = self.pc + 2;
            StepResult::Executed
        } else if d.nn == 0x29 {
            // FX29: I := the font glyph address of the digit in VX.
            let vx = self.v[x];
            if vx > 0xF {
                return StepResult::Fatal(ErrorKind::InvalidFontIndex);
            }
            self.addr_reg = vx as u16 * 5;
            self.pc = self.pc + 2;
            StepResult::Executed
        } else if d.nn == 0x33 {
            // FX33: the decimal digits of VX, hundreds first, at I.
            if self.addr_reg as usize + 3 > MEM_SIZE {
                return StepResult::Fatal(ErrorKind::InvalidOpcode);
            }
            let i = self.addr_reg as usize;
            let vx = self.v[x];
            self.memory.set(i, vx / 100);
            self.memory.set(i + 1, (vx / 10) % 10);
            self.memory.set(i + 2, vx % 10);
            self.pc = self.pc + 2;
            StepResult::Executed
        } else if d.nn == 0x55 {
            // FX55: copy V0..VX inclusive to memory at I; I is unchanged.
            if self.addr_reg as usize + x + 1 > MEM_SIZE {
                return StepResult::Fatal(ErrorKind::InvalidOpcode);
            }
            let i = self.addr_reg as usize;
            let mut j: usize = 0;
            while j <= x
                invariant
                    old(self).wf(),
                    x < 16,
                    j <= x + 1,
                    i == old(self).addr_reg as usize,
                    i + x + 1 <= 4096,
                    self.memory@.len() == 4096,
                    forall|a: int| 0 <= a < 4096 && !(i <= a < i + j)
                        ==> self.memory@[a] == old(self)@.mem[a],
                    forall|a: int| i <= a < i + j ==> self.memory@[a] == old(self)@.v[a - i],
                    self.v == old(self).v,
                    self.addr_reg == old(self).addr_reg,
                    self.pc == old(self).pc,
                    self.stack == old(self).stack,
                    self.sp == old(self).sp,
                    self.screen == old(self).screen,
                    self.draw_flag == old(self).draw_flag,
                    self.key == old(self).key,
                    self.delay_timer == old(self).delay_timer,
                    self.sound_timer == old(self).sound_timer,
                    self.key_to_wait_reg == old(self).key_to_wait_reg,
                    self.opcode == old(self).opcode,
                decreases x + 1 - j,
            {
                let val = self.v[j];
                self.memory.set(i + j, val);
                j = j + 1;
            }
            proof {
                let pre = old(self)@;
                let xi = op_x(op) as int;
                let ii = pre.i as int;
                assert(self@.mem =~= Seq::new(
                    4096,
                    |a: int|
                        if ii <= a <= ii + xi {
                            pre.v[a - ii]
                        } else {
                            pre.mem[a]
                        },
                ));
            }
            self.pc = self.pc + 2;
            StepResult::Executed
        } else if d.nn == 0x65 {
            // FX65: fill V0..VX inclusive from memory at I; I is unchanged.
            if self.addr_reg as usize + x + 1 > MEM_SIZE {
                return StepResult::Fatal(ErrorKind::InvalidOpcode);
            }
            let i = self.addr_reg as usize;
            let mut j: usize = 0;
            while j <= x
                invariant
                    old(self).wf(),
                    x < 16,
                    j <= x + 1,
                    i == old(self).addr_reg as usize,
                    i + x + 1 <= 4096,
                    self.v@.len() == 16,
                    forall|k: int| 0 <= k < 16 && !(k < j) ==> self.v@[k] == old(self)@.v[k],
                    forall|k: int| 0 <= k < j ==> self.v@[k] == old(self)@.mem[i + k],
                    self.memory == old(self).memory,
                    self.addr_reg == old(self).addr_reg,
                    self.pc == old(self).pc,
                    self.stack == old(self).stack,
                    self.sp == old(self).sp,
                    self.screen == old(self).screen,
                    self.draw_flag == old(self).draw_flag,
                    self.key == old(self).key,
                    self.delay_timer == old(self).delay_timer,
                    self.sound_timer == old(self).sound_timer,
                    self.key_to_wait_reg == old(self).key_to_wait_reg,
                    self.opcode == old(self).opcode,
                decreases x + 1 - j,
            {
                let val = self.memory[i + j];
                self.v.set(j, val);
                j = j + 1;
            }
            proof {
                let pre = old(self)@;
                let xi = op_x(op) as int;
                let ii = pre.i as int;
                assert(self@.v =~= Seq::new(
                    16,
                    |k: int|
                        if 0 <= k <= xi {
                            pre.mem[ii + k]
                        } else {
                            pre.v[k]
                        },
                ));
            }
            self.pc = self.pc + 2;
            StepResult::Executed
        } else {
            StepResult::Fatal(ErrorKind::InvalidOpcode)
        }
    }
}

} // verus!
