//! Machine-level behaviour: initialization, program loading, timers,
//! keys, the key wait, the sprite blit, and the fatal paths.

use chip8::vm::font_set;
use chip8::vm::Chip8;
use chip8::vm::PC_START;
use chip8::ErrorKind;
use chip8::StepResult;

const MEM_SIZE: usize = 4096;
const SCREEN_PIXELS: usize = 64 * 32;

fn store_opcode(emu: &mut Chip8, opcode: &[u16]) {
    let mut pc = PC_START as usize;

    for op in opcode {
        emu.memory[pc] = (op >> 8) as u8;
        emu.memory[pc + 1] = (op & 0x00FF) as u8;
        pc += 2;
    }
}

/// A copy of every field, for checking that a fatal step changed nothing.
#[derive(Debug, PartialEq)]
struct Snapshot {
    opcode: u16,
    memory: Vec<u8>,
    v: Vec<u8>,
    addr_reg: u16,
    pc: u16,
    stack: Vec<u16>,
    sp: usize,
    screen: Vec<u8>,
    draw_flag: bool,
    key: Vec<bool>,
    delay_timer: u8,
    sound_timer: u8,
    key_to_wait_reg: Option<u8>,
}

fn snapshot(emu: &Chip8) -> Snapshot {
    Snapshot {
        opcode: emu.opcode,
        memory: emu.memory.clone(),
        v: emu.v.clone(),
        addr_reg: emu.addr_reg,
        pc: emu.pc,
        stack: emu.stack.clone(),
        sp: emu.sp,
        screen: emu.screen.clone(),
        draw_flag: emu.draw_flag,
        key: emu.key.clone(),
        delay_timer: emu.delay_timer,
        sound_timer: emu.sound_timer,
        key_to_wait_reg: emu.key_to_wait_reg,
    }
}

#[test]
fn test_init() {
    let emu = Chip8::init();
    let font = font_set();

    assert_eq!(emu.pc, PC_START);
    assert_eq!(emu.opcode, 0);
    assert_eq!(emu.addr_reg, 0);
    assert_eq!(emu.sp, 0);
    assert_eq!(emu.v, vec![0u8; 16]); // register is 8 bit wide
    assert_eq!(emu.stack, vec![0u16; 24]); // stack is 16 bit wide
    assert_eq!(emu.memory[0..font.len()], font[..]);
    assert_eq!(
        emu.memory[font.len()..MEM_SIZE],
        vec![0u8; MEM_SIZE - font.len()][..]
    ); // memory is 8 bit wide
    assert_eq!(emu.screen, vec![0u8; SCREEN_PIXELS]); // screen use u8
    assert_eq!(emu.draw_flag, false);
    assert_eq!(emu.delay_timer, 0);
    assert_eq!(emu.sound_timer, 0);
    assert_eq!(emu.key, vec![false; 16]);
    assert_eq!(emu.key_to_wait_reg, None);
}

#[test]
fn test_load_game() {
    let mut emu = Chip8::init();
    let image = vec![0xABu8; 132];
    let size = emu.load_game(&image).unwrap();

    assert_eq!(size, 132);
    assert_eq!(emu.memory[0x200..0x200 + 132], image[..]);
    // The font table and the rest of memory are untouched.
    assert_eq!(emu.memory[0..80], font_set()[..]);
    assert!(emu.memory[0x200 + 132..].iter().all(|&b| b == 0));
}

#[test]
fn test_load_game_too_large() {
    let mut emu = Chip8::init();
    let before = snapshot(&emu);

    let image = vec![0xCDu8; MEM_SIZE - 0x200 + 1];
    let r = emu.load_game(&image);

    assert_eq!(r, Err(ErrorKind::ProgramTooLarge));
    assert_eq!(snapshot(&emu), before);

    // The largest image that still fits is accepted whole.
    let image = vec![0xCDu8; MEM_SIZE - 0x200];
    assert_eq!(emu.load_game(&image), Ok(MEM_SIZE - 0x200));
    assert_eq!(emu.memory[MEM_SIZE - 1], 0xCD);
}

#[test]
fn test_load_game_empty() {
    let mut emu = Chip8::init();
    let before = snapshot(&emu);
    assert_eq!(emu.load_game(&Vec::new()), Ok(0));
    assert_eq!(snapshot(&emu), before);
}

#[test]
fn test_call_return_round_trip() {
    let mut emu = Chip8::init();

    // A call to 0x300, where a return instruction waits.
    store_opcode(&mut emu, &[0x2300]);
    emu.memory[0x300] = 0x00;
    emu.memory[0x301] = 0xEE;

    assert_eq!(emu.emulate(), StepResult::Executed);
    assert_eq!(emu.pc, 0x300);
    assert_eq!(emu.sp, 1);

    assert_eq!(emu.emulate(), StepResult::Executed);
    assert_eq!(emu.pc, PC_START + 2);
    assert_eq!(emu.sp, 0);
}

#[test]
fn test_reg_dump_load_round_trip() {
    let mut emu = Chip8::init();

    emu.addr_reg = 0x300;
    for i in 0..6 {
        emu.v[i] = (0x30 + i) as u8;
    }
    let regs_before = emu.v.clone();

    store_opcode(&mut emu, &[0xF555, 0xF565]);

    assert_eq!(emu.emulate(), StepResult::Executed);
    assert_eq!(emu.addr_reg, 0x300);
    assert_eq!(emu.emulate(), StepResult::Executed);
    assert_eq!(emu.addr_reg, 0x300);
    assert_eq!(emu.v, regs_before);
}

#[test]
fn test_draw_and_collision() {
    let mut emu = Chip8::init();

    // One sprite row of eight set bits at 0x250, drawn at (3, 5) twice.
    emu.memory[0x250] = 0xFF;
    emu.addr_reg = 0x250;
    emu.v[0] = 3;
    emu.v[1] = 5;
    store_opcode(&mut emu, &[0xD011, 0xD011]);

    // First draw: pixels set, no collision.
    assert_eq!(emu.emulate(), StepResult::Executed);
    assert_eq!(emu.v[0xF], 0);
    assert!(emu.draw_flag);
    for c in 0..8 {
        assert_eq!(emu.screen[5 * 64 + 3 + c], 1);
    }
    assert_eq!(emu.screen.iter().map(|&p| p as usize).sum::<usize>(), 8);

    // Second draw: every touched pixel toggles back, collision reported.
    assert_eq!(emu.emulate(), StepResult::Executed);
    assert_eq!(emu.v[0xF], 1);
    assert_eq!(emu.screen, vec![0u8; SCREEN_PIXELS]);
}

#[test]
fn test_draw_wraps_around() {
    let mut emu = Chip8::init();

    // Two rows of eight set bits drawn at (62, 31): the columns wrap to
    // the left edge and the second row wraps to the top.
    emu.memory[0x250] = 0xFF;
    emu.memory[0x251] = 0xFF;
    emu.addr_reg = 0x250;
    emu.v[4] = 62;
    emu.v[5] = 31;
    store_opcode(&mut emu, &[0xD452]);

    assert_eq!(emu.emulate(), StepResult::Executed);
    assert_eq!(emu.v[0xF], 0);
    for c in 0..8 {
        let col = (62 + c) % 64;
        assert_eq!(emu.screen[31 * 64 + col], 1);
        assert_eq!(emu.screen[col], 1); // row 32 wraps to row 0
    }
    assert_eq!(emu.screen.iter().map(|&p| p as usize).sum::<usize>(), 16);
}

#[test]
fn test_draw_zero_rows() {
    let mut emu = Chip8::init();

    emu.v[0xF] = 1;
    store_opcode(&mut emu, &[0xD010]);

    assert_eq!(emu.emulate(), StepResult::Executed);
    assert_eq!(emu.v[0xF], 0);
    assert_eq!(emu.screen, vec![0u8; SCREEN_PIXELS]);
    assert_eq!(emu.pc, PC_START + 2);
}

#[test]
fn test_draw_sprite_out_of_memory() {
    let mut emu = Chip8::init();

    emu.addr_reg = 0xFFF;
    store_opcode(&mut emu, &[0xD012]);
    let before = snapshot(&emu);

    assert_eq!(emu.emulate(), StepResult::Fatal(ErrorKind::InvalidOpcode));
    assert_eq!(snapshot(&emu), before);
}

#[test]
fn test_key_wait_blocks_and_resumes() {
    let mut emu = Chip8::init();

    // Wait for a key into V3, then load V1.
    store_opcode(&mut emu, &[0xF30A, 0x6142]);

    assert_eq!(emu.emulate(), StepResult::Blocked);
    assert_eq!(emu.key_to_wait_reg, Some(3));
    assert_eq!(emu.pc, PC_START); // held until the key arrives

    // Further steps report Blocked and change nothing.
    let before = snapshot(&emu);
    assert_eq!(emu.emulate(), StepResult::Blocked);
    assert_eq!(snapshot(&emu), before);

    // A key release never resolves the wait.
    emu.key_up(7);
    assert_eq!(emu.key_to_wait_reg, Some(3));

    // The key press lands in V3 and resumes stepping.
    emu.key_down(7);
    assert_eq!(emu.v[3], 7);
    assert_eq!(emu.key_to_wait_reg, None);
    assert!(emu.key[7]);
    assert_eq!(emu.pc, PC_START + 2);

    assert_eq!(emu.emulate(), StepResult::Executed);
    assert_eq!(emu.v[1], 0x42);
}

#[test]
fn test_key_down_without_wait() {
    let mut emu = Chip8::init();
    emu.key_down(0xC);
    assert!(emu.key[0xC]);
    assert_eq!(emu.pc, PC_START);
    emu.key_up(0xC);
    assert!(!emu.key[0xC]);
}

#[test]
fn test_key_skip_opcodes() {
    let mut emu = Chip8::init();

    emu.v[2] = 0xB;
    emu.key_down(0xB);
    store_opcode(&mut emu, &[0xE29E]);
    emu.emulate();
    assert_eq!(emu.pc, PC_START + 4); // key down: EX9E skips

    let mut emu = Chip8::init();
    emu.v[2] = 0xB;
    store_opcode(&mut emu, &[0xE29E]);
    emu.emulate();
    assert_eq!(emu.pc, PC_START + 2); // key up: EX9E does not skip

    let mut emu = Chip8::init();
    emu.v[2] = 0xB;
    store_opcode(&mut emu, &[0xE2A1]);
    emu.emulate();
    assert_eq!(emu.pc, PC_START + 4); // key up: EXA1 skips
}

#[test]
fn test_key_index_out_of_range() {
    let mut emu = Chip8::init();

    emu.v[2] = 16;
    store_opcode(&mut emu, &[0xE29E]);
    let before = snapshot(&emu);

    assert_eq!(emu.emulate(), StepResult::Fatal(ErrorKind::InvalidOpcode));
    assert_eq!(snapshot(&emu), before);
}

#[test]
fn test_fatal_underflow_leaves_state() {
    let mut emu = Chip8::init();

    store_opcode(&mut emu, &[0x00EE]);
    let before = snapshot(&emu);

    assert_eq!(emu.emulate(), StepResult::Fatal(ErrorKind::StackUnderflow));
    assert_eq!(snapshot(&emu), before);
}

#[test]
fn test_fatal_overflow_leaves_state() {
    let mut emu = Chip8::init();

    emu.sp = 24; // every slot in use
    store_opcode(&mut emu, &[0x2300]);
    let before = snapshot(&emu);

    assert_eq!(emu.emulate(), StepResult::Fatal(ErrorKind::StackOverflow));
    assert_eq!(snapshot(&emu), before);
}

#[test]
fn test_fatal_unknown_opcode_leaves_state() {
    let mut emu = Chip8::init();

    store_opcode(&mut emu, &[0x5231]); // a non-zero low nibble on 5XY0
    let before = snapshot(&emu);

    assert_eq!(emu.emulate(), StepResult::Fatal(ErrorKind::InvalidOpcode));
    assert_eq!(snapshot(&emu), before);
}

#[test]
fn test_fatal_pc_out_of_range() {
    let mut emu = Chip8::init();

    emu.pc = 4095; // a two-byte fetch no longer fits
    let before = snapshot(&emu);

    assert_eq!(emu.emulate(), StepResult::Fatal(ErrorKind::InvalidOpcode));
    assert_eq!(snapshot(&emu), before);
}

#[test]
fn test_bcd_out_of_memory() {
    let mut emu = Chip8::init();

    emu.addr_reg = 0xFFE;
    store_opcode(&mut emu, &[0xF533]);
    let before = snapshot(&emu);

    assert_eq!(emu.emulate(), StepResult::Fatal(ErrorKind::InvalidOpcode));
    assert_eq!(snapshot(&emu), before);
}

#[test]
fn test_reg_dump_out_of_memory() {
    let mut emu = Chip8::init();

    emu.addr_reg = 0xFF9;
    store_opcode(&mut emu, &[0xF755]); // needs eight bytes from 0xFF9
    let before = snapshot(&emu);

    assert_eq!(emu.emulate(), StepResult::Fatal(ErrorKind::InvalidOpcode));
    assert_eq!(snapshot(&emu), before);
}

#[test]
fn test_bcd_zero() {
    let mut emu = Chip8::init();

    emu.addr_reg = 0x300;
    store_opcode(&mut emu, &[0xF533]);

    assert_eq!(emu.emulate(), StepResult::Executed);
    assert_eq!(&emu.memory[0x300..0x303], &[0, 0, 0]);
}

#[test]
fn test_addr_reg_grows_past_address_space() {
    let mut emu = Chip8::init();

    // FX1E is not clamped to the 12-bit address space.
    emu.addr_reg = 0xFFF;
    emu.v[5] = 0x10;
    store_opcode(&mut emu, &[0xF51E]);

    assert_eq!(emu.emulate(), StepResult::Executed);
    assert_eq!(emu.addr_reg, 0x100F);
}

#[test]
fn test_tick_timers_counts_down_to_zero() {
    let mut emu = Chip8::init();

    emu.delay_timer = 2;
    emu.sound_timer = 1;

    assert!(emu.is_sound_active());
    emu.tick_timers();
    assert_eq!(emu.delay_timer, 1);
    assert_eq!(emu.sound_timer, 0);
    assert!(!emu.is_sound_active());

    emu.tick_timers();
    emu.tick_timers();
    assert_eq!(emu.delay_timer, 0); // both stop at zero
    assert_eq!(emu.sound_timer, 0);
}

#[test]
fn test_emulate_does_not_touch_timers() {
    let mut emu = Chip8::init();

    emu.delay_timer = 7;
    emu.sound_timer = 9;
    store_opcode(&mut emu, &[0x6001]);

    assert_eq!(emu.emulate(), StepResult::Executed);
    assert_eq!(emu.delay_timer, 7);
    assert_eq!(emu.sound_timer, 9);
}

#[test]
fn test_framebuffer_snapshot() {
    let mut emu = Chip8::init();

    emu.memory[0x250] = 0x80;
    emu.addr_reg = 0x250;
    store_opcode(&mut emu, &[0xD001]);

    assert!(!emu.draw_flag);
    emu.emulate();
    assert!(emu.draw_flag);
    assert_eq!(emu.framebuffer()[0], 1);
    assert_eq!(emu.framebuffer().len(), SCREEN_PIXELS);

    // The host consumes the frame and clears the flag itself.
    emu.draw_flag = false;
    assert!(!emu.draw_flag);
}

#[test]
fn test_opcode_word_is_recorded() {
    let mut emu = Chip8::init();

    store_opcode(&mut emu, &[0x6A12]);
    emu.emulate();
    assert_eq!(emu.opcode, 0x6A12);

    // A fatal step records nothing.
    let mut emu = Chip8::init();
    store_opcode(&mut emu, &[0xF777]);
    emu.emulate();
    assert_eq!(emu.opcode, 0);
}
