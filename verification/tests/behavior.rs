//! Behavioral tests: one concrete scenario for each law of the engine, the
//! edge cases of clipping and wraparound, and one input for every fault.

use chiper::chip8::{rand, Chip8, LoadError};
use chiper::opcode::{Instr, Opcode};
use chiper::screen::NoScreen;
use chiper::semantics::{Fault, RunOutcome, StepOutcome, SCREEN_MEMORY_START, STACK_MEMORY_END};

fn fresh() -> Chip8<NoScreen> {
    Chip8::new(NoScreen {})
}

#[test]
fn mov_imm_sets_register() {
    let mut chip8 = fresh();
    chip8.load_from_slice(&[0x6a, 0x42]).unwrap();
    chip8.emulate_op().unwrap();
    assert_eq!(chip8.v(10), 0x42);
    assert_eq!(chip8.pc(), 0x202);
}

#[test]
fn add_imm_wraps_without_flag() {
    let mut chip8 = fresh();
    // V1 = 200; V1 += 100 -> 44 mod 256, VF untouched
    chip8.load_from_slice(&[0x61, 0xc8, 0x71, 0x64]).unwrap();
    chip8.emulate_op().unwrap();
    chip8.emulate_op().unwrap();
    assert_eq!(chip8.v(1), 44);
    assert_eq!(chip8.v(15), 0);
}

#[test]
fn store_load_full_round_trip() {
    let mut chip8 = fresh();
    let mut ops = vec![0xa3, 0x00]; // mov I, 300
    for i in 0..16 {
        ops.push(0x60 | i);
        ops.push(0x30 + i); // V[i] = 0x30 + i
    }
    ops.push(0xff);
    ops.push(0x55); // store V0..=VF at I
    for i in 0..16 {
        ops.push(0x60 | i);
        ops.push(0x00); // wipe V[i]
    }
    ops.push(0xff);
    ops.push(0x65); // load V0..=VF back from I
    chip8.load_from_slice(&ops).unwrap();
    for _ in 0..ops.len() / 2 {
        chip8.emulate_op().unwrap();
    }
    for i in 0..16 {
        assert_eq!(chip8.v(i), 0x30 + i as u8);
    }
}

#[test]
fn draw_twice_collides_and_cancels() {
    let mut chip8 = fresh();
    let prog = [
        0x62, 0x00, // mov V2, 0
        0x63, 0x00, // mov V3, 0
        0xa2, 0x0c, // mov I, 20c
        0xd2, 0x32, // draw V2, V3, 2
        0xd2, 0x32, // draw V2, V3, 2 again
        0x00, 0x00, // padding
        0xba, 0x7c, // sprite data at 20c
    ];
    chip8.load_from_slice(&prog).unwrap();
    for _ in 0..4 {
        chip8.emulate_op().unwrap();
    }
    // first draw on a blank screen: no collision, the sprite bytes appear
    assert_eq!(chip8.v(15), 0);
    assert_eq!(chip8.memory(SCREEN_MEMORY_START), 0xba);
    assert_eq!(chip8.memory(SCREEN_MEMORY_START + 8), 0x7c);
    chip8.emulate_op().unwrap();
    // second identical draw: collision, and the pixels XOR back to blank
    assert_eq!(chip8.v(15), 1);
    assert_eq!(chip8.memory(SCREEN_MEMORY_START), 0x00);
    assert_eq!(chip8.memory(SCREEN_MEMORY_START + 8), 0x00);
}

#[test]
fn draw_clips_at_screen_edges() {
    let mut chip8 = fresh();
    let prog = [
        0x62, 0x3c, // mov V2, 60
        0x63, 0x1e, // mov V3, 30
        0xa2, 0x0a, // mov I, 20a
        0xd2, 0x33, // draw V2, V3, 3
        0x00, 0x00, // padding
        0xff, 0xff, 0xff, // sprite data at 20a
    ];
    chip8.load_from_slice(&prog).unwrap();
    for _ in 0..4 {
        chip8.emulate_op().unwrap();
    }
    // columns 60..63 of rows 30 and 31 are lit; row 32 and columns 64.. are
    // clipped, and nothing outside those two framebuffer bytes changed
    let b30 = SCREEN_MEMORY_START + 30 * 8 + 7;
    let b31 = SCREEN_MEMORY_START + 31 * 8 + 7;
    assert_eq!(chip8.memory(b30), 0x0f);
    assert_eq!(chip8.memory(b31), 0x0f);
    assert_eq!(chip8.v(15), 0);
    for a in SCREEN_MEMORY_START..0x1000 {
        if a != b30 && a != b31 {
            assert_eq!(chip8.memory(a), 0, "framebuffer byte {:#x}", a);
        }
    }
    // the bytes just below the framebuffer (the stack region) are untouched
    assert_eq!(chip8.memory(SCREEN_MEMORY_START - 1), 0);
    assert_eq!(chip8.memory(SCREEN_MEMORY_START - 2), 0);
}

#[test]
fn draw_of_height_zero_draws_nothing() {
    let mut chip8 = fresh();
    chip8.load_from_slice(&[0xd0, 0x00]).unwrap();
    assert_eq!(chip8.emulate_op().unwrap(), StepOutcome::Executed);
    assert_eq!(chip8.v(15), 0);
    for a in SCREEN_MEMORY_START..0x1000 {
        assert_eq!(chip8.memory(a), 0);
    }
}

#[test]
fn clear_display_zeroes_framebuffer() {
    let mut chip8 = fresh();
    let prog = [
        0xa2, 0x06, // mov I, 206
        0xd0, 0x01, // draw V0, V0, 1
        0x00, 0xe0, // dclr
        0xff, // sprite data at 206
    ];
    chip8.load_from_slice(&prog).unwrap();
    chip8.emulate_op().unwrap();
    chip8.emulate_op().unwrap();
    assert_eq!(chip8.memory(SCREEN_MEMORY_START), 0xff);
    chip8.emulate_op().unwrap();
    for a in SCREEN_MEMORY_START..0x1000 {
        assert_eq!(chip8.memory(a), 0);
    }
    assert_eq!(chip8.pc(), 0x206);
}

#[test]
fn self_jump_halts() {
    let mut chip8 = fresh();
    chip8.load_from_slice(&[0x12, 0x00]).unwrap();
    assert_eq!(chip8.emulate_op().unwrap(), StepOutcome::Halted);
    assert_eq!(chip8.pc(), 0x200);

    let mut again = fresh();
    again.load_from_slice(&[0x12, 0x00]).unwrap();
    assert_eq!(again.emulate(1000).unwrap(), RunOutcome::Halted);
    assert_eq!(again.pc(), 0x200);
}

#[test]
fn random_is_deterministic_in_the_seed() {
    let mut a = Chip8::new_with_seed(NoScreen {}, 42);
    let mut b = Chip8::new_with_seed(NoScreen {}, 42);
    a.load_from_slice(&[0xc1, 0xff]).unwrap();
    b.load_from_slice(&[0xc1, 0xff]).unwrap();
    a.emulate_op().unwrap();
    b.emulate_op().unwrap();
    assert_eq!(a.v(1), b.v(1));
    assert_eq!(a.v(1), (rand(42) & 0xff) as u8);
    assert_eq!(a.v(1), 0xaa);
}

#[test]
fn random_masks_with_immediate() {
    let mut chip8 = Chip8::new_with_seed(NoScreen {}, 42);
    chip8.load_from_slice(&[0xc1, 0x0f]).unwrap();
    chip8.emulate_op().unwrap();
    assert_eq!(chip8.v(1), 0x0a);
}

#[test]
fn xorshift_exact_values() {
    assert_eq!(rand(1), 0x40822041);
    assert_eq!(rand(0), 0);
    assert_eq!(rand(42), 0xa95514aaa);
}

#[test]
fn alu_add_with_carry() {
    let mut chip8 = fresh();
    chip8.load_from_slice(&[0x60, 0xc8, 0x61, 0x64, 0x80, 0x14]).unwrap();
    for _ in 0..3 {
        chip8.emulate_op().unwrap();
    }
    assert_eq!(chip8.v(0), 44);
    assert_eq!(chip8.v(15), 1);
}

#[test]
fn alu_sub_with_borrow() {
    let mut chip8 = fresh();
    // V0 = 10, V1 = 20, V0 -= V1: borrow, VF = 0
    chip8.load_from_slice(&[0x60, 0x0a, 0x61, 0x14, 0x80, 0x15]).unwrap();
    for _ in 0..3 {
        chip8.emulate_op().unwrap();
    }
    assert_eq!(chip8.v(0), 246);
    assert_eq!(chip8.v(15), 0);
}

#[test]
fn alu_sub_without_borrow() {
    let mut chip8 = fresh();
    chip8.load_from_slice(&[0x60, 0x14, 0x61, 0x0a, 0x80, 0x15]).unwrap();
    for _ in 0..3 {
        chip8.emulate_op().unwrap();
    }
    assert_eq!(chip8.v(0), 10);
    assert_eq!(chip8.v(15), 1);
}

#[test]
fn alu_subn_reverse_order() {
    let mut chip8 = fresh();
    // V0 = V1 - V0 = 30 - 10 = 20, no borrow: VF = 1
    chip8.load_from_slice(&[0x60, 0x0a, 0x61, 0x1e, 0x80, 0x17]).unwrap();
    for _ in 0..3 {
        chip8.emulate_op().unwrap();
    }
    assert_eq!(chip8.v(0), 20);
    assert_eq!(chip8.v(15), 1);
}

#[test]
fn alu_shifts() {
    let mut chip8 = fresh();
    chip8.load_from_slice(&[0x60, 0x05, 0x80, 0x06]).unwrap();
    chip8.emulate_op().unwrap();
    chip8.emulate_op().unwrap();
    assert_eq!(chip8.v(0), 2);
    assert_eq!(chip8.v(15), 1);

    let mut chip8 = fresh();
    chip8.load_from_slice(&[0x60, 0x81, 0x80, 0x0e]).unwrap();
    chip8.emulate_op().unwrap();
    chip8.emulate_op().unwrap();
    assert_eq!(chip8.v(0), 2);
    assert_eq!(chip8.v(15), 1);
}

#[test]
fn alu_bitwise() {
    let mut chip8 = fresh();
    chip8.load_from_slice(&[0x60, 0x0f, 0x61, 0xf0, 0x80, 0x11]).unwrap();
    for _ in 0..3 {
        chip8.emulate_op().unwrap();
    }
    assert_eq!(chip8.v(0), 0xff);

    let mut chip8 = fresh();
    chip8.load_from_slice(&[0x60, 0x0f, 0x61, 0xf0, 0x80, 0x12]).unwrap();
    for _ in 0..3 {
        chip8.emulate_op().unwrap();
    }
    assert_eq!(chip8.v(0), 0x00);

    let mut chip8 = fresh();
    chip8.load_from_slice(&[0x60, 0xff, 0x61, 0xf0, 0x80, 0x13]).unwrap();
    for _ in 0..3 {
        chip8.emulate_op().unwrap();
    }
    assert_eq!(chip8.v(0), 0x0f);

    let mut chip8 = fresh();
    chip8.load_from_slice(&[0x61, 0x77, 0x80, 0x10]).unwrap();
    chip8.emulate_op().unwrap();
    chip8.emulate_op().unwrap();
    assert_eq!(chip8.v(0), 0x77);
}

#[test]
fn skips_move_the_program_counter() {
    let mut chip8 = fresh();
    chip8.load_from_slice(&[0x60, 0x05, 0x30, 0x05]).unwrap();
    chip8.emulate_op().unwrap();
    chip8.emulate_op().unwrap();
    assert_eq!(chip8.pc(), 0x206); // taken: 0x202 + 4

    let mut chip8 = fresh();
    chip8.load_from_slice(&[0x60, 0x05, 0x30, 0x06]).unwrap();
    chip8.emulate_op().unwrap();
    chip8.emulate_op().unwrap();
    assert_eq!(chip8.pc(), 0x204); // not taken: 0x202 + 2

    let mut chip8 = fresh();
    chip8.load_from_slice(&[0x60, 0x05, 0x40, 0x06]).unwrap();
    chip8.emulate_op().unwrap();
    chip8.emulate_op().unwrap();
    assert_eq!(chip8.pc(), 0x206); // "not equal" taken

    let mut chip8 = fresh();
    chip8.load_from_slice(&[0x60, 0x05, 0x61, 0x05, 0x50, 0x10]).unwrap();
    for _ in 0..3 {
        chip8.emulate_op().unwrap();
    }
    assert_eq!(chip8.pc(), 0x208); // register skip taken: 0x204 + 4
}

#[test]
fn add_to_i_has_no_flag_effect() {
    let mut chip8 = fresh();
    chip8.load_from_slice(&[0xa0, 0xff, 0x60, 0x01, 0xf0, 0x1e]).unwrap();
    for _ in 0..3 {
        chip8.emulate_op().unwrap();
    }
    assert_eq!(chip8.i(), 0x100);
    assert_eq!(chip8.v(15), 0);
}

#[test]
fn unknown_opcode_is_fatal_with_diagnostic() {
    let mut chip8 = fresh();
    chip8.load_from_slice(&[0x9a, 0xb0]).unwrap();
    assert_eq!(
        chip8.emulate_op(),
        Err(Fault::UnknownOpcode { b0: 0x9a, b1: 0xb0, pc: 0x200 })
    );
    // nothing moved
    assert_eq!(chip8.pc(), 0x200);
}

#[test]
fn return_with_empty_stack_underflows() {
    let mut chip8 = fresh();
    chip8.load_from_slice(&[0x00, 0xee]).unwrap();
    assert_eq!(chip8.emulate_op(), Err(Fault::StackUnderflow));
    assert_eq!(chip8.sp(), STACK_MEMORY_END);
}

#[test]
fn endless_calls_overflow_the_stack() {
    let mut chip8 = fresh();
    // call 200 calls itself forever; the stack region holds 48 frames
    chip8.load_from_slice(&[0x22, 0x00]).unwrap();
    assert_eq!(chip8.emulate(100), Err(Fault::StackOverflow));
}

#[test]
fn jump_to_memory_end_leaves_pc_unfetchable() {
    let mut chip8 = fresh();
    chip8.load_from_slice(&[0x1f, 0xff]).unwrap();
    assert_eq!(chip8.emulate_op().unwrap(), StepOutcome::Executed);
    assert_eq!(chip8.pc(), 0xfff);
    assert_eq!(chip8.emulate_op(), Err(Fault::PcOutOfRange));
}

#[test]
fn register_dump_past_memory_end_is_fatal() {
    let mut chip8 = fresh();
    chip8.load_from_slice(&[0xaf, 0xff, 0xf1, 0x55]).unwrap();
    chip8.emulate_op().unwrap();
    assert_eq!(chip8.emulate_op(), Err(Fault::MemoryOutOfRange));
}

#[test]
fn sprite_read_past_memory_end_is_fatal() {
    let mut chip8 = fresh();
    chip8.load_from_slice(&[0xaf, 0xff, 0xd0, 0x02]).unwrap();
    chip8.emulate_op().unwrap();
    assert_eq!(chip8.emulate_op(), Err(Fault::MemoryOutOfRange));
    assert_eq!(chip8.v(15), 0);
}

#[test]
fn load_rejects_a_program_that_does_not_fit() {
    let mut chip8 = fresh();
    let too_big = vec![0u8; 0x0ca0];
    assert_eq!(chip8.load_from_slice(&too_big), Err(LoadError::TooLarge));
    // a program one byte smaller is accepted
    let fits = vec![0u8; 0x0c9f];
    assert_eq!(chip8.load_from_slice(&fits), Ok(()));
}

#[test]
fn fresh_machine_state() {
    let chip8 = fresh();
    assert_eq!(chip8.pc(), 0x200);
    assert_eq!(chip8.sp(), STACK_MEMORY_END);
    assert_eq!(chip8.i(), 0);
    for i in 0..16 {
        assert_eq!(chip8.v(i), 0);
    }
    for a in (0..0x1000).step_by(0x100) {
        assert_eq!(chip8.memory(a), 0);
    }
}

#[test]
fn dump_memory_decodes_the_loaded_program() {
    let mut chip8 = fresh();
    // seven bytes: an odd-length program is padded by one byte
    chip8.load_from_slice(&[0x00, 0xe0, 0x12, 0x34, 0xa2, 0x22, 0x99]).unwrap();
    let listing = chip8.dump_memory();
    assert_eq!(listing.len(), 4);
    assert_eq!(listing[0], Instr::ClearDisplay);
    assert_eq!(listing[1], Instr::Jump(0x234));
    assert_eq!(listing[2], Instr::MovI(0x222));
    assert_eq!(listing[3], Instr::Unknown(0x99, 0x00));
}

#[test]
fn emulate_respects_the_step_budget() {
    let mut chip8 = fresh();
    chip8.load_from_slice(&[0x60, 0x2a, 0x12, 0x02]).unwrap();
    assert_eq!(chip8.emulate(1).unwrap(), RunOutcome::StepLimit);
    assert_eq!(chip8.pc(), 0x202);
    assert_eq!(chip8.v(0), 0x2a);
    // the next instruction jumps to itself
    assert_eq!(chip8.emulate(10).unwrap(), RunOutcome::Halted);
    assert_eq!(chip8.pc(), 0x202);
}

#[test]
fn rand_gen_feeds_its_output_back() {
    let mut chip8 = Chip8::new_with_seed(NoScreen {}, 1);
    assert_eq!(chip8.rand_gen(), 0x40822041);
    assert_eq!(chip8.rand_gen(), rand(0x40822041));
}

#[test]
fn inc_pc_advances_two_bytes() {
    let mut chip8 = fresh();
    chip8.inc_pc();
    assert_eq!(chip8.pc(), 0x202);
}

#[test]
fn opcode_fields_decode() {
    let op = Opcode(0xab, 0xcd);
    assert_eq!(Opcode::high_nib(0xab), 0x0a);
    assert_eq!(Opcode::low_nib(0xab), 0x0b);
    assert_eq!(op.x(), 0x0b);
    assert_eq!(op.y(), 0x0c);
    assert_eq!(op.n(), 0x0d);
    assert_eq!(op.nnn(), 0xbcd);
    assert_eq!(Opcode(0x00, 0xe0).disassemble(), Instr::ClearDisplay);
    assert_eq!(Opcode(0x00, 0xee).disassemble(), Instr::Return);
    assert_eq!(Opcode(0x81, 0x24).disassemble(), Instr::AddReg(1, 2));
    assert_eq!(Opcode(0xfa, 0x65).disassemble(), Instr::RegLoad(0x0a));
    assert_eq!(Opcode(0xd2, 0x36).disassemble(), Instr::Draw(2, 3, 6));
    assert_eq!(Opcode(0xeb, 0x9e).disassemble(), Instr::Unknown(0xeb, 0x9e));
}
