//! The opcode tests: call, return, address register, bulk register
//! store/load, and sprite drawing.

use chiper::chip8::Chip8;
use chiper::screen::NoScreen;
use chiper::semantics::STACK_MEMORY_END;

#[test]
fn test_op_02xx_call() {
    let mut chip8 = Chip8::new(NoScreen {});
    //call  345
    chip8.load_from_slice(&[0x23, 0x45]).unwrap();
    chip8.emulate_op().unwrap();
    assert_eq!(chip8.sp(), STACK_MEMORY_END - 2);
    assert_eq!(chip8.pc(), 0x345);
    assert_eq!(chip8.memory(chip8.sp()), 0x02);
    assert_eq!(chip8.memory(chip8.sp() + 1), 0x02);
}

#[test]
fn test_op_00ee_ret() {
    let mut chip8 = Chip8::new(NoScreen {});
    //200: call 204
    //202: 0000
    //204: ret
    chip8.load_from_slice(&[0x22, 0x04, 0x00, 0x00, 0x00, 0xee]).unwrap();
    chip8.emulate_op().unwrap();
    chip8.emulate_op().unwrap();
    assert_eq!(chip8.sp(), STACK_MEMORY_END);
    assert_eq!(chip8.pc(), 0x202);
}

#[test]
fn test_op_a_mov_toi() {
    let mut chip8 = Chip8::new(NoScreen {});
    //a2 20   mov             I, 220
    chip8.load_from_slice(&[0xa2, 0x20]).unwrap();
    chip8.emulate_op().unwrap();
    assert_eq!(chip8.i(), 0x220);
}

#[test]
fn test_op_fx55_reg_dump() {
    let mut chip8 = Chip8::new(NoScreen {});
    let mut ops = vec![];
    // mov I, 300
    ops.push(0xa3);
    ops.push(0x00);
    // mov Vx, i
    for i in 0..16 {
        ops.push(0x60 | i);
        ops.push(i);
    }
    // reg_dump
    ops.push(0xff);
    ops.push(0x55);

    chip8.load_from_slice(&ops).unwrap();
    for _ in 0..ops.len() / 2 {
        chip8.emulate_op().unwrap();
    }

    for i in 0..16u16 {
        assert_eq!(chip8.memory((chip8.i() + i) as usize), i as u8);
    }
}

#[test]
fn test_op_fx65_reg_load() {
    let mut chip8 = Chip8::new(NoScreen {});
    let mut ops = vec![];
    // mov I, 200
    ops.push(0xa2);
    ops.push(0x04);
    // reg_load
    ops.push(0xff);
    ops.push(0x65);
    // data(values to be loaded)
    for i in 0..16 {
        ops.push(i);
    }
    chip8.load_from_slice(&ops).unwrap();

    chip8.emulate_op().unwrap();
    chip8.emulate_op().unwrap();

    for i in 0..16 {
        assert_eq!(chip8.v(i), i as u8);
    }
}

#[test]
fn test_op_dxyn_draw() {
    let mut chip8 = Chip8::new(NoScreen {});
    let (x, y): (usize, usize) = (0, 0);
    let ops = vec![
        0x62, x as u8, // mov             V2, 0a
        0x63, y as u8, // mov             V3, 0c
        0xa2, 0x08, // mov             I, 208
        0xd2, 0x36, // draw            V2, V3, 6
    ];
    let sprite = vec![
        0xba, 0x7c, // sprite data
        0xd6, 0xfe, // sprite data
        0x54, 0xaa, // sprite data
    ];
    let mut prog = vec![];
    prog.extend(&ops);
    prog.extend(&sprite);
    chip8.load_from_slice(&prog).unwrap();

    for _ in 0..4 {
        chip8.emulate_op().unwrap();
    }
    let (line, _pos) = chip8.get_screen_memory_px(x, y);
    println!("{:02x} ", chip8.memory(line));
}
