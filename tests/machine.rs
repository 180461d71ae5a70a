use chip8::chip8::{Chip8, Chip8Error, PROGRAM_START, RAM_BYTES};
use chip8::frame::{blank_frame, rgba_frame};
use chip8::instruction::{DecodeError, Instruction};

fn loaded(program: &[u8]) -> Chip8 {
    let mut c = Chip8::new();
    c.load(program).unwrap();
    c
}

fn lit_pixels(c: &Chip8) -> Vec<usize> {
    (0..2048).filter(|&k| c.display_buffer()[k]).collect()
}

#[test]
fn new_machine_is_blank() {
    let c = Chip8::new();
    assert_eq!(c.program_counter(), 0x200);
    assert_eq!(c.index(), 0);
    for r in 0..16u8 {
        assert_eq!(c.register(r), 0);
    }
    assert!(c.display_buffer().iter().all(|&p| !p));
    assert_eq!(c.memory(0x200), 0);
}

#[test]
fn decode_each_family() {
    assert_eq!(Instruction::decode(0x00, 0xE0), Ok(Instruction::ClearScreen));
    assert_eq!(Instruction::decode(0x1A, 0xBC), Ok(Instruction::Jump { loc: 0xABC }));
    assert_eq!(
        Instruction::decode(0x6A, 0x05),
        Ok(Instruction::SetRegister { register: 0xA, value: 0x05 })
    );
    assert_eq!(
        Instruction::decode(0x7F, 0xFF),
        Ok(Instruction::AddRegister { register: 0xF, value: 0xFF })
    );
    assert_eq!(Instruction::decode(0xA0, 0x50), Ok(Instruction::SetIndex { value: 0x050 }));
    assert_eq!(
        Instruction::decode(0xD1, 0x2F),
        Ok(Instruction::Display { x_reg: 1, y_reg: 2, num_bytes: 0xF })
    );
}

#[test]
fn decode_rejects_unknown_top_nibbles() {
    for top in [0x2u8, 0x3, 0x4, 0x5, 0x8, 0x9, 0xB, 0xC, 0xE, 0xF] {
        let hi = (top << 4) | 0x3;
        assert_eq!(
            Instruction::decode(hi, 0x21),
            Err(DecodeError { opcode: ((hi as u16) << 8) | 0x21 })
        );
    }
}

#[test]
fn decode_rejects_other_zero_nibble_words() {
    assert_eq!(Instruction::decode(0x00, 0xEE), Err(DecodeError { opcode: 0x00EE }));
    assert_eq!(Instruction::decode(0x00, 0x00), Err(DecodeError { opcode: 0x0000 }));
}

#[test]
fn add_register_wraps() {
    let mut c = loaded(&[0x63, 0xFA, 0x73, 0x0A]);
    c.execute_cycle().unwrap();
    assert_eq!(c.register(3), 250);
    c.execute_cycle().unwrap();
    assert_eq!(c.register(3), 4);
}

#[test]
fn jump_overrides_advance() {
    // 0x200: jump to 0x208; 0x202: set V1 = 1; 0x208: set V2 = 2.
    let mut c = loaded(&[0x12, 0x08, 0x61, 0x01, 0x00, 0x00, 0x00, 0x00, 0x62, 0x02]);
    c.execute_cycle().unwrap();
    assert_eq!(c.program_counter(), 0x208);
    c.execute_cycle().unwrap();
    assert_eq!(c.register(2), 2);
    assert_eq!(c.register(1), 0);
    assert_eq!(c.program_counter(), 0x20A);
}

#[test]
fn clear_screen_is_idempotent() {
    let mut c = Chip8::new();
    c.write_memory(0x300, &[0xFF]).unwrap();
    c.execute(Instruction::SetIndex { value: 0x300 }).unwrap();
    c.execute(Instruction::Display { x_reg: 0, y_reg: 0, num_bytes: 1 }).unwrap();
    assert_eq!(lit_pixels(&c).len(), 8);
    c.execute(Instruction::ClearScreen).unwrap();
    let once: Vec<bool> = c.display_buffer().to_vec();
    c.execute(Instruction::ClearScreen).unwrap();
    assert_eq!(c.display_buffer().to_vec(), once);
    assert!(once.iter().all(|&p| !p));
}

#[test]
fn sprite_xor_self_cancels() {
    let mut c = Chip8::new();
    c.write_memory(0x300, &[0xF0, 0x90, 0xF0]).unwrap();
    c.execute(Instruction::SetRegister { register: 1, value: 10 }).unwrap();
    c.execute(Instruction::SetRegister { register: 2, value: 7 }).unwrap();
    c.execute(Instruction::SetIndex { value: 0x300 }).unwrap();
    let before: Vec<bool> = c.display_buffer().to_vec();
    let draw = Instruction::Display { x_reg: 1, y_reg: 2, num_bytes: 3 };
    c.execute(draw).unwrap();
    assert_eq!(c.register(0xF), 0);
    assert_eq!(lit_pixels(&c).len(), 10);
    c.execute(draw).unwrap();
    assert_eq!(c.register(0xF), 1);
    assert_eq!(c.display_buffer().to_vec(), before);
}

#[test]
fn clipping_not_wrapping() {
    let mut c = Chip8::new();
    c.write_memory(0x300, &[0xFF]).unwrap();
    c.execute(Instruction::SetRegister { register: 0, value: 60 }).unwrap();
    c.execute(Instruction::SetIndex { value: 0x300 }).unwrap();
    c.execute(Instruction::Display { x_reg: 0, y_reg: 1, num_bytes: 1 }).unwrap();
    assert_eq!(lit_pixels(&c), vec![60, 61, 62, 63]);
    assert_eq!(c.register(0xF), 0);
}

#[test]
fn clipping_at_the_bottom_edge() {
    let mut c = Chip8::new();
    c.write_memory(0x300, &[0x80, 0x80, 0x80, 0x80]).unwrap();
    c.execute(Instruction::SetRegister { register: 1, value: 30 }).unwrap();
    c.execute(Instruction::SetIndex { value: 0x300 }).unwrap();
    c.execute(Instruction::Display { x_reg: 0, y_reg: 1, num_bytes: 4 }).unwrap();
    assert_eq!(lit_pixels(&c), vec![30 * 64, 31 * 64]);
}

#[test]
fn origin_wraps_once() {
    let mut c = Chip8::new();
    c.write_memory(0x300, &[0x80]).unwrap();
    c.execute(Instruction::SetRegister { register: 0, value: 64 + 5 }).unwrap();
    c.execute(Instruction::SetRegister { register: 1, value: 32 + 3 }).unwrap();
    c.execute(Instruction::SetIndex { value: 0x300 }).unwrap();
    c.execute(Instruction::Display { x_reg: 0, y_reg: 1, num_bytes: 1 }).unwrap();
    assert_eq!(lit_pixels(&c), vec![3 * 64 + 5]);
}

#[test]
fn clear_then_set_register_program() {
    let mut c = loaded(&[0x00, 0xE0, 0x6A, 0x05]);
    c.execute_cycle().unwrap();
    c.execute_cycle().unwrap();
    assert!(c.display_buffer().iter().all(|&p| !p));
    assert_eq!(c.register(0xA), 5);
    assert_eq!(c.program_counter(), 0x204);
}

#[test]
fn draw_sprite_from_index() {
    let sprite = [0xF0u8, 0x90, 0x90, 0x90, 0xF0];
    let mut c = loaded(&[0xA0, 0x50, 0xD0, 0x05]);
    c.write_memory(0x050, &sprite).unwrap();
    c.execute_cycle().unwrap();
    assert_eq!(c.index(), 0x050);
    c.execute_cycle().unwrap();
    for y in 0..32usize {
        for x in 0..64usize {
            let expected = y < 5 && x < 8 && (sprite[y] >> (7 - x)) & 1 == 1;
            assert_eq!(c.display_buffer()[y * 64 + x], expected, "pixel ({x}, {y})");
        }
    }
    assert_eq!(c.register(0xF), 0);
}

#[test]
fn collision_sets_flag() {
    let mut c = Chip8::new();
    c.write_memory(0x300, &[0x80, 0xC0]).unwrap();
    c.execute(Instruction::SetIndex { value: 0x300 }).unwrap();
    c.execute(Instruction::Display { x_reg: 0, y_reg: 0, num_bytes: 1 }).unwrap();
    assert_eq!(c.register(0xF), 0);
    c.execute(Instruction::SetIndex { value: 0x301 }).unwrap();
    c.execute(Instruction::Display { x_reg: 0, y_reg: 0, num_bytes: 1 }).unwrap();
    assert_eq!(c.register(0xF), 1);
    assert_eq!(lit_pixels(&c), vec![1]);
}

#[test]
fn load_fills_remaining_memory_exactly() {
    let data: Vec<u8> = (0..RAM_BYTES - PROGRAM_START).map(|i| (i % 251) as u8).collect();
    let mut c = Chip8::new();
    assert_eq!(c.load(&data), Ok(()));
    assert_eq!(c.memory(PROGRAM_START), 0);
    assert_eq!(c.memory(RAM_BYTES - 1), ((RAM_BYTES - PROGRAM_START - 1) % 251) as u8);
    assert_eq!(c.memory(PROGRAM_START - 1), 0);
}

#[test]
fn load_rejects_one_byte_too_many() {
    let data = vec![0x12u8; RAM_BYTES - PROGRAM_START + 1];
    let mut c = Chip8::new();
    assert_eq!(c.load(&data), Err(Chip8Error::ProgramTooLarge { len: 3585 }));
    assert_eq!(c.memory(PROGRAM_START), 0);
}

#[test]
fn store_out_of_bounds_is_refused() {
    let mut c = Chip8::new();
    assert_eq!(
        c.write_memory(4095, &[1, 2]),
        Err(Chip8Error::StoreOutOfBounds { addr: 4095, len: 2 })
    );
    assert_eq!(c.memory(4095), 0);
    assert_eq!(c.write_memory(4094, &[1, 2]), Ok(()));
    assert_eq!(c.memory(4095), 2);
}

#[test]
fn decode_error_is_reported_and_leaves_state() {
    let mut c = loaded(&[0x61, 0x07, 0xF0, 0x0A]);
    c.execute_cycle().unwrap();
    assert_eq!(
        c.execute_cycle(),
        Err(Chip8Error::Decode(DecodeError { opcode: 0xF00A }))
    );
    assert_eq!(c.program_counter(), 0x202);
    assert_eq!(c.register(1), 7);
}

#[test]
fn fetch_past_memory_end_is_reported() {
    let mut c = loaded(&[0x1F, 0xFF]);
    c.execute_cycle().unwrap();
    assert_eq!(c.program_counter(), 0xFFF);
    assert_eq!(c.execute_cycle(), Err(Chip8Error::FetchOutOfBounds { addr: 0xFFF }));
    assert_eq!(c.program_counter(), 0xFFF);
}

#[test]
fn sprite_past_memory_end_is_reported() {
    let mut c = loaded(&[0xAF, 0xFE, 0xD0, 0x03]);
    c.execute_cycle().unwrap();
    assert_eq!(
        c.execute_cycle(),
        Err(Chip8Error::SpriteOutOfBounds { addr: 0xFFE })
    );
    assert_eq!(c.program_counter(), 0x202);
    assert!(c.display_buffer().iter().all(|&p| !p));
}

#[test]
fn sprite_rows_below_screen_are_not_read() {
    // Origin row 31 leaves one visible row, so only 0xFFF is read.
    let mut c = Chip8::new();
    c.execute(Instruction::SetRegister { register: 1, value: 31 }).unwrap();
    c.execute(Instruction::SetIndex { value: 0xFFF }).unwrap();
    assert_eq!(c.execute(Instruction::Display { x_reg: 0, y_reg: 1, num_bytes: 5 }), Ok(()));
}

#[test]
fn rgba_frame_maps_pixels_to_colours() {
    let mut c = Chip8::new();
    c.write_memory(0x300, &[0x80]).unwrap();
    c.execute(Instruction::SetRegister { register: 0, value: 1 }).unwrap();
    c.execute(Instruction::SetIndex { value: 0x300 }).unwrap();
    c.execute(Instruction::Display { x_reg: 0, y_reg: 2, num_bytes: 1 }).unwrap();
    let rgba = rgba_frame(c.display_buffer());
    assert_eq!(rgba.len(), 8192);
    assert_eq!(&rgba[0..4], &[0, 0, 0, 255]);
    assert_eq!(&rgba[4..8], &[255, 255, 255, 255]);
    assert_eq!(rgba.iter().filter(|&&b| b == 255).count(), 2048 + 3);
}

#[test]
fn blank_frame_is_opaque_black() {
    assert_eq!(blank_frame(0), Vec::<u8>::new());
    assert_eq!(blank_frame(2), vec![0, 0, 0, 255, 0, 0, 0, 255]);
}
