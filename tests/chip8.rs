use chip8::{decode, fields, format_line, Chip8, Chip8Error, Opcode};

/// A program image from 16-bit words.
fn program(words: &[u16]) -> Vec<u8> {
    let mut bytes = Vec::new();
    for w in words {
        bytes.push((w >> 8) as u8);
        bytes.push((w & 0xFF) as u8);
    }
    bytes
}

#[test]
fn should_stop_on_0000() {
    let program = vec![0x00, 0x00];
    let mut chip = Chip8::new_with_memory(program);

    let should_iterate = chip.single_iteration().unwrap();

    assert_eq!(should_iterate, false);
}

#[test]
fn should_store_address_on_i() {
    let program = vec![0xA2, 0x1E];
    let mut chip = Chip8::new_with_memory(program);

    let should_iterate = chip.single_iteration().unwrap();

    assert_eq!(should_iterate, true);
    assert_eq!(chip.index(), 0x21E);
}

#[test]
fn should_set_random_value_with_mask_on_registers() {
    let program = vec![0xC2, 0x10];
    let mut chip = Chip8::new_with_memory(program);

    let should_iterate = chip.step_with_random(0xff).unwrap();

    assert_eq!(should_iterate, true);
    assert_eq!(chip.register(0x02), 0x10);
}

#[test]
fn should_skip_if_equals_on_3xxx() {
    let program = vec![0x32, 0x01];
    let mut chip = Chip8::new_with_memory(program);
    chip.set_register(0x02, 0x01);

    let should_iterate = chip.single_iteration().unwrap();

    assert_eq!(should_iterate, true);
    assert_eq!(chip.pc(), 0x200 + 4);
}

#[test]
fn should_not_skip_if_different_on_3xxx() {
    let program = vec![0x32, 0x01];
    let mut chip = Chip8::new_with_memory(program);
    chip.set_register(0x02, 0x02);

    let should_iterate = chip.single_iteration().unwrap();

    assert_eq!(should_iterate, true);
    assert_eq!(chip.pc(), 0x200 + 2);
}

#[test]
fn should_not_skip_if_equals_on_4xxx() {
    let program = vec![0x42, 0x01];
    let mut chip = Chip8::new_with_memory(program);
    chip.set_register(0x02, 0x01);

    let should_iterate = chip.single_iteration().unwrap();

    assert_eq!(should_iterate, true);
    assert_eq!(chip.pc(), 0x200 + 2);
}

#[test]
fn should_skip_if_different_on_4xxx() {
    let program = vec![0x42, 0x01];
    let mut chip = Chip8::new_with_memory(program);
    chip.set_register(0x02, 0x02);

    let should_iterate = chip.single_iteration().unwrap();

    assert_eq!(should_iterate, true);
    assert_eq!(chip.pc(), 0x200 + 4);
}

#[test]
fn halt_program_changes_nothing() {
    let mut chip = Chip8::new_with_memory(vec![0x00; 8]);
    let before = chip.get_state();
    assert_eq!(chip.single_iteration(), Ok(false));
    assert_eq!(chip.pc(), 0x200);
    assert_eq!(chip.index(), 0);
    assert_eq!(chip.get_state(), before);
    assert_eq!(chip.stack_depth(), 0);
    for y in 0..32 {
        for x in 0..64 {
            assert_eq!(chip.pixel(x, y), 0);
        }
    }
}

#[test]
fn empty_program_halts() {
    let mut chip = Chip8::new_with_memory(vec![]);
    assert_eq!(chip.single_iteration(), Ok(false));
}

#[test]
fn load_index_leaves_registers_and_advances_two() {
    let mut chip = Chip8::new_with_memory(vec![0xA2, 0x1E]);
    chip.set_register(3, 0x44);
    assert_eq!(chip.single_iteration(), Ok(true));
    assert_eq!(chip.index(), 0x21E);
    assert_eq!(chip.pc(), 0x202);
    let mut expected = vec![0u8; 16];
    expected[3] = 0x44;
    assert_eq!(chip.registers_vec(), expected);
}

#[test]
fn random_is_masked() {
    let mut chip = Chip8::new_with_memory(program(&[0xC30F, 0xC30F]));
    assert_eq!(chip.step_with_random(0xA5), Ok(true));
    assert_eq!(chip.register(3), 0x05);
    assert_eq!(chip.single_iteration(), Ok(true));
    assert!(chip.register(3) <= 0x0F);
}

#[test]
fn same_sprite_drawn_twice_collides_and_clears() {
    // I = 0x206; draw at (V0, V1) twice; the sprite byte 0xFF lies at 0x206
    let mut image = program(&[0xA206, 0xD011, 0xD011]);
    image.push(0xFF);
    let mut chip = Chip8::new_with_memory(image);
    chip.set_register(0, 10);
    chip.set_register(1, 5);
    assert_eq!(chip.single_iteration(), Ok(true));

    assert_eq!(chip.single_iteration(), Ok(true));
    assert_eq!(chip.register(0xF), 0);
    for x in 0..64 {
        let lit = if x >= 10 && x < 18 { 1 } else { 0 };
        assert_eq!(chip.pixel(x, 5), lit);
    }

    assert_eq!(chip.single_iteration(), Ok(true));
    assert_eq!(chip.register(0xF), 1);
    for x in 0..64 {
        assert_eq!(chip.pixel(x, 5), 0);
    }
    assert_eq!(chip.pc(), 0x206);
}

#[test]
fn draw_clips_at_the_right_and_bottom_edges() {
    let mut image = program(&[0xA206, 0xD012, 0x0000]);
    image.push(0xFF);
    image.push(0x81);
    let mut chip = Chip8::new_with_memory(image);
    chip.set_register(0, 60);
    chip.set_register(1, 31);
    assert_eq!(chip.single_iteration(), Ok(true));
    assert_eq!(chip.single_iteration(), Ok(true));
    for x in 0..64 {
        let lit = if x >= 60 { 1 } else { 0 };
        assert_eq!(chip.pixel(x, 31), lit);
    }
    for x in 0..64 {
        assert_eq!(chip.pixel(x, 0), 0);
    }
    assert_eq!(chip.register(0xF), 0);
}

#[test]
fn draw_reads_sprite_rows_most_significant_bit_first() {
    let mut image = program(&[0xA206, 0xD012, 0x0000]);
    image.push(0x80);
    image.push(0x01);
    let mut chip = Chip8::new_with_memory(image);
    chip.single_iteration().unwrap();
    chip.single_iteration().unwrap();
    assert_eq!(chip.pixel(0, 0), 1);
    assert_eq!(chip.pixel(7, 0), 0);
    assert_eq!(chip.pixel(0, 1), 0);
    assert_eq!(chip.pixel(7, 1), 1);
    assert_eq!(chip.screen()[1][7], 1);
}

#[test]
fn clear_screen_blanks_every_pixel() {
    let mut image = program(&[0xA206, 0xD011, 0x00E0]);
    image.push(0xFF);
    let mut chip = Chip8::new_with_memory(image);
    chip.single_iteration().unwrap();
    chip.single_iteration().unwrap();
    assert_eq!(chip.pixel(0, 0), 1);
    assert_eq!(chip.single_iteration(), Ok(true));
    for row in chip.screen() {
        assert!(row.iter().all(|p| *p == 0));
    }
    assert_eq!(chip.pc(), 0x206);
}

#[test]
fn call_then_return_resumes_after_the_call() {
    let mut image = program(&[0x2300]);
    image.resize(0x100, 0);
    image.push(0x00);
    image.push(0xEE);
    let mut chip = Chip8::new_with_memory(image);
    assert_eq!(chip.single_iteration(), Ok(true));
    assert_eq!(chip.pc(), 0x300);
    assert_eq!(chip.stack_depth(), 1);
    assert_eq!(chip.single_iteration(), Ok(true));
    assert_eq!(chip.pc(), 0x202);
    assert_eq!(chip.stack_depth(), 0);
}

#[test]
fn seventeenth_nested_call_overflows() {
    let words: Vec<u16> = (0..17u16).map(|k| 0x2000 | (0x202 + 2 * k)).collect();
    let mut chip = Chip8::new_with_memory(program(&words));
    for depth in 1..=16 {
        assert_eq!(chip.single_iteration(), Ok(true));
        assert_eq!(chip.stack_depth(), depth);
    }
    let pc = chip.pc();
    assert_eq!(chip.single_iteration(), Err(Chip8Error::StackOverflow));
    assert_eq!(chip.pc(), pc);
    assert_eq!(chip.stack_depth(), 16);
}

#[test]
fn return_with_empty_stack_underflows() {
    let mut chip = Chip8::new_with_memory(vec![0x00, 0xEE]);
    assert_eq!(chip.single_iteration(), Err(Chip8Error::StackUnderflow));
    assert_eq!(chip.pc(), 0x200);
}

#[test]
fn unimplemented_words_are_unknown_opcodes() {
    for word in [0x8120u16, 0xF00A, 0x0123, 0xE0A2, 0xE19F] {
        let mut chip = Chip8::new_with_memory(program(&[word]));
        assert_eq!(
            chip.single_iteration(),
            Err(Chip8Error::UnknownOpcode { instruction: word })
        );
        assert_eq!(chip.pc(), 0x200);
    }
}

#[test]
fn fetch_past_memory_end_is_out_of_bounds() {
    let mut chip = Chip8::new_with_memory(program(&[0x1FFF]));
    assert_eq!(chip.single_iteration(), Ok(true));
    assert_eq!(chip.pc(), 0xFFF);
    assert_eq!(
        chip.single_iteration(),
        Err(Chip8Error::OutOfBoundsAccess { address: 0x1000 })
    );
}

#[test]
fn sprite_read_past_memory_end_is_out_of_bounds() {
    let mut chip = Chip8::new_with_memory(program(&[0xAFFF, 0xD013]));
    chip.single_iteration().unwrap();
    assert_eq!(
        chip.single_iteration(),
        Err(Chip8Error::OutOfBoundsAccess { address: 0x1001 })
    );
    assert_eq!(chip.pc(), 0x202);
    assert_eq!(chip.pixel(0, 0), 0);
}

#[test]
fn sprite_ending_at_memory_end_draws() {
    let mut chip = Chip8::new_with_memory(program(&[0xAFFF, 0xD011]));
    chip.single_iteration().unwrap();
    assert_eq!(chip.single_iteration(), Ok(true));
}

#[test]
fn add_wraps_modulo_256() {
    let mut chip = Chip8::new_with_memory(program(&[0x64FF, 0x7402, 0x7410]));
    chip.single_iteration().unwrap();
    assert_eq!(chip.register(4), 0xFF);
    chip.single_iteration().unwrap();
    assert_eq!(chip.register(4), 0x01);
    chip.single_iteration().unwrap();
    assert_eq!(chip.register(4), 0x11);
    assert_eq!(chip.pc(), 0x206);
}

#[test]
fn jumps_set_the_program_counter() {
    let mut chip = Chip8::new_with_memory(program(&[0x1208]));
    assert_eq!(chip.single_iteration(), Ok(true));
    assert_eq!(chip.pc(), 0x208);

    let mut chip = Chip8::new_with_memory(program(&[0x6004, 0xB300]));
    chip.single_iteration().unwrap();
    assert_eq!(chip.single_iteration(), Ok(true));
    assert_eq!(chip.pc(), 0x304);
}

#[test]
fn register_comparisons_skip() {
    let mut chip = Chip8::new_with_memory(program(&[0x5120]));
    chip.set_register(1, 7);
    chip.set_register(2, 7);
    chip.single_iteration().unwrap();
    assert_eq!(chip.pc(), 0x204);

    let mut chip = Chip8::new_with_memory(program(&[0x5120]));
    chip.set_register(1, 7);
    chip.single_iteration().unwrap();
    assert_eq!(chip.pc(), 0x202);

    let mut chip = Chip8::new_with_memory(program(&[0x9120]));
    chip.set_register(1, 7);
    chip.single_iteration().unwrap();
    assert_eq!(chip.pc(), 0x204);

    let mut chip = Chip8::new_with_memory(program(&[0x9120]));
    chip.single_iteration().unwrap();
    assert_eq!(chip.pc(), 0x202);
}

#[test]
fn key_checks_skip_on_the_latched_key() {
    let mut chip = Chip8::new_with_memory(program(&[0xE39E]));
    chip.set_register(3, 5);
    chip.set_key_pressed(5);
    chip.single_iteration().unwrap();
    assert_eq!(chip.pc(), 0x204);

    let mut chip = Chip8::new_with_memory(program(&[0xE39E]));
    chip.set_register(3, 5);
    chip.single_iteration().unwrap();
    assert_eq!(chip.pc(), 0x202);

    let mut chip = Chip8::new_with_memory(program(&[0xE3A1]));
    chip.set_register(3, 5);
    chip.set_key_pressed(5);
    chip.single_iteration().unwrap();
    assert_eq!(chip.pc(), 0x202);

    let mut chip = Chip8::new_with_memory(program(&[0xE3A1]));
    chip.set_register(3, 5);
    chip.single_iteration().unwrap();
    assert_eq!(chip.pc(), 0x204);
}

#[test]
fn load_immediate_sets_register() {
    let mut chip = Chip8::new_with_memory(program(&[0x6A42]));
    chip.single_iteration().unwrap();
    assert_eq!(chip.register(0xA), 0x42);
    assert_eq!(chip.pc(), 0x202);
}

#[test]
fn main_loop_runs_to_halt() {
    let mut chip = Chip8::new_with_memory(program(&[0x6105, 0x7101, 0x0000]));
    assert_eq!(chip.main_loop(), Ok(true));
    assert_eq!(chip.register(1), 6);
    assert_eq!(chip.pc(), 0x204);

    let mut chip = Chip8::new_with_memory(program(&[0x8000]));
    assert_eq!(
        chip.main_loop(),
        Err(Chip8Error::UnknownOpcode { instruction: 0x8000 })
    );
}

#[test]
fn fields_split_the_word() {
    let f = fields(0xD35A);
    assert_eq!(f.address, 0x35A);
    assert_eq!(f.immediate, 0x5A);
    assert_eq!(f.reg_x, 3);
    assert_eq!(f.reg_y, 5);
    assert_eq!(f.subop, 0xA);
}

#[test]
fn decode_prefers_full_word_matches() {
    assert_eq!(decode(0x0000), Some(Opcode::Halt));
    assert_eq!(decode(0x00E0), Some(Opcode::ClearScreen));
    assert_eq!(decode(0x00EE), Some(Opcode::Return));
    assert_eq!(decode(0x00E1), None);
    assert_eq!(decode(0xD35A), Some(Opcode::Draw { x: 3, y: 5, height: 0xA }));
    assert_eq!(decode(0xE59E), Some(Opcode::SkipIfKey { x: 5 }));
    assert_eq!(decode(0xE5A1), Some(Opcode::SkipIfNotKey { x: 5 }));
}

#[test]
fn format_line_shows_each_pixel() {
    let mut row = [0u8; 64];
    row[0] = 1;
    row[63] = 1;
    let line = format_line(row);
    let mut expected = String::from("\u{2588}");
    for _ in 0..62 {
        expected.push('\u{2591}');
    }
    expected.push('\u{2588}');
    expected.push('\n');
    assert_eq!(line, expected);
}

#[test]
fn get_state_dumps_counters_and_registers() {
    let mut chip = Chip8::new_with_memory(program(&[0xA12C]));
    chip.single_iteration().unwrap();
    chip.set_register(0, 0x0A);
    chip.set_register(13, 0xAB);
    chip.set_register(15, 0xFF);
    assert_eq!(
        chip.get_state(),
        "memory_position: 514 (202)\n\
         i: 300 (12c)\n\n\
         v[0..3]:    0a 00 00 00\n\
         v[4..7]:    00 00 00 00\n\
         v[8..11]:   00 00 00 00\n\
         v[12..15]:  00 ab 00 ff"
    );
}

#[test]
fn main_loop_stops_before_the_halt_word() {
    let mut chip = Chip8::new_with_memory(vec![0x60, 0x05, 0x00, 0x00]);
    chip.set_key_pressed(3);
    assert_eq!(chip.main_loop(), Ok(true));
    let mut expected = vec![0u8; 16];
    expected[0] = 5;
    assert_eq!(chip.registers_vec(), expected);
    assert_eq!(chip.pc(), 0x202);
    assert_eq!(chip.index(), 0);
    assert_eq!(chip.stack_depth(), 0);
    assert_eq!(chip.single_iteration(), Ok(false));
}
