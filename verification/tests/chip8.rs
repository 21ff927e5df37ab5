use chip_8::instruction::Instruction;
use chip_8::step::Chip8Error;
use chip_8::Chip8;
use chip_8::{DISPLAY_HEIGHT, DISPLAY_WIDTH, STARTING_PC};

const NO_KEYS: [bool; 16] = [false; 16];

fn machine_with(program: Vec<u8>) -> Chip8 {
    let mut chip8 = Chip8::new();
    chip8.load_into_memory(STARTING_PC as usize, program);
    chip8
}

#[test]
fn decodes_every_field() {
    let instr = Instruction::new(0xABCD);
    assert_eq!(instr.a(), 0xA);
    assert_eq!(instr.x(), 0xB);
    assert_eq!(instr.y(), 0xC);
    assert_eq!(instr.n(), 0xD);
    assert_eq!(instr.nn(), 0xCD);
    assert_eq!(instr.nnn(), 0xBCD);
}

#[test]
fn new_machine_has_font_and_zeroed_state() {
    let chip8 = Chip8::new();
    assert_eq!(chip8.pc, 0x200);
    assert_eq!(chip8.i, 0);
    assert_eq!(chip8.delay, 0);
    assert_eq!(chip8.sound, 0);
    assert!(chip8.stack.is_empty());
    assert!(chip8.v.iter().all(|&r| r == 0));
    assert_eq!(chip8.memory[0x050], 0xF0); // first byte of glyph 0
    assert_eq!(chip8.memory[0x09F], 0x80); // last byte of glyph F
    assert_eq!(chip8.memory[0x04F], 0x00);
    assert_eq!(chip8.memory[0x0A0], 0x00);
    for x in 0..DISPLAY_WIDTH {
        for y in 0..DISPLAY_HEIGHT {
            assert!(!chip8.display.get_pixel(x, y));
        }
    }
}

#[test]
fn load_into_memory_copies_verbatim() {
    let mut chip8 = Chip8::new();
    chip8.load_into_memory(0x300, vec![1, 2, 3]);
    assert_eq!(chip8.memory[0x300..0x303], [1, 2, 3]);
    assert_eq!(chip8.memory[0x2FF], 0);
    assert_eq!(chip8.memory[0x303], 0);
}

// End to end: V0=5, V1=3, V0+=V1 leaves V0==8 with no carry.
#[test]
fn adds_two_registers_end_to_end() {
    let mut chip8 = machine_with(vec![0x60, 0x05, 0x61, 0x03, 0x80, 0x14]);
    for _ in 0..3 {
        chip8.process_instruction(&NO_KEYS).unwrap();
    }
    assert_eq!(chip8.v[0], 8);
    assert_eq!(chip8.v[0xF], 0);
    assert_eq!(chip8.pc, 0x206);
}

#[test]
fn add_sets_carry_exactly_on_overflow() {
    let mut chip8 = machine_with(vec![0x80, 0x14]);
    chip8.v[0] = 200;
    chip8.v[1] = 100;
    chip8.process_instruction(&NO_KEYS).unwrap();
    assert_eq!(chip8.v[0], 44); // 300 mod 256
    assert_eq!(chip8.v[0xF], 1);

    let mut chip8 = machine_with(vec![0x80, 0x14]);
    chip8.v[0] = 200;
    chip8.v[1] = 55;
    chip8.process_instruction(&NO_KEYS).unwrap();
    assert_eq!(chip8.v[0], 255);
    assert_eq!(chip8.v[0xF], 0);
}

#[test]
fn subtract_sets_flag_exactly_when_no_borrow() {
    let mut chip8 = machine_with(vec![0x80, 0x15]);
    chip8.v[0] = 5;
    chip8.v[1] = 3;
    chip8.process_instruction(&NO_KEYS).unwrap();
    assert_eq!(chip8.v[0], 2);
    assert_eq!(chip8.v[0xF], 1);

    let mut chip8 = machine_with(vec![0x80, 0x15]);
    chip8.v[0] = 3;
    chip8.v[1] = 5;
    chip8.process_instruction(&NO_KEYS).unwrap();
    assert_eq!(chip8.v[0], 254); // (3 - 5) mod 256
    assert_eq!(chip8.v[0xF], 0);
}

#[test]
fn reverse_subtract_sets_flag_exactly_when_no_borrow() {
    let mut chip8 = machine_with(vec![0x80, 0x17]);
    chip8.v[0] = 3;
    chip8.v[1] = 5;
    chip8.process_instruction(&NO_KEYS).unwrap();
    assert_eq!(chip8.v[0], 2);
    assert_eq!(chip8.v[0xF], 1);
}

#[test]
fn bitwise_ops_and_loads() {
    let mut chip8 = machine_with(vec![0x80, 0x11, 0x80, 0x12, 0x80, 0x13, 0x80, 0x10]);
    chip8.v[0] = 0b1100;
    chip8.v[1] = 0b1010;
    chip8.process_instruction(&NO_KEYS).unwrap();
    assert_eq!(chip8.v[0], 0b1110); // or
    chip8.v[0] = 0b1100;
    chip8.process_instruction(&NO_KEYS).unwrap();
    assert_eq!(chip8.v[0], 0b1000); // and
    chip8.v[0] = 0b1100;
    chip8.process_instruction(&NO_KEYS).unwrap();
    assert_eq!(chip8.v[0], 0b0110); // xor
    chip8.process_instruction(&NO_KEYS).unwrap();
    assert_eq!(chip8.v[0], 0b1010); // load V1
}

#[test]
fn shifts_report_the_dropped_bit() {
    let mut chip8 = machine_with(vec![0x80, 0x16]);
    chip8.v[0] = 5;
    chip8.process_instruction(&NO_KEYS).unwrap();
    assert_eq!(chip8.v[0], 2);
    assert_eq!(chip8.v[0xF], 1);

    let mut chip8 = machine_with(vec![0x80, 0x1E]);
    chip8.v[0] = 0x81;
    chip8.process_instruction(&NO_KEYS).unwrap();
    assert_eq!(chip8.v[0], 0x02); // high bit discarded, no widening
    assert_eq!(chip8.v[0xF], 1);
}

#[test]
fn immediate_add_wraps_without_touching_the_flag() {
    let mut chip8 = machine_with(vec![0x70, 0x0A]);
    chip8.v[0] = 250;
    chip8.v[0xF] = 7;
    chip8.process_instruction(&NO_KEYS).unwrap();
    assert_eq!(chip8.v[0], 4);
    assert_eq!(chip8.v[0xF], 7);
}

#[test]
fn skip_if_equal_immediate_advances_by_4_else_2() {
    let mut chip8 = machine_with(vec![0x30, 0x05]);
    chip8.v[0] = 5;
    chip8.process_instruction(&NO_KEYS).unwrap();
    assert_eq!(chip8.pc, 0x204);

    let mut chip8 = machine_with(vec![0x30, 0x05]);
    chip8.v[0] = 6;
    chip8.process_instruction(&NO_KEYS).unwrap();
    assert_eq!(chip8.pc, 0x202);
}

#[test]
fn skip_if_not_equal_immediate_advances_by_4_else_2() {
    let mut chip8 = machine_with(vec![0x40, 0x05]);
    chip8.v[0] = 6;
    chip8.process_instruction(&NO_KEYS).unwrap();
    assert_eq!(chip8.pc, 0x204);

    let mut chip8 = machine_with(vec![0x40, 0x05]);
    chip8.v[0] = 5;
    chip8.process_instruction(&NO_KEYS).unwrap();
    assert_eq!(chip8.pc, 0x202);
}

#[test]
fn skip_if_registers_equal_advances_by_4_else_2() {
    let mut chip8 = machine_with(vec![0x50, 0x10]);
    chip8.v[0] = 9;
    chip8.v[1] = 9;
    chip8.process_instruction(&NO_KEYS).unwrap();
    assert_eq!(chip8.pc, 0x204);

    let mut chip8 = machine_with(vec![0x50, 0x10]);
    chip8.v[0] = 9;
    chip8.v[1] = 8;
    chip8.process_instruction(&NO_KEYS).unwrap();
    assert_eq!(chip8.pc, 0x202);
}

#[test]
fn skip_if_registers_differ_advances_by_4_else_2() {
    let mut chip8 = machine_with(vec![0x90, 0x10]);
    chip8.v[0] = 9;
    chip8.v[1] = 8;
    chip8.process_instruction(&NO_KEYS).unwrap();
    assert_eq!(chip8.pc, 0x204);

    let mut chip8 = machine_with(vec![0x90, 0x10]);
    chip8.v[0] = 9;
    chip8.v[1] = 9;
    chip8.process_instruction(&NO_KEYS).unwrap();
    assert_eq!(chip8.pc, 0x202);
}

#[test]
fn jump_call_and_return() {
    let mut chip8 = machine_with(vec![0x22, 0x08]);
    chip8.load_into_memory(0x208, vec![0x00, 0xEE]);
    chip8.process_instruction(&NO_KEYS).unwrap();
    assert_eq!(chip8.pc, 0x208);
    assert_eq!(chip8.stack, vec![0x202]);
    chip8.process_instruction(&NO_KEYS).unwrap();
    assert_eq!(chip8.pc, 0x202);
    assert!(chip8.stack.is_empty());

    let mut chip8 = machine_with(vec![0x13, 0x00]);
    chip8.process_instruction(&NO_KEYS).unwrap();
    assert_eq!(chip8.pc, 0x300);

    let mut chip8 = machine_with(vec![0xB3, 0x00]);
    chip8.v[0] = 4;
    chip8.process_instruction(&NO_KEYS).unwrap();
    assert_eq!(chip8.pc, 0x304);
}

#[test]
fn index_register_instructions() {
    let mut chip8 = machine_with(vec![0xA3, 0x21]);
    chip8.process_instruction(&NO_KEYS).unwrap();
    assert_eq!(chip8.i, 0x321);

    let mut chip8 = machine_with(vec![0xF0, 0x1E]);
    chip8.i = 0x300;
    chip8.v[0] = 0x42;
    chip8.process_instruction(&NO_KEYS).unwrap();
    assert_eq!(chip8.i, 0x342);

    let mut chip8 = machine_with(vec![0xF0, 0x29]);
    chip8.v[0] = 0x0A;
    chip8.process_instruction(&NO_KEYS).unwrap();
    assert_eq!(chip8.i, 0x050 + 10 * 5);

    // only the low nibble of the register selects the glyph
    let mut chip8 = machine_with(vec![0xF0, 0x29]);
    chip8.v[0] = 0x2A;
    chip8.process_instruction(&NO_KEYS).unwrap();
    assert_eq!(chip8.i, 0x050 + 10 * 5);
}

#[test]
fn timer_instructions_move_values_both_ways() {
    let mut chip8 = machine_with(vec![0xF0, 0x15, 0xF1, 0x07, 0xF2, 0x18]);
    chip8.v[0] = 42;
    chip8.v[2] = 9;
    chip8.process_instruction(&NO_KEYS).unwrap();
    assert_eq!(chip8.delay, 42);
    chip8.process_instruction(&NO_KEYS).unwrap();
    assert_eq!(chip8.v[1], 42);
    chip8.process_instruction(&NO_KEYS).unwrap();
    assert_eq!(chip8.sound, 9);
}

// tick() floors both timers at zero and reports the sound timer as it was.
#[test]
fn tick_floors_at_zero_and_reports_sound() {
    let mut chip8 = Chip8::new();
    chip8.delay = 2;
    chip8.sound = 1;
    assert!(chip8.tick_timers_and_check_beep());
    assert_eq!(chip8.delay, 1);
    assert_eq!(chip8.sound, 0);
    assert!(!chip8.tick_timers_and_check_beep());
    assert_eq!(chip8.delay, 0);
    assert_eq!(chip8.sound, 0);
    assert!(!chip8.tick_timers_and_check_beep());
    assert_eq!(chip8.delay, 0);
    assert_eq!(chip8.sound, 0);
}

// Fx33 on 234 writes 2, 3, 4 at I, I+1, I+2.
#[test]
fn bcd_writes_the_three_digits() {
    let mut chip8 = machine_with(vec![0xF2, 0x33]);
    chip8.v[2] = 234;
    chip8.i = 0x300;
    chip8.process_instruction(&NO_KEYS).unwrap();
    assert_eq!(chip8.memory[0x300], 2);
    assert_eq!(chip8.memory[0x301], 3);
    assert_eq!(chip8.memory[0x302], 4);
    assert_eq!(chip8.i, 0x300);
}

// Fx55 then Fx65 with the same x and I round-trips the registers.
#[test]
fn store_then_load_round_trips_registers() {
    let mut chip8 = machine_with(vec![0xF3, 0x55, 0xF3, 0x65]);
    chip8.i = 0x300;
    chip8.v[0] = 10;
    chip8.v[1] = 20;
    chip8.v[2] = 30;
    chip8.v[3] = 40;
    chip8.process_instruction(&NO_KEYS).unwrap();
    assert_eq!(chip8.memory[0x300..0x304], [10, 20, 30, 40]);
    assert_eq!(chip8.i, 0x300);
    for k in 0..16 {
        chip8.v[k] = 0xEE;
    }
    chip8.process_instruction(&NO_KEYS).unwrap();
    assert_eq!(chip8.v[0..4], [10, 20, 30, 40]);
    assert_eq!(chip8.v[4], 0xEE); // registers above x are untouched
    assert_eq!(chip8.i, 0x300);
}

#[test]
fn clear_turns_every_pixel_off() {
    let mut chip8 = machine_with(vec![0x00, 0xE0]);
    chip8.display.set_pixel(3, 4, true);
    chip8.display.set_pixel(63, 31, true);
    chip8.process_instruction(&NO_KEYS).unwrap();
    for x in 0..DISPLAY_WIDTH {
        for y in 0..DISPLAY_HEIGHT {
            assert!(!chip8.display.get_pixel(x, y));
        }
    }
}

#[test]
fn draw_sets_pixels_and_reports_collision_on_redraw() {
    // Draw the same 8x1 sprite twice: the second draw collides and restores
    // the grid to blank.
    let mut chip8 = machine_with(vec![0xD0, 0x11, 0xD0, 0x11]);
    chip8.load_into_memory(0x300, vec![0b1010_0000]);
    chip8.i = 0x300;
    chip8.v[0] = 8;
    chip8.v[1] = 4;
    chip8.process_instruction(&NO_KEYS).unwrap();
    assert!(chip8.display.get_pixel(8, 4));
    assert!(!chip8.display.get_pixel(9, 4));
    assert!(chip8.display.get_pixel(10, 4));
    assert_eq!(chip8.v[0xF], 0);
    chip8.process_instruction(&NO_KEYS).unwrap();
    assert_eq!(chip8.v[0xF], 1);
    for x in 0..DISPLAY_WIDTH {
        for y in 0..DISPLAY_HEIGHT {
            assert!(!chip8.display.get_pixel(x, y));
        }
    }
}

#[test]
fn draw_wraps_start_coordinates() {
    let mut chip8 = machine_with(vec![0xD0, 0x11]);
    chip8.load_into_memory(0x300, vec![0b1000_0000]);
    chip8.i = 0x300;
    chip8.v[0] = 64 + 4;
    chip8.v[1] = 32 + 5;
    chip8.process_instruction(&NO_KEYS).unwrap();
    assert!(chip8.display.get_pixel(4, 5));
}

#[test]
fn draw_clips_at_the_right_edge() {
    let mut chip8 = machine_with(vec![0xD0, 0x11]);
    chip8.load_into_memory(0x300, vec![0xFF]);
    chip8.i = 0x300;
    chip8.v[0] = 60;
    chip8.v[1] = 0;
    chip8.process_instruction(&NO_KEYS).unwrap();
    assert!(chip8.display.get_pixel(60, 0));
    assert!(chip8.display.get_pixel(61, 0));
    assert!(chip8.display.get_pixel(62, 0));
    // the row stops at the last column instead of wrapping
    assert!(!chip8.display.get_pixel(63, 0));
    assert!(!chip8.display.get_pixel(0, 0));
}

#[test]
fn draw_clips_at_the_bottom_edge() {
    let mut chip8 = machine_with(vec![0xD0, 0x13]);
    chip8.load_into_memory(0x300, vec![0x80, 0x80, 0x80]);
    chip8.i = 0x300;
    chip8.v[0] = 0;
    chip8.v[1] = 30;
    chip8.process_instruction(&NO_KEYS).unwrap();
    assert!(chip8.display.get_pixel(0, 30));
    // the sprite stops at the last row instead of wrapping
    assert!(!chip8.display.get_pixel(0, 31));
    assert!(!chip8.display.get_pixel(0, 0));
    assert!(!chip8.display.get_pixel(0, 1));
}

#[test]
fn key_skips_follow_the_snapshot() {
    let mut keys = [false; 16];
    keys[7] = true;

    let mut chip8 = machine_with(vec![0xE0, 0x9E]);
    chip8.v[0] = 7;
    chip8.process_instruction(&keys).unwrap();
    assert_eq!(chip8.pc, 0x204);

    let mut chip8 = machine_with(vec![0xE0, 0x9E]);
    chip8.v[0] = 6;
    chip8.process_instruction(&keys).unwrap();
    assert_eq!(chip8.pc, 0x202);

    let mut chip8 = machine_with(vec![0xE0, 0xA1]);
    chip8.v[0] = 7;
    chip8.process_instruction(&keys).unwrap();
    assert_eq!(chip8.pc, 0x202);

    let mut chip8 = machine_with(vec![0xE0, 0xA1]);
    chip8.v[0] = 6;
    chip8.process_instruction(&keys).unwrap();
    assert_eq!(chip8.pc, 0x204);
}

// Fx0A rewinds the program counter onto itself until a key is pressed, then
// stores the lowest-numbered pressed key.
#[test]
fn key_wait_rewinds_until_a_key_arrives() {
    let mut chip8 = machine_with(vec![0xF5, 0x0A]);
    chip8.process_instruction(&NO_KEYS).unwrap();
    assert_eq!(chip8.pc, 0x200);
    chip8.process_instruction(&NO_KEYS).unwrap();
    assert_eq!(chip8.pc, 0x200);
    let mut keys = [false; 16];
    keys[4] = true;
    keys[2] = true;
    chip8.process_instruction(&keys).unwrap();
    assert_eq!(chip8.pc, 0x202);
    assert_eq!(chip8.v[5], 2);
}

#[test]
fn random_byte_is_masked() {
    let mut chip8 = machine_with(vec![0xC0, 0x00, 0xC1, 0x0F]);
    chip8.v[0] = 0xAA;
    chip8.process_instruction(&NO_KEYS).unwrap();
    assert_eq!(chip8.v[0], 0); // masked with 0x00
    chip8.process_instruction(&NO_KEYS).unwrap();
    assert_eq!(chip8.v[1] & 0xF0, 0); // masked with 0x0F
}

#[test]
fn unknown_instructions_are_fatal_and_leave_the_state_alone() {
    for program in [
        vec![0xFF, 0xFF],
        vec![0x00, 0x00],
        vec![0x80, 0x18],
        vec![0x50, 0x11],
        vec![0x90, 0x11],
        vec![0xE0, 0x00],
    ] {
        let mut chip8 = machine_with(program);
        assert_eq!(
            chip8.process_instruction(&NO_KEYS),
            Err(Chip8Error::UnknownInstruction)
        );
        assert_eq!(chip8.pc, 0x200);
    }
}

#[test]
fn returning_with_an_empty_stack_is_fatal() {
    let mut chip8 = machine_with(vec![0x00, 0xEE]);
    assert_eq!(
        chip8.process_instruction(&NO_KEYS),
        Err(Chip8Error::StackUnderflow)
    );
    assert_eq!(chip8.pc, 0x200);
}

#[test]
fn fetch_outside_memory_is_fatal() {
    let mut chip8 = Chip8::new();
    chip8.pc = 4095;
    assert_eq!(
        chip8.process_instruction(&NO_KEYS),
        Err(Chip8Error::OutOfBounds)
    );
    assert_eq!(chip8.pc, 4095);
}

#[test]
fn memory_transfers_outside_memory_are_fatal() {
    let mut chip8 = machine_with(vec![0xFF, 0x55]);
    chip8.i = 4090;
    assert_eq!(
        chip8.process_instruction(&NO_KEYS),
        Err(Chip8Error::OutOfBounds)
    );
    assert_eq!(chip8.pc, 0x200);

    let mut chip8 = machine_with(vec![0xF2, 0x33]);
    chip8.i = 4094;
    assert_eq!(
        chip8.process_instruction(&NO_KEYS),
        Err(Chip8Error::OutOfBounds)
    );

    let mut chip8 = machine_with(vec![0xD0, 0x12]);
    chip8.i = 4095;
    assert_eq!(
        chip8.process_instruction(&NO_KEYS),
        Err(Chip8Error::OutOfBounds)
    );
}

#[test]
fn key_test_above_the_sixteen_keys_is_fatal() {
    let mut chip8 = machine_with(vec![0xE0, 0x9E]);
    chip8.v[0] = 20;
    assert_eq!(
        chip8.process_instruction(&NO_KEYS),
        Err(Chip8Error::InvalidKey)
    );
    assert_eq!(chip8.pc, 0x200);
}
