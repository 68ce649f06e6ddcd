use rchip::Cpu;

#[test]
fn fetch_combines_two_bytes() {
    let mut cpu = Cpu::new();
    cpu.memory[0x200] = 0x60;
    cpu.memory[0x201] = 0x0A;

    let opcode = cpu.fetch();

    assert_eq!(opcode, 0x600A);
    assert_eq!(cpu.pc, 0x202);
}

#[test]
fn correct_register_indexing_and_immediate_byte() {
    assert_eq!(Cpu::register_index(0x6A42), 0xA);
    assert_eq!(Cpu::immediate_byte(0x6A42), 0x42);
}

#[test]
fn correct_instruction_type() {
    assert_eq!(Cpu::instruction_type(0x6A42), 0x6);
}

#[test]
fn load_immediate_into_register() {
    let mut cpu = Cpu::new();

    cpu.execute(0x6A42);

    assert_eq!(cpu.registers[10], 0x42);
}

#[test]
fn add_immediate_into_register() {
    let mut cpu = Cpu::new();

    cpu.execute(0x7A03);
    cpu.execute(0x7A07);

    assert_eq!(cpu.registers[10], 0xA);
}

#[test]
fn add_immediate_into_register_overflow() {
    let mut cpu = Cpu::new();

    cpu.execute(0x7AFF);
    cpu.execute(0x7A07);

    assert_eq!(cpu.registers[10], 0x6);
}

#[test]
fn cycle_fetches_and_executes() {
    let mut cpu = Cpu::new();

    cpu.memory[0x200] = 0x6A;
    cpu.memory[0x201] = 0x42;

    cpu.cycle();

    assert_eq!(cpu.registers[10], 0x42);
    assert_eq!(cpu.pc, 0x202);
}

#[test]
fn load_small_program() {
    let mut cpu = Cpu::new();

    cpu.load_program(&[0x6A, 0x42, 0x7A, 0x05]);

    assert_eq!(cpu.memory[0x200], 0x6A);
    assert_eq!(cpu.memory[0x201], 0x42);
    assert_eq!(cpu.memory[0x202], 0x7A);
    assert_eq!(cpu.memory[0x203], 0x05);
}

#[test]
fn execute_small_program() {
    let mut cpu = Cpu::new();

    cpu.load_program(&[0x6A, 0x42, 0x7A, 0x05]);

    cpu.cycle();
    cpu.cycle();

    assert_eq!(cpu.registers[10], 0x47);
    assert_eq!(cpu.pc, 0x204);
}

#[test]
fn call_address() {
    let mut cpu = Cpu::new();

    cpu.load_program(&[0x22, 0x04, 0x7A, 0x05, 0x6A, 0x42]);

    cpu.cycle();

    assert_eq!(cpu.stack[0], 0x202);
    assert_eq!(cpu.sp, 1);
    assert_eq!(cpu.pc, 0x204);
}

#[test]
fn call_address_and_return() {
    let mut cpu = Cpu::new();

    cpu.load_program(&[0x22, 0x04, 0x6A, 0x42, 0x7A, 0x05, 0x00, 0xEE]);

    // The following program should initially add 0x5 into Register 10
    // But since the return brings it back to an immediate load, the final
    // result should be a 0x42 not a 0x47.
    // 0x204
    cpu.cycle();
    // 0x206
    cpu.cycle();
    // 0x202
    cpu.cycle();
    //0x204
    cpu.cycle();

    assert_eq!(cpu.registers[10], 0x42);
    assert_eq!(cpu.sp, 0);
    assert_eq!(cpu.pc, 0x204);
}

#[test]
fn conditional_execution_if_equal_skip() {
    let mut cpu = Cpu::new();

    cpu.load_program(&[0x6A, 0x42, 0x3A, 0x42, 0x6A, 0x45, 0x3A, 0x45]);

    cpu.cycle();
    cpu.cycle();

    assert_eq!(cpu.pc, 0x206);

    // If not equal does not skip

    cpu.cycle();

    assert_eq!(cpu.registers[10], 0x42);
    assert_eq!(cpu.pc, 0x208);
}

#[test]
fn conditional_execution_if_not_equal_skip() {
    let mut cpu = Cpu::new();

    cpu.load_program(&[0x6A, 0x42, 0x4A, 0x42, 0x6A, 0x45, 0x4A, 0x47]);

    cpu.cycle();
    cpu.cycle();

    assert_eq!(cpu.pc, 0x204);

    // If not equal does skip

    cpu.cycle();
    cpu.cycle();

    assert_eq!(cpu.registers[10], 0x45);
    assert_eq!(cpu.pc, 0x20A);
}

#[test]
fn conditional_execution_if_registers_equal_skip() {
    let mut cpu = Cpu::new();

    cpu.load_program(&[
        0x6A, 0x42, 0x6B, 0x42, 0x5A, 0xB0, 0x69, 0x40, 0x6A, 0x45, 0x5A, 0xB0, 0x6B, 0x32,
    ]);

    // Load 42 in registers A and B
    cpu.cycle();
    cpu.cycle();

    // Execute conditional register execution should skip to 0x6A, 0x45
    cpu.cycle();

    assert_eq!(cpu.pc, 0x208);

    // Move 45 into register A then compare register A (45) and B (42)
    cpu.cycle();
    cpu.cycle();

    // Shouldn't skip so register B should have 32 loaded into it
    cpu.cycle();

    assert_eq!(cpu.registers[11], 0x32);
    assert_eq!(cpu.pc, 0x20E);
}

#[test]
fn conditional_execution_if_registers_not_equal_skip() {
    let mut cpu = Cpu::new();

    cpu.load_program(&[
        0x6A, 0x42, 0x6B, 0x42, 0x9A, 0xB0, 0x69, 0x40, 0x6A, 0x45, 0x9A, 0xB0, 0x6B, 0x32,
    ]);

    // Load 42 in registers A and B
    cpu.cycle();
    cpu.cycle();

    // Execute conditional register execution should not  skip to 0x6A, 0x45
    cpu.cycle();

    assert_eq!(cpu.pc, 0x206);

    // Then Register 9 holds the value of 40
    // and Register A holds 45 now
    cpu.cycle();
    cpu.cycle();

    // Execute conditional register execution, should skip so register B still has the value of 42.
    cpu.cycle();

    assert_eq!(cpu.registers[9], 0x40);
    assert_eq!(cpu.registers[11], 0x42);
    assert_eq!(cpu.pc, 0x20E);
}

#[test]
fn arithmetic_add() {
    let mut cpu = Cpu::new();

    // 200 into register A
    cpu.execute(0x6AC8);
    // 100 into register B
    cpu.execute(0x6B64);
    // Add reg A and B
    cpu.execute(0x8AB4);

    // Result should be 44 and carry
    assert_eq!(cpu.registers[0xF], 1);
    assert_eq!(cpu.registers[0xA], 44);

    // 100 into register A
    cpu.execute(0x6A64);
    // 50 into register B
    cpu.execute(0x6B32);
    // Add reg A and B
    cpu.execute(0x8AB4);

    // Result should be 150 without carry
    assert_eq!(cpu.registers[0xF], 0);
    assert_eq!(cpu.registers[0xA], 150);
}

#[test]
fn arithmetic_sub() {
    let mut cpu = Cpu::new();

    // 10 into register A
    cpu.execute(0x6A0A);
    // 3 into register B
    cpu.execute(0x6B03);
    // Subtract reg a by reg b
    cpu.execute(0x8AB5);

    // Result should be 7 and flag is set
    assert_eq!(cpu.registers[0xF], 1);
    assert_eq!(cpu.registers[0xA], 7);

    // 3 into register A
    cpu.execute(0x6A03);
    // 10 into register B
    cpu.execute(0x6B0A);
    // Subtract reg a by reg b
    cpu.execute(0x8AB5);

    // Result should be 249 and flag is cleared
    assert_eq!(cpu.registers[0xF], 0);
    assert_eq!(cpu.registers[0xA], 249);
}

#[test]
fn arithmetic_reverse_sub() {
    let mut cpu = Cpu::new();

    // 10 into register A
    cpu.execute(0x6A0A);
    // 3 into register B
    cpu.execute(0x6B03);
    // Subtract reg B by A
    cpu.execute(0x8AB7);

    // Result should be 249 and flag is cleared
    assert_eq!(cpu.registers[0xF], 0);
    assert_eq!(cpu.registers[0xA], 249);

    // 3 into register A
    cpu.execute(0x6A03);
    // 10 into register B
    cpu.execute(0x6B0A);
    // Subtract reg B by A
    cpu.execute(0x8AB7);

    // Result should be 7 and flag is set
    assert_eq!(cpu.registers[0xF], 1);
    assert_eq!(cpu.registers[0xA], 7);
}

#[test]
fn logical_shift_right() {
    let mut cpu = Cpu::new();

    // Load 1011_0111 into reg A
    cpu.execute(0x6AB7);
    // Load 1011_0110 into reg B
    cpu.execute(0x6BB6);

    // Shift A right by 1
    cpu.execute(0x8AB6);
    assert_eq!(cpu.registers[0xA], 0x5B);
    assert_eq!(cpu.registers[0xF], 1);

    // Shift B right by 1
    cpu.execute(0x8BA6);
    assert_eq!(cpu.registers[0xB], 0x5B);
    assert_eq!(cpu.registers[0xF], 0);
}

#[test]
fn logical_shift_left() {
    let mut cpu = Cpu::new();

    // Load 1011_0111 into reg A
    cpu.execute(0x6AB7);
    // Load 0011_0110 into reg B
    cpu.execute(0x6B37);

    // Shift A left by 1
    cpu.execute(0x8ABE);
    assert_eq!(cpu.registers[0xA], 0x6E);
    assert_eq!(cpu.registers[0xF], 1);

    // Shift B left by 1
    cpu.execute(0x8BAE);
    assert_eq!(cpu.registers[0xB], 0x6E);
    assert_eq!(cpu.registers[0xF], 0);
}

#[test]
fn load_immediate_into_i() {
    let mut cpu = Cpu::new();

    cpu.execute(0xA300);

    assert_eq!(cpu.i, 0x300);
}

#[test]
fn jump_to_address() {
    let mut cpu = Cpu::new();

    cpu.memory[0x200] = 0x13;
    cpu.memory[0x201] = 0x00;
    cpu.memory[0x300] = 0x6A;
    cpu.memory[0x301] = 0x42;

    cpu.cycle();
    cpu.cycle();

    assert_eq!(cpu.registers[0xA], 0x42);
    assert_eq!(cpu.pc, 0x302);
}

#[test]
fn jump_to_address_plus_v0() {
    let mut cpu = Cpu::new();

    cpu.registers[0] = 0x10;

    cpu.memory[0x200] = 0xB3;
    cpu.memory[0x201] = 0x00;
    cpu.memory[0x300] = 0x6A;
    cpu.memory[0x301] = 0x42;
    cpu.memory[0x310] = 0x6A;
    cpu.memory[0x311] = 0x40;

    cpu.cycle();
    cpu.cycle();

    assert_eq!(cpu.registers[0xA], 0x40);
    assert_eq!(cpu.pc, 0x312);
}

#[test]
fn random_and_with_immediate() {
    let mut cpu = Cpu::new();

    cpu.execute(0xCAF0);

    assert_eq!(cpu.registers[0xA] & 0x0F, 0);
}

#[test]
fn draw_sprite_instruction() {
    let mut cpu = Cpu::new();

    // Fake sprite data
    cpu.memory[0x50] = 0x50;
    cpu.memory[0x51] = 0x41;
    cpu.memory[0x52] = 0x30;

    // I register point at the sprite data start
    cpu.i = 0x50;

    // X and Y coordinates
    cpu.registers[0xA] = 0x8;
    cpu.registers[0xB] = 0x5;

    // Draw the sprite data
    cpu.execute(0xDAB3);

    assert!(cpu.display.get_pixel(9, 5));
    assert!(cpu.display.get_pixel(11, 5));
    assert!(cpu.display.get_pixel(9, 6));
    assert!(cpu.display.get_pixel(15, 6));
    assert!(cpu.display.get_pixel(10, 7));
    assert!(cpu.display.get_pixel(11, 7));

    assert_eq!(cpu.registers[0xF], 0);

    // Erase sprite data
    cpu.execute(0xDAB3);

    assert!(!cpu.display.get_pixel(9, 5));
    assert!(!cpu.display.get_pixel(11, 5));
    assert!(!cpu.display.get_pixel(9, 6));
    assert!(!cpu.display.get_pixel(15, 6));
    assert!(!cpu.display.get_pixel(10, 7));
    assert!(!cpu.display.get_pixel(11, 7));

    assert_eq!(cpu.registers[0xF], 1);
}

#[test]
fn clear_display() {
    let mut cpu = Cpu::new();

    cpu.memory[0x50] = 0x50;

    cpu.i = 0x50;

    cpu.registers[0xA] = 0x8;
    cpu.registers[0xB] = 0x5;

    cpu.execute(0xDAB3);
    assert!(cpu.display.get_pixel(9, 5));
    assert!(cpu.display.get_pixel(11, 5));

    cpu.execute(0x00E0);
    assert!(!cpu.display.get_pixel(9, 5));
    assert!(!cpu.display.get_pixel(11, 5));
}

#[test]
fn input_branch() {
    let mut cpu = Cpu::new();

    cpu.registers[0] = 0xA;
    cpu.keypad.set_key(0xA, true);

    assert!(cpu.keypad.is_pressed(0xA));

    cpu.load_program(&[
        0x6A, 0x42, 0x6B, 0x42, 0xE0, 0x9E, 0x69, 0x40, 0x6A, 0x45, 0xE0, 0xA1, 0x6B, 0x32,
    ]);

    // Load 42 in registers A and B
    cpu.cycle();
    cpu.cycle();

    // Execute conditional register execution should skip to 0x6A, 0x45
    cpu.cycle();

    assert_eq!(cpu.pc, 0x208);

    // Move 45 into register A then compare register A (45) and B (42)
    cpu.cycle();
    cpu.cycle();

    // Shouldn't skip so register B should have 32 loaded into it
    cpu.cycle();

    assert_eq!(cpu.registers[11], 0x32);
    assert_eq!(cpu.pc, 0x20E);
}

#[test]
fn set_register_to_delay_timer() {
    let mut cpu = Cpu::new();

    cpu.delay_timer = 120;

    cpu.execute(0xF207);

    assert_eq!(cpu.registers[0x2], 120);
}

#[test]
fn set_delay_timer_to_register_value() {
    let mut cpu = Cpu::new();

    cpu.registers[0x2] = 120;

    cpu.execute(0xF215);

    assert_eq!(cpu.delay_timer, 120);
}

#[test]
fn set_sound_timer_to_register_value() {
    let mut cpu = Cpu::new();

    cpu.registers[0x2] = 120;

    cpu.execute(0xF218);

    assert_eq!(cpu.sound_timer, 120);
}

#[test]
fn add_register_into_i() {
    let mut cpu = Cpu::new();

    cpu.registers[0x2] = 0x20;
    cpu.i = 0x300;

    cpu.execute(0xF21E);

    assert_eq!(cpu.i, 0x320);

    cpu.registers[0x2] = 0x1;
    cpu.i = 0xFFFF;

    cpu.execute(0xF21E);

    assert_eq!(cpu.i, 0);
}

#[test]
fn new_machine_starts_at_program_start() {
    let cpu = Cpu::new();

    assert_eq!(cpu.pc, 0x200);
    assert_eq!(cpu.sp, 0);
    assert_eq!(cpu.i, 0);
    assert_eq!(cpu.registers, [0; 16]);
    assert_eq!(cpu.stack, [0; 16]);
    assert_eq!(cpu.memory, [0; 4096]);
    assert_eq!(cpu.delay_timer, 0);
    assert_eq!(cpu.sound_timer, 0);
}

#[test]
fn loading_a_program_leaves_other_memory_alone() {
    let mut cpu = Cpu::new();
    cpu.memory[0x1FF] = 0x11;
    cpu.memory[0x203] = 0x22;

    cpu.load_program(&[0xAA, 0xBB, 0xCC]);

    assert_eq!(cpu.memory[0x1FF], 0x11);
    assert_eq!(&cpu.memory[0x200..0x203], &[0xAA, 0xBB, 0xCC]);
    assert_eq!(cpu.memory[0x203], 0x22);
    assert_eq!(cpu.pc, 0x200);
}

#[test]
fn loading_a_program_that_fills_memory() {
    let mut cpu = Cpu::new();
    let program = [0x5Au8; 4096 - 0x200];

    cpu.load_program(&program);

    assert_eq!(cpu.memory[0x200], 0x5A);
    assert_eq!(cpu.memory[4095], 0x5A);
    assert_eq!(cpu.memory[0x1FF], 0);
}

#[test]
fn decoding_the_other_fields() {
    assert_eq!(Cpu::second_register_index(0x8AB4), 0xB);
    assert_eq!(Cpu::immediate_12bit_data(0x2ABC), 0xABC);
    assert_eq!(Cpu::instruction_type(0xF00F), 0xF);
    assert_eq!(Cpu::register_index(0xFFFF), 0xF);
    assert_eq!(Cpu::immediate_byte(0x12FE), 0xFE);
}

#[test]
fn call_then_return_restores_pc_and_depth() {
    let mut cpu = Cpu::new();
    cpu.pc = 0x345;

    cpu.execute(0x2ABC);
    assert_eq!(cpu.pc, 0xABC);
    assert_eq!(cpu.sp, 1);
    assert_eq!(cpu.stack[0], 0x345);

    cpu.execute(0x00EE);
    assert_eq!(cpu.pc, 0x345);
    assert_eq!(cpu.sp, 0);
}

#[test]
fn nested_calls_return_in_order() {
    let mut cpu = Cpu::new();

    cpu.execute(0x2300);
    cpu.execute(0x2400);
    assert_eq!(cpu.sp, 2);
    cpu.execute(0x00EE);
    assert_eq!(cpu.pc, 0x300);
    cpu.execute(0x00EE);
    assert_eq!(cpu.pc, 0x200);
    assert_eq!(cpu.sp, 0);
}

#[test]
fn register_skip_ignores_nonzero_low_nibble() {
    let mut cpu = Cpu::new();

    cpu.execute(0x5AB1);
    assert_eq!(cpu.pc, 0x200);
    cpu.execute(0x9AB1);
    assert_eq!(cpu.pc, 0x200);
}

#[test]
fn byte_skips_are_complementary() {
    for value in [0x00u8, 0x42, 0xFF] {
        let mut equal = Cpu::new();
        equal.registers[3] = value;
        equal.execute(0x3342);
        let mut not_equal = Cpu::new();
        not_equal.registers[3] = value;
        not_equal.execute(0x4342);
        assert_eq!(equal.pc + not_equal.pc, 2 * 0x200 + 2);
    }
}

#[test]
fn key_skips_are_complementary() {
    let mut cpu = Cpu::new();
    cpu.registers[5] = 0x7;

    cpu.execute(0xE59E);
    assert_eq!(cpu.pc, 0x200);
    cpu.execute(0xE5A1);
    assert_eq!(cpu.pc, 0x202);

    cpu.keypad.set_key(0x7, true);
    cpu.execute(0xE59E);
    assert_eq!(cpu.pc, 0x204);
    cpu.execute(0xE5A1);
    assert_eq!(cpu.pc, 0x204);
}

#[test]
fn add_into_the_flag_register_keeps_the_carry() {
    let mut cpu = Cpu::new();

    cpu.execute(0x6FFF);
    cpu.execute(0x6A02);
    cpu.execute(0x8FA4);

    assert_eq!(cpu.registers[0xF], 1);
}

#[test]
fn shift_of_the_flag_register_overwrites_the_shifted_out_bit() {
    let mut cpu = Cpu::new();

    cpu.execute(0x6F03);
    cpu.execute(0x8F06);
    assert_eq!(cpu.registers[0xF], 0);

    cpu.execute(0x6F81);
    cpu.execute(0x8F0E);
    assert_eq!(cpu.registers[0xF], 2);
}

#[test]
fn bitwise_operations_and_moves() {
    let mut cpu = Cpu::new();
    cpu.registers[1] = 0b1100_1010;
    cpu.registers[2] = 0b1010_0110;

    cpu.execute(0x8121);
    assert_eq!(cpu.registers[1], 0b1110_1110);
    cpu.registers[1] = 0b1100_1010;
    cpu.execute(0x8122);
    assert_eq!(cpu.registers[1], 0b1000_0010);
    cpu.registers[1] = 0b1100_1010;
    cpu.execute(0x8123);
    assert_eq!(cpu.registers[1], 0b0110_1100);
    cpu.execute(0x8120);
    assert_eq!(cpu.registers[1], 0b1010_0110);
    assert_eq!(cpu.registers[0xF], 0);
}

#[test]
fn subtraction_with_equal_operands_sets_no_borrow() {
    let mut cpu = Cpu::new();
    cpu.registers[1] = 9;
    cpu.registers[2] = 9;

    cpu.execute(0x8125);
    assert_eq!(cpu.registers[1], 0);
    assert_eq!(cpu.registers[0xF], 1);
}

#[test]
fn jump_plus_v0_wraps_nothing_within_u16() {
    let mut cpu = Cpu::new();
    cpu.registers[0] = 0xFF;

    cpu.execute(0xBFFF);
    assert_eq!(cpu.pc, 0x10FE);
}

#[test]
fn sound_timer_and_font_address() {
    let mut cpu = Cpu::new();
    cpu.registers[4] = 33;
    cpu.i = 0x123;

    cpu.execute(0xF418);
    assert_eq!(cpu.sound_timer, 33);
    cpu.execute(0xF429);
    assert_eq!(cpu.i, 0x200);
}

#[test]
fn delay_timer_round_trip() {
    let mut cpu = Cpu::new();
    cpu.registers[6] = 77;

    cpu.execute(0xF615);
    cpu.execute(0xF907);
    assert_eq!(cpu.registers[9], 77);
    assert_eq!(cpu.delay_timer, 77);
}

#[test]
fn unknown_instructions_change_nothing() {
    let mut cpu = Cpu::new();
    cpu.registers[3] = 5;

    cpu.execute(0x0123);
    cpu.execute(0x8129);
    cpu.execute(0xE3FF);
    cpu.execute(0xF3FF);

    assert_eq!(cpu.pc, 0x200);
    assert_eq!(cpu.registers[3], 5);
    assert_eq!(cpu.i, 0);
}

#[test]
fn draw_instruction_with_zero_rows_clears_the_flag() {
    let mut cpu = Cpu::new();
    cpu.registers[0xF] = 1;

    cpu.execute(0xD120);

    assert_eq!(cpu.registers[0xF], 0);
}

#[test]
fn random_with_mask_zero_is_zero() {
    let mut cpu = Cpu::new();
    cpu.registers[4] = 0xAB;

    cpu.execute(0xC400);

    assert_eq!(cpu.registers[4], 0);
    assert_eq!(cpu.pc, 0x200);
}

#[test]
fn clear_screen_then_cycle_moves_on() {
    let mut cpu = Cpu::new();
    cpu.display.toggle_pixel(3, 3);
    cpu.load_program(&[0x00, 0xE0]);

    cpu.cycle();

    assert!(!cpu.display.get_pixel(3, 3));
    assert_eq!(cpu.pc, 0x202);
}
