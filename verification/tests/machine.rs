use chip8::chip8::Chip8;
use chip8::rom::Rom;
use chip8::Chip8Error;

/// Build a machine, load `program` at the ROM offset, and run `cycles`
/// steps, all of which must succeed.
fn run_program(program: Vec<u8>, cycles: usize) -> Chip8 {
    let mut m = Chip8::new();
    m.init();
    m.load_rom(Rom::new(program)).unwrap();
    for _ in 0..cycles {
        m.run_cycle().unwrap();
    }
    m
}

#[test]
fn end_to_end_load_add_jump() {
    // LOAD V0, 5; ADD V0, 10; JUMP back over itself
    let m = run_program(vec![0x60, 0x05, 0x70, 0x0A, 0x12, 0x04], 2);
    assert_eq!(m.reg(0), 15);
    assert_eq!(m.pc(), 0x204);
}

#[test]
fn init_loads_font_and_start_address() {
    let mut m = Chip8::new();
    m.init();
    assert_eq!(m.pc(), 0x200);
    assert_eq!(m.mem_byte(0x050), 0xF0);
    assert_eq!(m.mem_byte(0x050 + 79), 0x80);
    assert_eq!(m.mem_byte(0x04F), 0);
    assert_eq!(m.mem_byte(0x050 + 80), 0);
}

#[test]
fn load_rom_rejects_oversized_image() {
    let mut m = Chip8::new();
    m.init();
    let big = vec![0u8; 4096 - 0x200 + 1];
    assert_eq!(m.load_rom(Rom::new(big)), Err(Chip8Error::LoadError));
    let fits = vec![0u8; 4096 - 0x200];
    assert_eq!(m.load_rom(Rom::new(fits)), Ok(()));
}

#[test]
fn add_reg_sets_carry_flag() {
    // LOAD V0, 0xFF; LOAD V1, 0x01; ADDR V0, V1
    let m = run_program(vec![0x60, 0xFF, 0x61, 0x01, 0x80, 0x14], 3);
    assert_eq!(m.reg(0), 0x00);
    assert_eq!(m.reg(0xF), 1);
}

#[test]
fn add_reg_clears_carry_flag() {
    let m = run_program(vec![0x60, 0x01, 0x61, 0x01, 0x80, 0x14], 3);
    assert_eq!(m.reg(0), 0x02);
    assert_eq!(m.reg(0xF), 0);
}

#[test]
fn sub_reg_without_borrow() {
    // LOAD V0, 5; LOAD V1, 3; SUB V0, V1
    let m = run_program(vec![0x60, 0x05, 0x61, 0x03, 0x80, 0x15], 3);
    assert_eq!(m.reg(0), 0x02);
    assert_eq!(m.reg(0xF), 1);
}

#[test]
fn sub_reg_with_borrow() {
    let m = run_program(vec![0x60, 0x03, 0x61, 0x05, 0x80, 0x15], 3);
    assert_eq!(m.reg(0), 0xFE);
    assert_eq!(m.reg(0xF), 0);
}

#[test]
fn shift_right_flag_from_bit_zero() {
    // LOAD V0, 3; SHR V0
    let m = run_program(vec![0x60, 0x03, 0x80, 0x06], 2);
    assert_eq!(m.reg(0), 0x01);
    assert_eq!(m.reg(0xF), 1);
}

#[test]
fn shift_left_flag_from_bit_seven() {
    // LOAD V0, 0x81; SHL V0
    let m = run_program(vec![0x60, 0x81, 0x80, 0x07], 2);
    assert_eq!(m.reg(0), 0x02);
    assert_eq!(m.reg(0xF), 1);
}

#[test]
fn add_imm_wraps_without_touching_flag() {
    let m = run_program(vec![0x60, 0xFF, 0x70, 0x02], 2);
    assert_eq!(m.reg(0), 0x01);
    assert_eq!(m.reg(0xF), 0);
}

#[test]
fn logic_ops_or_and_xor() {
    // LOAD V0, 0b1100; LOAD V1, 0b1010; OR -> 0b1110
    let m = run_program(vec![0x60, 0x0C, 0x61, 0x0A, 0x80, 0x11], 3);
    assert_eq!(m.reg(0), 0x0E);
    let m = run_program(vec![0x60, 0x0C, 0x61, 0x0A, 0x80, 0x12], 3);
    assert_eq!(m.reg(0), 0x08);
    let m = run_program(vec![0x60, 0x0C, 0x61, 0x0A, 0x80, 0x13], 3);
    assert_eq!(m.reg(0), 0x06);
}

#[test]
fn skip_taken_and_not_taken() {
    // SKE V0, 0: V0 is 0, so the skip is taken
    let m = run_program(vec![0x30, 0x00], 1);
    assert_eq!(m.pc(), 0x204);
    // SKE V0, 1: not taken
    let m = run_program(vec![0x30, 0x01], 1);
    assert_eq!(m.pc(), 0x202);
}

#[test]
fn call_then_return_resumes_after_call() {
    // 0x200: CALL 0x204; 0x202: (never reached yet); 0x204: RET
    let m = run_program(vec![0x22, 0x04, 0x00, 0x00, 0x00, 0xEE], 2);
    assert_eq!(m.pc(), 0x202);
}

#[test]
fn seventeenth_nested_call_overflows() {
    // 17 chained calls, each to the next instruction
    let mut program: Vec<u8> = Vec::new();
    for k in 0..17u16 {
        let target = 0x202 + 2 * k;
        program.push(0x20 | (target >> 8) as u8);
        program.push((target & 0xFF) as u8);
    }
    let mut m = Chip8::new();
    m.init();
    m.load_rom(Rom::new(program)).unwrap();
    for _ in 0..16 {
        m.run_cycle().unwrap();
    }
    let pc_before = m.pc();
    assert_eq!(m.run_cycle(), Err(Chip8Error::StackOverflow));
    assert_eq!(m.pc(), pc_before);
}

#[test]
fn return_on_empty_stack_underflows() {
    let mut m = Chip8::new();
    m.init();
    m.load_rom(Rom::new(vec![0x00, 0xEE])).unwrap();
    assert_eq!(m.run_cycle(), Err(Chip8Error::StackUnderflow));
    assert_eq!(m.pc(), 0x200);
}

#[test]
fn unknown_word_is_a_decode_error() {
    let mut m = Chip8::new();
    m.init();
    m.load_rom(Rom::new(vec![0xE0, 0x00])).unwrap();
    assert_eq!(
        m.run_cycle(),
        Err(Chip8Error::DecodeError { word: 0xE000, pc: 0x200 })
    );
}

#[test]
fn fetch_past_memory_end_is_a_bounds_error() {
    // JUMP 0xFFE; the word there is zero (SYS), advancing the counter to
    // 0x1000, where the next fetch falls outside memory
    let mut m = Chip8::new();
    m.init();
    m.load_rom(Rom::new(vec![0x1F, 0xFE])).unwrap();
    m.run_cycle().unwrap();
    assert_eq!(m.pc(), 0xFFE);
    m.run_cycle().unwrap();
    assert_eq!(m.pc(), 0x1000);
    assert_eq!(
        m.run_cycle(),
        Err(Chip8Error::MemoryBoundsError { addr: 0x1000 })
    );
}

#[test]
fn bcd_past_memory_end_is_a_bounds_error() {
    // LOADI 0xFFF; BCD V0 needs bytes 0xFFF..=0x1001
    let mut m = Chip8::new();
    m.init();
    m.load_rom(Rom::new(vec![0xAF, 0xFF, 0xF0, 0x33])).unwrap();
    m.run_cycle().unwrap();
    assert_eq!(
        m.run_cycle(),
        Err(Chip8Error::MemoryBoundsError { addr: 0x1001 })
    );
}

#[test]
fn stor_past_memory_end_is_a_bounds_error() {
    // LOADI 0xFFF; STOR V1 writes 0xFFF and 0x1000
    let mut m = Chip8::new();
    m.init();
    m.load_rom(Rom::new(vec![0xAF, 0xFF, 0xF1, 0x55])).unwrap();
    m.run_cycle().unwrap();
    assert_eq!(
        m.run_cycle(),
        Err(Chip8Error::MemoryBoundsError { addr: 0x1000 })
    );
}

#[test]
fn bcd_writes_three_digits() {
    // LOAD V0, 234; LOADI 0x300; BCD V0
    let m = run_program(vec![0x60, 0xEA, 0xA3, 0x00, 0xF0, 0x33], 3);
    assert_eq!(m.mem_byte(0x300), 2);
    assert_eq!(m.mem_byte(0x301), 3);
    assert_eq!(m.mem_byte(0x302), 4);
}

#[test]
fn stor_and_read_are_inclusive_of_the_named_register() {
    // LOAD V0, 0x11; LOAD V1, 0x22; LOADI 0x300; STOR V1;
    // LOAD V0, 0; LOAD V1, 0; READ V1
    let m = run_program(
        vec![
            0x60, 0x11, 0x61, 0x22, 0xA3, 0x00, 0xF1, 0x55, 0x60, 0x00, 0x61, 0x00, 0xF1, 0x65,
        ],
        7,
    );
    assert_eq!(m.mem_byte(0x300), 0x11);
    assert_eq!(m.mem_byte(0x301), 0x22);
    assert_eq!(m.mem_byte(0x302), 0);
    assert_eq!(m.reg(0), 0x11);
    assert_eq!(m.reg(1), 0x22);
}

#[test]
fn index_register_ops() {
    // LOADI 0xFFE; LOAD V0, 5; ADDI V0 wraps to 12 bits
    let m = run_program(vec![0xAF, 0xFE, 0x60, 0x05, 0xF0, 0x1E], 3);
    assert_eq!(m.index_reg(), 0x003);
    // LOAD V0, 0x2A; LDSPR V0: glyph for the low nibble 0xA
    let m = run_program(vec![0x60, 0x2A, 0xF0, 0x29], 2);
    assert_eq!(m.index_reg(), 0x050 + 5 * 0xA);
}

#[test]
fn jump_indexed_adds_register_zero() {
    // LOAD V0, 4; JUMPI 0x300
    let m = run_program(vec![0x60, 0x04, 0xB3, 0x00], 2);
    assert_eq!(m.pc(), 0x304);
}

#[test]
fn timers_load_and_tick_to_zero() {
    // LOAD V0, 5; LOADD V0; LOADS V0
    let mut m = run_program(vec![0x60, 0x05, 0xF0, 0x15, 0xF0, 0x18], 3);
    assert_eq!(m.delay_timer(), 5);
    assert_eq!(m.sound_timer(), 5);
    for _ in 0..5 {
        m.tick_timers();
    }
    assert_eq!(m.delay_timer(), 0);
    assert_eq!(m.sound_timer(), 0);
    m.tick_timers();
    assert_eq!(m.delay_timer(), 0);
    assert_eq!(m.sound_timer(), 0);
}

#[test]
fn moved_reads_the_delay_timer() {
    // LOAD V0, 7; LOADD V0; MOVED V1
    let m = run_program(vec![0x60, 0x07, 0xF0, 0x15, 0xF1, 0x07], 3);
    assert_eq!(m.reg(1), 7);
}

#[test]
fn random_with_zero_mask_is_zero() {
    // RAND V0, 0 draws from [0, 0]
    let m = run_program(vec![0xC0, 0x00], 1);
    assert_eq!(m.reg(0), 0);
}

#[test]
fn random_stays_within_the_mask_range() {
    for _ in 0..20 {
        let m = run_program(vec![0xC0, 0x0F], 1);
        assert!(m.reg(0) <= 0x0F);
    }
}

#[test]
fn draw_plots_and_second_draw_erases_with_collision() {
    // LOADI 0x210; DRAW at (V0, V1) = (0, 0), one row; the row is 0xFF
    let mut program = vec![0xA2, 0x10, 0xD0, 0x11, 0xD0, 0x11];
    program.resize(0x10, 0);
    program.push(0xFF);
    let mut m = Chip8::new();
    m.init();
    m.load_rom(Rom::new(program)).unwrap();
    m.run_cycle().unwrap();
    m.run_cycle().unwrap();
    assert!(m.redraw_pending());
    for x in 0..8 {
        assert!(m.screen_buffer().get_pixel(x, 0));
    }
    assert!(!m.screen_buffer().get_pixel(8, 0));
    assert_eq!(m.reg(0xF), 0);
    m.clear_redraw();
    m.run_cycle().unwrap();
    for x in 0..8 {
        assert!(!m.screen_buffer().get_pixel(x, 0));
    }
    assert_eq!(m.reg(0xF), 1);
    assert!(m.redraw_pending());
}

#[test]
fn draw_wraps_per_axis() {
    // LOAD V0, 62; LOAD V1, 31; LOADI 0x210; DRAW 1 row of 0xC0
    let mut program = vec![0x60, 0x3E, 0x61, 0x1F, 0xA2, 0x10, 0xD0, 0x11];
    program.resize(0x10, 0);
    program.push(0xC0);
    let mut m = Chip8::new();
    m.init();
    m.load_rom(Rom::new(program)).unwrap();
    for _ in 0..4 {
        m.run_cycle().unwrap();
    }
    assert!(m.screen_buffer().get_pixel(62, 31));
    assert!(m.screen_buffer().get_pixel(63, 31));
    assert!(!m.screen_buffer().get_pixel(0, 31));
}

#[test]
fn clear_instruction_empties_screen_and_marks_redraw() {
    // LOADI 0x210; DRAW; CLR; the row is 0xFF
    let mut program = vec![0xA2, 0x10, 0xD0, 0x11, 0x00, 0xE0];
    program.resize(0x10, 0);
    program.push(0xFF);
    let mut m = Chip8::new();
    m.init();
    m.load_rom(Rom::new(program)).unwrap();
    for _ in 0..3 {
        m.run_cycle().unwrap();
    }
    for x in 0..64 {
        for y in 0..32 {
            assert!(!m.screen_buffer().get_pixel(x, y));
        }
    }
    assert!(m.redraw_pending());
}

#[test]
fn skip_if_key_held() {
    // LOAD V0, 3; SKP V0
    let mut m = Chip8::new();
    m.init();
    m.load_rom(Rom::new(vec![0x60, 0x03, 0xE0, 0x9E])).unwrap();
    m.set_key(3);
    m.run_cycle().unwrap();
    m.run_cycle().unwrap();
    assert_eq!(m.pc(), 0x206);
    // and without the key the skip is not taken
    let mut m = Chip8::new();
    m.init();
    m.load_rom(Rom::new(vec![0x60, 0x03, 0xE0, 0x9E])).unwrap();
    m.run_cycle().unwrap();
    m.run_cycle().unwrap();
    assert_eq!(m.pc(), 0x204);
}

#[test]
fn skip_if_key_not_held() {
    let mut m = Chip8::new();
    m.init();
    m.load_rom(Rom::new(vec![0x60, 0x03, 0xE0, 0xA1])).unwrap();
    m.run_cycle().unwrap();
    m.run_cycle().unwrap();
    assert_eq!(m.pc(), 0x206);
}

#[test]
fn key_wait_suspends_until_key_is_held() {
    // LOAD V1, 5; KEYD V1; LOAD V0, 9
    let mut m = Chip8::new();
    m.init();
    m.load_rom(Rom::new(vec![0x61, 0x05, 0xF1, 0x0A, 0x60, 0x09])).unwrap();
    m.run_cycle().unwrap();
    m.run_cycle().unwrap();
    assert!(m.is_awaiting_key());
    let pc = m.pc();
    m.run_cycle().unwrap();
    m.run_cycle().unwrap();
    assert!(m.is_awaiting_key());
    assert_eq!(m.pc(), pc);
    assert_eq!(m.reg(0), 0);
    m.set_key(5);
    m.run_cycle().unwrap();
    assert!(!m.is_awaiting_key());
    assert_eq!(m.pc(), pc);
    m.run_cycle().unwrap();
    assert_eq!(m.reg(0), 9);
}

#[test]
fn syscall_is_a_no_op() {
    let m = run_program(vec![0x03, 0x21], 1);
    assert_eq!(m.pc(), 0x202);
    assert_eq!(m.reg(0), 0);
}
