use chip8::opcode::{decode, get_n2, get_n3, get_n34, get_n234, get_n4, OpCode};

#[test]
fn decode_clear_return_syscall() {
    assert_eq!(decode(0x00E0), Some(OpCode::CLR));
    assert_eq!(decode(0x00EE), Some(OpCode::RET));
    assert_eq!(decode(0x0123), Some(OpCode::SYS { addr: 0x123 }));
    assert_eq!(decode(0x0000), Some(OpCode::SYS { addr: 0x000 }));
}

#[test]
fn decode_jump_call() {
    assert_eq!(decode(0x1ABC), Some(OpCode::JUMP { addr: 0xABC }));
    assert_eq!(decode(0x2DEF), Some(OpCode::CALL { addr: 0xDEF }));
}

#[test]
fn decode_immediate_skips_and_loads() {
    assert_eq!(decode(0x3456), Some(OpCode::SKE { s: 0x4, nn: 0x56 }));
    assert_eq!(decode(0x4456), Some(OpCode::SKNE { s: 0x4, nn: 0x56 }));
    assert_eq!(decode(0x5AB0), Some(OpCode::SKRE { s: 0xA, t: 0xB }));
    assert_eq!(decode(0x6A07), Some(OpCode::LOAD { s: 0xA, nn: 0x07 }));
    assert_eq!(decode(0x7456), Some(OpCode::ADD { s: 0x4, nn: 0x56 }));
    assert_eq!(decode(0x9AB0), Some(OpCode::SKRNE { s: 0xA, t: 0xB }));
}

#[test]
fn decode_arithmetic_family() {
    assert_eq!(decode(0x8AB0), Some(OpCode::MOVE { s: 0xA, t: 0xB }));
    assert_eq!(decode(0x8AB1), Some(OpCode::OR { s: 0xA, t: 0xB }));
    assert_eq!(decode(0x8AB2), Some(OpCode::AND { s: 0xA, t: 0xB }));
    assert_eq!(decode(0x8AB3), Some(OpCode::XOR { s: 0xA, t: 0xB }));
    assert_eq!(decode(0x8AB4), Some(OpCode::ADDR { s: 0xA, t: 0xB }));
    assert_eq!(decode(0x8AB5), Some(OpCode::SUB { s: 0xA, t: 0xB }));
    assert_eq!(decode(0x8AB6), Some(OpCode::SHR { s: 0xA }));
    assert_eq!(decode(0x8AB7), Some(OpCode::SHL { s: 0xA }));
    assert_eq!(decode(0x8AB8), None);
    assert_eq!(decode(0x8ABF), None);
}

#[test]
fn decode_index_and_draw() {
    assert_eq!(decode(0xAABC), Some(OpCode::LOADI { addr: 0xABC }));
    assert_eq!(decode(0xBABC), Some(OpCode::JUMPI { addr: 0xABC }));
    assert_eq!(decode(0xC344), Some(OpCode::RAND { t: 0x3, nn: 0x44 }));
    assert_eq!(decode(0xD125), Some(OpCode::DRAW { s: 0x1, t: 0x2, n: 0x5 }));
}

#[test]
fn decode_key_family() {
    assert_eq!(decode(0xE19E), Some(OpCode::SKP { s: 0x1 }));
    assert_eq!(decode(0xE2A1), Some(OpCode::SKNP { s: 0x2 }));
    assert_eq!(decode(0xE000), None);
    assert_eq!(decode(0xE19F), None);
}

#[test]
fn decode_timer_family() {
    assert_eq!(decode(0xF107), Some(OpCode::MOVED { t: 0x1 }));
    assert_eq!(decode(0xF20A), Some(OpCode::KEYD { t: 0x2 }));
    assert_eq!(decode(0xF315), Some(OpCode::LOADD { s: 0x3 }));
    assert_eq!(decode(0xF418), Some(OpCode::LOADS { s: 0x4 }));
    assert_eq!(decode(0xF51E), Some(OpCode::ADDI { s: 0x5 }));
    assert_eq!(decode(0xF629), Some(OpCode::LDSPR { s: 0x6 }));
    assert_eq!(decode(0xF733), Some(OpCode::BCD { s: 0x7 }));
    assert_eq!(decode(0xF855), Some(OpCode::STOR { s: 0x8 }));
    assert_eq!(decode(0xF965), Some(OpCode::READ { s: 0x9 }));
    assert_eq!(decode(0xF0FF), None);
    assert_eq!(decode(0xF000), None);
}

#[test]
fn nibble_helpers() {
    assert_eq!(get_n2(0x1234), 0x2);
    assert_eq!(get_n3(0x1234), 0x3);
    assert_eq!(get_n4(0x1234), 0x4);
    assert_eq!(get_n34(0x1234), 0x34);
    assert_eq!(get_n234(0x1234), 0x234);
}
