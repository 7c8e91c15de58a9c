//! The opcode decoder: a pure total function from a 16-bit instruction word
//! to a tagged instruction, keyed by the high nibble with nested dispatches
//! on the low nibble (arithmetic family), the low byte (key and timer
//! families) and the low 12 bits (clear/return/syscall family). A word that
//! matches no pattern decodes to `None`.

use vstd::prelude::*;

verus! {

/// The instruction vocabulary, one variant per opcode. Operand fields are
/// extracted by fixed nibble masks: register indices are 4-bit nibbles,
/// immediates the low byte, addresses the low 12 bits.
#[derive(Clone, Copy, Debug, PartialEq, Eq, Structural)]
pub enum OpCode {
    /// 0nnn: system call, a logged no-op.
    SYS { addr: u16 },
    /// 00E0: clear the screen.
    CLR,
    /// 00EE: return from subroutine.
    RET,
    /// 1nnn: jump to address nnn.
    JUMP { addr: u16 },
    /// 2nnn: call routine at address nnn.
    CALL { addr: u16 },
    /// 3snn: skip next instruction if register s equals nn.
    SKE { s: u8, nn: u8 },
    /// 4snn: skip next instruction if register s does not equal nn.
    SKNE { s: u8, nn: u8 },
    /// 5st0: skip next instruction if register s equals register t.
    SKRE { s: u8, t: u8 },
    /// 6snn: load register s with value nn.
    LOAD { s: u8, nn: u8 },
    /// 7snn: add value nn to register s, wrapping, flag untouched.
    ADD { s: u8, nn: u8 },
    /// 8st0: copy register t into register s.
    MOVE { s: u8, t: u8 },
    /// 8st1: bitwise OR of registers s and t, stored in s.
    OR { s: u8, t: u8 },
    /// 8st2: bitwise AND of registers s and t, stored in s.
    AND { s: u8, t: u8 },
    /// 8st3: bitwise XOR of registers s and t, stored in s.
    XOR { s: u8, t: u8 },
    /// 8st4: add register t to register s; flag register set on carry.
    ADDR { s: u8, t: u8 },
    /// 8st5: subtract register t from register s; flag set when no borrow.
    SUB { s: u8, t: u8 },
    /// 8st6: shift register s right one bit; flag takes the old bit 0.
    SHR { s: u8 },
    /// 8st7: shift register s left one bit; flag takes the old bit 7.
    SHL { s: u8 },
    /// 9st0: skip next instruction if register s does not equal register t.
    SKRNE { s: u8, t: u8 },
    /// Annn: load the index register with nnn.
    LOADI { addr: u16 },
    /// Bnnn: jump to address nnn plus register 0.
    JUMPI { addr: u16 },
    /// Ctnn: draw a random byte in [0, nn] and store it in register t.
    RAND { t: u8, nn: u8 },
    /// Dstn: draw an n-row sprite at coordinates taken from registers s, t.
    DRAW { s: u8, t: u8, n: u8 },
    /// Es9E: skip next instruction if the key named by register s is held.
    SKP { s: u8 },
    /// EsA1: skip next instruction if the key named by register s is not held.
    SKNP { s: u8 },
    /// Ft07: move the delay timer value into register t.
    MOVED { t: u8 },
    /// Ft0A: suspend until the key named by register t is held.
    KEYD { t: u8 },
    /// Fs15: load the delay timer from register s.
    LOADD { s: u8 },
    /// Fs18: load the sound timer from register s.
    LOADS { s: u8 },
    /// Fs1E: add register s to the index register, masked to 12 bits.
    ADDI { s: u8 },
    /// Fs29: point the index register at the glyph for register s's low nibble.
    LDSPR { s: u8 },
    /// Fs33: store the three decimal digits of register s at the index.
    BCD { s: u8 },
    /// Fs55: store registers 0 through s to memory at the index.
    STOR { s: u8 },
    /// Fs65: load registers 0 through s from memory at the index.
    READ { s: u8 },
}

/// Second nibble of the word: the first register operand.
pub open spec fn spec_n2(val: u16) -> u8 {
    ((val >> 8) & 0xF) as u8
}

/// Third nibble of the word: the second register operand.
pub open spec fn spec_n3(val: u16) -> u8 {
    ((val >> 4) & 0xF) as u8
}

/// Fourth nibble of the word.
pub open spec fn spec_n4(val: u16) -> u8 {
    (val & 0xF) as u8
}

/// Low byte of the word: the immediate operand.
pub open spec fn spec_n34(val: u16) -> u8 {
    (val & 0xFF) as u8
}

/// Low 12 bits of the word: the address operand.
pub open spec fn spec_n234(val: u16) -> u16 {
    val & 0xFFF
}

/// The decode table. `None` is a decode failure: the word matches no
/// pattern of the instruction set.
pub open spec fn spec_decode(val: u16) -> Option<OpCode> {
    let n1 = val >> 12;
    if n1 == 0x0 {
        if spec_n234(val) == 0x0E0 {
            Some(OpCode::CLR)
        } else if spec_n234(val) == 0x0EE {
            Some(OpCode::RET)
        } else {
            Some(OpCode::SYS { addr: spec_n234(val) })
        }
    } else if n1 == 0x1 {
        Some(OpCode::JUMP { addr: spec_n234(val) })
    } else if n1 == 0x2 {
        Some(OpCode::CALL { addr: spec_n234(val) })
    } else if n1 == 0x3 {
        Some(OpCode::SKE { s: spec_n2(val), nn: spec_n34(val) })
    } else if n1 == 0x4 {
        Some(OpCode::SKNE { s: spec_n2(val), nn: spec_n34(val) })
    } else if n1 == 0x5 {
        Some(OpCode::SKRE { s: spec_n2(val), t: spec_n3(val) })
    } else if n1 == 0x6 {
        Some(OpCode::LOAD { s: spec_n2(val), nn: spec_n34(val) })
    } else if n1 == 0x7 {
        Some(OpCode::ADD { s: spec_n2(val), nn: spec_n34(val) })
    } else if n1 == 0x8 {
        let n4 = spec_n4(val);
        if n4 == 0x0 {
            Some(OpCode::MOVE { s: spec_n2(val), t: spec_n3(val) })
        } else if n4 == 0x1 {
            Some(OpCode::OR { s: spec_n2(val), t: spec_n3(val) })
        } else if n4 == 0x2 {
            Some(OpCode::AND { s: spec_n2(val), t: spec_n3(val) })
        } else if n4 == 0x3 {
            Some(OpCode::XOR { s: spec_n2(val), t: spec_n3(val) })
        } else if n4 == 0x4 {
            Some(OpCode::ADDR { s: spec_n2(val), t: spec_n3(val) })
        } else if n4 == 0x5 {
            Some(OpCode::SUB { s: spec_n2(val), t: spec_n3(val) })
        } else if n4 == 0x6 {
            Some(OpCode::SHR { s: spec_n2(val) })
        } else if n4 == 0x7 {
            Some(OpCode::SHL { s: spec_n2(val) })
        } else {
            None
        }
    } else if n1 == 0x9 {
        Some(OpCode::SKRNE { s: spec_n2(val), t: spec_n3(val) })
    } else if n1 == 0xA {
        Some(OpCode::LOADI { addr: spec_n234(val) })
    } else if n1 == 0xB {
        Some(OpCode::JUMPI { addr: spec_n234(val) })
    } else if n1 == 0xC {
        Some(OpCode::RAND { t: spec_n2(val), nn: spec_n34(val) })
    } else if n1 == 0xD {
        Some(OpCode::DRAW { s: spec_n2(val), t: spec_n3(val), n: spec_n4(val) })
    } else if n1 == 0xE {
        let n34 = spec_n34(val);
        if n34 == 0x9E {
            Some(OpCode::SKP { s: spec_n2(val) })
        } else if n34 == 0xA1 {
            Some(OpCode::SKNP { s: spec_n2(val) })
        } else {
            None
        }
    } else {
        let n34 = spec_n34(val);
        if n34 == 0x07 {
            Some(OpCode::MOVED { t: spec_n2(val) })
        } else if n34 == 0x0A {
            Some(OpCode::KEYD { t: spec_n2(val) })
        } else if n34 == 0x15 {
            Some(OpCode::LOADD { s: spec_n2(val) })
        } else if n34 == 0x18 {
            Some(OpCode::LOADS { s: spec_n2(val) })
        } else if n34 == 0x1E {
            Some(OpCode::ADDI { s: spec_n2(val) })
        } else if n34 == 0x29 {
            Some(OpCode::LDSPR { s: spec_n2(val) })
        } else if n34 == 0x33 {
            Some(OpCode::BCD { s: spec_n2(val) })
        } else if n34 == 0x55 {
            Some(OpCode::STOR { s: spec_n2(val) })
        } else if n34 == 0x65 {
            Some(OpCode::READ { s: spec_n2(val) })
        } else {
            None
        }
    }
}

/// Every operand field a decoded instruction can carry is in range:
/// register indices and the sprite height below 16, addresses below 4096.
pub open spec fn op_wf(op: OpCode) -> bool {
    match op {
        OpCode::SYS { addr } => addr < 4096,
        OpCode::CLR => true,
        OpCode::RET => true,
        OpCode::JUMP { addr } => addr < 4096,
        OpCode::CALL { addr } => addr < 4096,
        OpCode::SKE { s, nn } => s < 16,
        OpCode::SKNE { s, nn } => s < 16,
        OpCode::SKRE { s, t } => s < 16 && t < 16,
        OpCode::LOAD { s, nn } => s < 16,
        OpCode::ADD { s, nn } => s < 16,
        OpCode::MOVE { s, t } => s < 16 && t < 16,
        OpCode::OR { s, t } => s < 16 && t < 16,
        OpCode::AND { s, t } => s < 16 && t < 16,
        OpCode::XOR { s, t } => s < 16 && t < 16,
        OpCode::ADDR { s, t } => s < 16 && t < 16,
        OpCode::SUB { s, t } => s < 16 && t < 16,
        OpCode::SHR { s } => s < 16,
        OpCode::SHL { s } => s < 16,
        OpCode::SKRNE { s, t } => s < 16 && t < 16,
        OpCode::LOADI { addr } => addr < 4096,
        OpCode::JUMPI { addr } => addr < 4096,
        OpCode::RAND { t, nn } => t < 16,
        OpCode::DRAW { s, t, n } => s < 16 && t < 16 && n < 16,
        OpCode::SKP { s } => s < 16,
        OpCode::SKNP { s } => s < 16,
        OpCode::MOVED { t } => t < 16,
        OpCode::KEYD { t } => t < 16,
        OpCode::LOADD { s } => s < 16,
        OpCode::LOADS { s } => s < 16,
        OpCode::ADDI { s } => s < 16,
        OpCode::LDSPR { s } => s < 16,
        OpCode::BCD { s } => s < 16,
        OpCode::STOR { s } => s < 16,
        OpCode::READ { s } => s < 16,
    }
}

/// Second nibble: the first register operand, always below 16.
pub fn get_n2(opcode: u16) -> (r: u8)
    ensures
        r == spec_n2(opcode),
        r < 16,
{
    proof {
        assert((((opcode >> 8) & 0xF) as u8) < 16) by (bit_vector);
    }
    ((opcode >> 8) & 0xF) as u8
}

/// Third nibble: the second register operand, always below 16.
pub fn get_n3(opcode: u16) -> (r: u8)
    ensures
        r == spec_n3(opcode),
        r < 16,
{
    proof {
        assert((((opcode >> 4) & 0xF) as u8) < 16) by (bit_vector);
    }
    ((opcode >> 4) & 0xF) as u8
}

/// Fourth nibble, always below 16.
pub fn get_n4(opcode: u16) -> (r: u8)
    ensures
        r == spec_n4(opcode),
        r < 16,
{
    proof {
        assert(((opcode & 0xF) as u8) < 16) by (bit_vector);
    }
    (opcode & 0xF) as u8
}

/// Low byte: the immediate operand.
pub fn get_n34(opcode: u16) -> (r: u8)
    ensures
        r == spec_n34(opcode),
{
    (opcode & 0xFF) as u8
}

/// Low 12 bits: the address operand, always below 4096.
pub fn get_n234(opcode: u16) -> (r: u16)
    ensures
        r == spec_n234(opcode),
        r < 4096,
{
    proof {
        assert((opcode & 0xFFF) < 4096) by (bit_vector);
    }
    opcode & 0xFFF
}

/// Decode one instruction word against the table; `None` is a decode
/// failure. Every operand field of a successful decode is in range.
pub fn decode(val: u16) -> (r: Option<OpCode>)
    ensures
        r == spec_decode(val),
        r matches Some(op) ==> op_wf(op),
{
    proof {
        assert((val >> 12) < 16) by (bit_vector);
    }
    let n1: u16 = val >> 12;
    match n1 {
        0x0 => {
            let n234 = get_n234(val);
            if n234 == 0x0E0 {
                Some(OpCode::CLR)
            } else if n234 == 0x0EE {
                Some(OpCode::RET)
            } else {
                Some(OpCode::SYS { addr: n234 })
            }
        },
        0x1 => Some(OpCode::JUMP { addr: get_n234(val) }),
        0x2 => Some(OpCode::CALL { addr: get_n234(val) }),
        0x3 => Some(OpCode::SKE { s: get_n2(val), nn: get_n34(val) }),
        0x4 => Some(OpCode::SKNE { s: get_n2(val), nn: get_n34(val) }),
        0x5 => Some(OpCode::SKRE { s: get_n2(val), t: get_n3(val) }),
        0x6 => Some(OpCode::LOAD { s: get_n2(val), nn: get_n34(val) }),
        0x7 => Some(OpCode::ADD { s: get_n2(val), nn: get_n34(val) }),
        0x8 => {
            let s = get_n2(val);
            let t = get_n3(val);
            match get_n4(val) {
                0x0 => Some(OpCode::MOVE { s, t }),
                0x1 => Some(OpCode::OR { s, t }),
                0x2 => Some(OpCode::AND { s, t }),
                0x3 => Some(OpCode::XOR { s, t }),
                0x4 => Some(OpCode::ADDR { s, t }),
                0x5 => Some(OpCode::SUB { s, t }),
                0x6 => Some(OpCode::SHR { s }),
                0x7 => Some(OpCode::SHL { s }),
                _ => None,
            }
        },
        0x9 => Some(OpCode::SKRNE { s: get_n2(val), t: get_n3(val) }),
        0xA => Some(OpCode::LOADI { addr: get_n234(val) }),
        0xB => Some(OpCode::JUMPI { addr: get_n234(val) }),
        0xC => Some(OpCode::RAND { t: get_n2(val), nn: get_n34(val) }),
        0xD => Some(OpCode::DRAW { s: get_n2(val), t: get_n3(val), n: get_n4(val) }),
        0xE => {
            match get_n34(val) {
                0x9E => Some(OpCode::SKP { s: get_n2(val) }),
                0xA1 => Some(OpCode::SKNP { s: get_n2(val) }),
                _ => None,
            }
        },
        _ => {
            match get_n34(val) {
                0x07 => Some(OpCode::MOVED { t: get_n2(val) }),
                0x0A => Some(OpCode::KEYD { t: get_n2(val) }),
                0x15 => Some(OpCode::LOADD { s: get_n2(val) }),
                0x18 => Some(OpCode::LOADS { s: get_n2(val) }),
                0x1E => Some(OpCode::ADDI { s: get_n2(val) }),
                0x29 => Some(OpCode::LDSPR { s: get_n2(val) }),
                0x33 => Some(OpCode::BCD { s: get_n2(val) }),
                0x55 => Some(OpCode::STOR { s: get_n2(val) }),
                0x65 => Some(OpCode::READ { s: get_n2(val) }),
                _ => None,
            }
        },
    }
}

} // verus!
