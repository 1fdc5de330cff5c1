//! The CHIP-8 instruction set and its decoder.
use vstd::prelude::*;

verus! {

/// One decoded instruction. Register operands are indices into the register
/// file, `addr` a 12-bit address, `value` an 8-bit immediate and `size` the
/// number of sprite rows.
#[derive(Debug, Clone, Copy, PartialEq, Eq, Structural)]
pub enum Op {
    CLS,
    RET,
    JP { addr: u16 },
    CALL { addr: u16 },
    SEI { reg: u8, value: u8 },
    SNEI { reg: u8, value: u8 },
    SE { reg1: u8, reg2: u8 },
    LDI { reg: u8, value: u8 },
    ADDI { reg: u8, value: u8 },
    LD { reg1: u8, reg2: u8 },
    OR { reg1: u8, reg2: u8 },
    AND { reg1: u8, reg2: u8 },
    XOR { reg1: u8, reg2: u8 },
    ADD { reg1: u8, reg2: u8 },
    SUB { reg1: u8, reg2: u8 },
    SHR { reg1: u8, reg2: u8 },
    SUBN { reg1: u8, reg2: u8 },
    SHL { reg1: u8, reg2: u8 },
    SNE { reg1: u8, reg2: u8 },
    LDIX { addr: u16 },
    JPA { addr: u16 },
    RND { reg: u8, value: u8 },
    DRW { reg1: u8, reg2: u8, size: u8 },
    SKP { reg: u8 },
    SKNP { reg: u8 },
    LDRD { reg: u8 },
    LDK { reg: u8 },
    LDDR { reg: u8 },
    LDST { reg: u8 },
    ADIX { reg: u8 },
    LDF { reg: u8 },
    LDB { reg: u8 },
    LDXR { reg: u8 },
    LDRX { reg: u8 },
    DATA { data: u16 },
}

/// Bits 12..16 of an instruction word: the instruction family.
pub open spec fn family(code: u16) -> int {
    code as int / 0x1000
}

/// Bits 8..12: the first register operand.
pub open spec fn field_x(code: u16) -> u8 {
    ((code as int / 0x100) % 16) as u8
}

/// Bits 4..8: the second register operand.
pub open spec fn field_y(code: u16) -> u8 {
    ((code as int / 0x10) % 16) as u8
}

/// Bits 0..4: the low nibble.
pub open spec fn field_n(code: u16) -> u8 {
    (code as int % 16) as u8
}

/// Bits 0..8: the low byte.
pub open spec fn field_kk(code: u16) -> u8 {
    (code as int % 0x100) as u8
}

/// Bits 0..12: the address operand.
pub open spec fn field_nnn(code: u16) -> u16 {
    (code as int % 0x1000) as u16
}

/// The instruction that `code` encodes; words that encode none decode to `DATA`.
pub open spec fn decode(code: u16) -> Op {
    let f = family(code);
    let x = field_x(code);
    let y = field_y(code);
    let n = field_n(code);
    let kk = field_kk(code);
    let nnn = field_nnn(code);
    let data = Op::DATA { data: code };
    if code == 0x00E0 {
        Op::CLS
    } else if code == 0x00EE {
        Op::RET
    } else if f == 0x1 {
        Op::JP { addr: nnn }
    } else if f == 0x2 {
        Op::CALL { addr: nnn }
    } else if f == 0x3 {
        Op::SEI { reg: x, value: kk }
    } else if f == 0x4 {
        Op::SNEI { reg: x, value: kk }
    } else if f == 0x5 {
        if n == 0 { Op::SE { reg1: x, reg2: y } } else { data }
    } else if f == 0x6 {
        Op::LDI { reg: x, value: kk }
    } else if f == 0x7 {
        Op::ADDI { reg: x, value: kk }
    } else if f == 0x8 {
        if n == 0x0 {
            Op::LD { reg1: x, reg2: y }
        } else if n == 0x1 {
            Op::OR { reg1: x, reg2: y }
        } else if n == 0x2 {
            Op::AND { reg1: x, reg2: y }
        } else if n == 0x3 {
            Op::XOR { reg1: x, reg2: y }
        } else if n == 0x4 {
            Op::ADD { reg1: x, reg2: y }
        } else if n == 0x5 {
            Op::SUB { reg1: x, reg2: y }
        } else if n == 0x6 {
            Op::SHR { reg1: x, reg2: y }
        } else if n == 0x7 {
            Op::SUBN { reg1: x, reg2: y }
        } else if n == 0xE {
            Op::SHL { reg1: x, reg2: y }
        } else {
            data
        }
    } else if f == 0x9 {
        if n == 0 { Op::SNE { reg1: x, reg2: y } } else { data }
    } else if f == 0xA {
        Op::LDIX { addr: nnn }
    } else if f == 0xB {
        Op::JPA { addr: nnn }
    } else if f == 0xC {
        Op::RND { reg: x, value: kk }
    } else if f == 0xD {
        Op::DRW { reg1: x, reg2: y, size: n }
    } else if f == 0xE {
        if kk == 0x9E {
            Op::SKP { reg: x }
        } else if kk == 0xA1 {
            Op::SKNP { reg: x }
        } else {
            data
        }
    } else if f == 0xF {
        if kk == 0x07 {
            Op::LDRD { reg: x }
        } else if kk == 0x0A {
            Op::LDK { reg: x }
        } else if kk == 0x15 {
            Op::LDDR { reg: x }
        } else if kk == 0x18 {
            Op::LDST { reg: x }
        } else if kk == 0x1E {
            Op::ADIX { reg: x }
        } else if kk == 0x29 {
            Op::LDF { reg: x }
        } else if kk == 0x33 {
            Op::LDB { reg: x }
        } else if kk == 0x55 {
            Op::LDXR { reg: x }
        } else if kk == 0x65 {
            Op::LDRX { reg: x }
        } else {
            data
        }
    } else {
        data
    }
}

impl Op {
    /// Every operand is within the width of its field: registers and sprite
    /// heights below 16, addresses below 0x1000.
    pub open spec fn well_formed(self) -> bool {
        match self {
            Op::JP { addr } | Op::CALL { addr } | Op::LDIX { addr } | Op::JPA { addr } => addr
                < 0x1000,
            Op::SEI { reg, .. } | Op::SNEI { reg, .. } | Op::LDI { reg, .. } | Op::ADDI {
                reg,
                ..
            } | Op::RND { reg, .. } => reg < 16,
            Op::SE { reg1, reg2 } | Op::LD { reg1, reg2 } | Op::OR { reg1, reg2 } | Op::AND {
                reg1,
                reg2,
            } | Op::XOR { reg1, reg2 } | Op::ADD { reg1, reg2 } | Op::SUB { reg1, reg2 }
            | Op::SHR { reg1, reg2 } | Op::SUBN { reg1, reg2 } | Op::SHL { reg1, reg2 }
            | Op::SNE { reg1, reg2 } => reg1 < 16 && reg2 < 16,
            Op::DRW { reg1, reg2, size } => reg1 < 16 && reg2 < 16 && size < 16,
            Op::SKP { reg } | Op::SKNP { reg } | Op::LDRD { reg } | Op::LDK { reg } | Op::LDDR {
                reg,
            } | Op::LDST { reg } | Op::ADIX { reg } | Op::LDF { reg } | Op::LDB { reg }
            | Op::LDXR { reg } | Op::LDRX { reg } => reg < 16,
            Op::CLS | Op::RET | Op::DATA { .. } => true,
        }
    }

    /// Decodes one instruction word. Total: a word that encodes no
    /// instruction comes back as `DATA` holding the word.
    pub fn from_raw(code: u16) -> (r: Self)
        ensures
            r == decode(code),
            r.well_formed(),
    {
        let x = reg_x(code);
        let y = reg_y(code);
        let n = low_nibble(code);
        let kk = low_byte(code);
        let nnn = address(code);
        let data = Op::DATA { data: code };
        assert((code >> 12) as int == code as int / 0x1000) by (bit_vector);
        match code {
            0x00E0 => Op::CLS,
            0x00EE => Op::RET,
            _ => match code >> 12 {
                0x1 => Op::JP { addr: nnn },
                0x2 => Op::CALL { addr: nnn },
                0x3 => Op::SEI { reg: x, value: kk },
                0x4 => Op::SNEI { reg: x, value: kk },
                0x5 => match n {
                    0x0 => Op::SE { reg1: x, reg2: y },
                    _ => data,
                },
                0x6 => Op::LDI { reg: x, value: kk },
                0x7 => Op::ADDI { reg: x, value: kk },
                0x8 => match n {
                    0x0 => Op::LD { reg1: x, reg2: y },
                    0x1 => Op::OR { reg1: x, reg2: y },
                    0x2 => Op::AND { reg1: x, reg2: y },
                    0x3 => Op::XOR { reg1: x, reg2: y },
                    0x4 => Op::ADD { reg1: x, reg2: y },
                    0x5 => Op::SUB { reg1: x, reg2: y },
                    0x6 => Op::SHR { reg1: x, reg2: y },
                    0x7 => Op::SUBN { reg1: x, reg2: y },
                    0xE => Op::SHL { reg1: x, reg2: y },
                    _ => data,
                },
                0x9 => match n {
                    0x0 => Op::SNE { reg1: x, reg2: y },
                    _ => data,
                },
                0xA => Op::LDIX { addr: nnn },
                0xB => Op::JPA { addr: nnn },
                0xC => Op::RND { reg: x, value: kk },
                0xD => Op::DRW { reg1: x, reg2: y, size: n },
                0xE => match kk {
                    0x9E => Op::SKP { reg: x },
                    0xA1 => Op::SKNP { reg: x },
                    _ => data,
                },
                0xF => match kk {
                    0x07 => Op::LDRD { reg: x },
                    0x0A => Op::LDK { reg: x },
                    0x15 => Op::LDDR { reg: x },
                    0x18 => Op::LDST { reg: x },
                    0x1E => Op::ADIX { reg: x },
                    0x29 => Op::LDF { reg: x },
                    0x33 => Op::LDB { reg: x },
                    0x55 => Op::LDXR { reg: x },
                    0x65 => Op::LDRX { reg: x },
                    _ => data,
                },
                _ => data,
            },
        }
    }
}

fn reg_x(code: u16) -> (r: u8)
    ensures
        r == field_x(code),
        r < 16,
{
    assert(((code & 0x0F00) >> 8) as int == (code as int / 0x100) % 16) by (bit_vector);
    ((code & 0x0F00) >> 8) as u8
}

fn reg_y(code: u16) -> (r: u8)
    ensures
        r == field_y(code),
        r < 16,
{
    assert(((code & 0x00F0) >> 4) as int == (code as int / 0x10) % 16) by (bit_vector);
    ((code & 0x00F0) >> 4) as u8
}

fn low_nibble(code: u16) -> (r: u8)
    ensures
        r == field_n(code),
        r < 16,
{
    assert((code & 0x000F) as int == code as int % 16) by (bit_vector);
    (code & 0x000F) as u8
}

fn low_byte(code: u16) -> (r: u8)
    ensures
        r == field_kk(code),
{
    assert((code & 0x00FF) as int == code as int % 0x100) by (bit_vector);
    (code & 0x00FF) as u8
}

fn address(code: u16) -> (r: u16)
    ensures
        r == field_nnn(code),
        r < 0x1000,
{
    assert((code & 0x0FFF) as int == code as int % 0x1000) by (bit_vector);
    code & 0x0FFF
}

/// A word of the jump, call, load-index or jump-with-offset family decodes
/// to an instruction whose address is the word's low 12 bits; the family
/// nibble put back in front of that address gives the word again.
pub proof fn lemma_address_round_trip(code: u16)
    requires
        family(code) == 0x1 || family(code) == 0x2 || family(code) == 0xA || family(code) == 0xB,
    ensures
        match decode(code) {
            Op::JP { addr } | Op::CALL { addr } | Op::LDIX { addr } | Op::JPA { addr } => {
                &&& addr == code % 0x1000
                &&& family(code) * 0x1000 + addr == code
            },
            _ => false,
        },
{
}

} // verus!
