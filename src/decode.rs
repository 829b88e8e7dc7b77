//! Splitting a 16-bit instruction word into its operand fields, and mapping
//! it to the opcode that the machine executes.
use vstd::prelude::*;

verus! {

/// The twelve low bits: a memory address.
pub open spec fn address_of(word: u16) -> int {
    word as int % 4096
}

/// The eight low bits: an immediate byte.
pub open spec fn immediate_of(word: u16) -> int {
    word as int % 256
}

/// Bits 8 to 11: the first register operand.
pub open spec fn reg_x_of(word: u16) -> int {
    (word as int / 256) % 16
}

/// Bits 4 to 7: the second register operand.
pub open spec fn reg_y_of(word: u16) -> int {
    (word as int / 16) % 16
}

/// Bits 0 to 3: the sub-operation (a sprite's height, for a draw).
pub open spec fn subop_of(word: u16) -> int {
    word as int % 16
}

/// Bits 12 to 15: the opcode family.
pub open spec fn family_of(word: u16) -> int {
    word as int / 4096
}

/// The operand fields of one instruction word.
#[derive(Clone, Copy, Debug, PartialEq, Eq, Structural)]
pub struct Fields {
    pub address: u16,
    pub immediate: u8,
    pub reg_x: u8,
    pub reg_y: u8,
    pub subop: u8,
}

/// Extracts every operand field of `word`; any word decodes.
pub fn fields(word: u16) -> (f: Fields)
    ensures
        f.address == address_of(word),
        f.immediate == immediate_of(word),
        f.reg_x == reg_x_of(word),
        f.reg_y == reg_y_of(word),
        f.subop == subop_of(word),
{
    let address = word & 0x0FFF;
    let immediate = word & 0x00FF;
    let reg_x = (word >> 8u16) & 0x000F;
    let reg_y = (word >> 4u16) & 0x000F;
    let subop = word & 0x000F;
    proof {
        assert(word & 0x0FFF == word % 4096) by (bit_vector);
        assert(word & 0x00FF == word % 256) by (bit_vector);
        assert((word >> 8u16) & 0x000F == (word / 256) % 16) by (bit_vector);
        assert((word >> 4u16) & 0x000F == (word / 16) % 16) by (bit_vector);
        assert(word & 0x000F == word % 16) by (bit_vector);
    }
    Fields {
        address,
        immediate: immediate as u8,
        reg_x: reg_x as u8,
        reg_y: reg_y as u8,
        subop: subop as u8,
    }
}

/// The instructions that the machine implements, with their operands.
#[derive(Clone, Copy, Debug, PartialEq, Eq, Structural)]
pub enum Opcode {
    /// `0000`: stop the machine.
    Halt,
    /// `00E0`: blank the display.
    ClearScreen,
    /// `00EE`: return from a subroutine.
    Return,
    /// `1nnn`: jump to `nnn`.
    Jump { address: u16 },
    /// `2nnn`: call the subroutine at `nnn`.
    Call { address: u16 },
    /// `3xkk`: skip the next instruction if `V[x] == kk`.
    SkipIfEqual { x: u8, value: u8 },
    /// `4xkk`: skip the next instruction if `V[x] != kk`.
    SkipIfNotEqual { x: u8, value: u8 },
    /// `5xy_`: skip the next instruction if `V[x] == V[y]`.
    SkipIfRegistersEqual { x: u8, y: u8 },
    /// `6xkk`: `V[x] = kk`.
    Load { x: u8, value: u8 },
    /// `7xkk`: `V[x] = V[x] + kk`, modulo 256.
    Add { x: u8, value: u8 },
    /// `9xy_`: skip the next instruction if `V[x] != V[y]`.
    SkipIfRegistersNotEqual { x: u8, y: u8 },
    /// `Annn`: `I = nnn`.
    LoadIndex { address: u16 },
    /// `Bnnn`: jump to `nnn + V[0]`.
    JumpWithOffset { address: u16 },
    /// `Cxkk`: `V[x] = random byte & kk`.
    Random { x: u8, mask: u8 },
    /// `Dxyn`: draw the `n`-row sprite at `I` at `(V[x], V[y])`.
    Draw { x: u8, y: u8, height: u8 },
    /// `Ex9E`: skip the next instruction if `V[x]` is the pressed key.
    SkipIfKey { x: u8 },
    /// `ExA1`: skip the next instruction if `V[x]` is not the pressed key.
    SkipIfNotKey { x: u8 },
}

/// The opcode that `word` encodes, or `None` for a word outside the
/// implemented set. Full-word matches come before their family.
pub open spec fn opcode_of(word: u16) -> Option<Opcode> {
    let family = family_of(word);
    let address = address_of(word) as u16;
    let value = immediate_of(word) as u8;
    let x = reg_x_of(word) as u8;
    let y = reg_y_of(word) as u8;
    if word == 0x0000 {
        Some(Opcode::Halt)
    } else if word == 0x00E0 {
        Some(Opcode::ClearScreen)
    } else if word == 0x00EE {
        Some(Opcode::Return)
    } else if family == 0x1 {
        Some(Opcode::Jump { address })
    } else if family == 0x2 {
        Some(Opcode::Call { address })
    } else if family == 0x3 {
        Some(Opcode::SkipIfEqual { x, value })
    } else if family == 0x4 {
        Some(Opcode::SkipIfNotEqual { x, value })
    } else if family == 0x5 {
        Some(Opcode::SkipIfRegistersEqual { x, y })
    } else if family == 0x6 {
        Some(Opcode::Load { x, value })
    } else if family == 0x7 {
        Some(Opcode::Add { x, value })
    } else if family == 0x9 {
        Some(Opcode::SkipIfRegistersNotEqual { x, y })
    } else if family == 0xA {
        Some(Opcode::LoadIndex { address })
    } else if family == 0xB {
        Some(Opcode::JumpWithOffset { address })
    } else if family == 0xC {
        Some(Opcode::Random { x, mask: value })
    } else if family == 0xD {
        Some(Opcode::Draw { x, y, height: subop_of(word) as u8 })
    } else if family == 0xE && value == 0x9E {
        Some(Opcode::SkipIfKey { x })
    } else if family == 0xE && value == 0xA1 {
        Some(Opcode::SkipIfNotKey { x })
    } else {
        None
    }
}

/// Decodes one instruction word.
pub fn decode(word: u16) -> (r: Option<Opcode>)
    ensures
        r == opcode_of(word),
{
    let f = fields(word);
    let family = word >> 12u16;
    proof {
        assert(word >> 12u16 == word / 4096) by (bit_vector);
    }
    let address = f.address;
    let value = f.immediate;
    let x = f.reg_x;
    let y = f.reg_y;
    if word == 0x0000 {
        Some(Opcode::Halt)
    } else if word == 0x00E0 {
        Some(Opcode::ClearScreen)
    } else if word == 0x00EE {
        Some(Opcode::Return)
    } else {
        match family {
            0x1 => Some(Opcode::Jump { address }),
            0x2 => Some(Opcode::Call { address }),
            0x3 => Some(Opcode::SkipIfEqual { x, value }),
            0x4 => Some(Opcode::SkipIfNotEqual { x, value }),
            0x5 => Some(Opcode::SkipIfRegistersEqual { x, y }),
            0x6 => Some(Opcode::Load { x, value }),
            0x7 => Some(Opcode::Add { x, value }),
            0x9 => Some(Opcode::SkipIfRegistersNotEqual { x, y }),
            0xA => Some(Opcode::LoadIndex { address }),
            0xB => Some(Opcode::JumpWithOffset { address }),
            0xC => Some(Opcode::Random { x, mask: value }),
            0xD => Some(Opcode::Draw { x, y, height: f.subop }),
            0xE if value == 0x9E => Some(Opcode::SkipIfKey { x }),
            0xE if value == 0xA1 => Some(Opcode::SkipIfNotKey { x }),
            _ => None,
        }
    }
}

} // verus!
