//! The instruction set: decoded instruction values and the decoder from
//! 16-bit instruction words.
//!
//! Dispatch is two-level: first on nibble 0 (the opcode class), then, for
//! class 0x0, on nibble 3 to tell `ClearScreen` (sub-nibble 0x0) from
//! `Return` (sub-nibble 0xE). Every word outside the supported table decodes
//! to a typed error carrying the offending raw word.

use vstd::prelude::*;

use crate::bits::{extract, lemma_address_bound, lemma_immediate_bound, lemma_nibble_bound, nibble,
    spec_extract, spec_nibble};

verus! {

/// A decoded instruction: a closed set of operation variants with typed
/// operands. Register indices are 4-bit, addresses 12-bit, immediates 8-bit.
#[derive(Clone, Copy, PartialEq, Eq, Structural, Debug)]
#[allow(inconsistent_fields)]
pub enum Instruction {
    /// Turn every pixel of the screen off.
    ClearScreen,
    /// Set the program counter to `address`.
    Jump { address: u16 },
    /// Push the program counter on the call stack, then jump to `address`.
    CallSubroutine { address: u16 },
    /// Pop the call stack into the program counter.
    Return,
    /// Skip the next instruction if comparing registers `x` and `y` for
    /// equality matches `want_equal`.
    CompareRegisters { x: u8, y: u8, want_equal: bool },
    /// Skip the next instruction if comparing register `x` with `immediate`
    /// for equality matches `want_equal`.
    CompareImmediate { x: u8, immediate: u8, want_equal: bool },
    /// Add `value` to register `register`, wrapping on 8-bit overflow.
    AddImmediate { register: u8, value: u8 },
    /// Overwrite register `register` with `value`.
    SetImmediate { register: u8, value: u8 },
    /// Set the 16-bit index register to `value`.
    SetIndex { value: u16 },
    /// Draw the sprite of `sprite_height` rows read from memory at the index
    /// register, at the screen position held by registers `x_register` and
    /// `y_register`.
    Draw { x_register: u8, y_register: u8, sprite_height: u8 },
}

/// The word did not match any supported opcode pattern; it is carried for
/// diagnostics.
#[derive(Clone, Copy, PartialEq, Eq, Structural, Debug)]
pub struct DecodeError {
    pub word: u16,
}

/// Operand fields are within their encoded widths: register indices and
/// sprite heights fit in 4 bits, addresses in 12 bits.
pub open spec fn wf_instruction(i: Instruction) -> bool {
    match i {
        Instruction::ClearScreen => true,
        Instruction::Jump { address } => address < 4096,
        Instruction::CallSubroutine { address } => address < 4096,
        Instruction::Return => true,
        Instruction::CompareRegisters { x, y, want_equal } => x < 16 && y < 16,
        Instruction::CompareImmediate { x, immediate, want_equal } => x < 16,
        Instruction::AddImmediate { register, value } => register < 16,
        Instruction::SetImmediate { register, value } => register < 16,
        Instruction::SetIndex { value } => value < 4096,
        Instruction::Draw { x_register, y_register, sprite_height } => x_register < 16 && y_register
            < 16 && sprite_height < 16,
    }
}

/// The decode table: which instruction, if any, a 16-bit word encodes.
pub open spec fn spec_decode(word: u16) -> Result<Instruction, DecodeError> {
    let class = spec_nibble(word, 0);
    let x = spec_nibble(word, 1) as u8;
    let y = spec_nibble(word, 2) as u8;
    let sub = spec_nibble(word, 3);
    let address = spec_extract(word, 4, 16);
    let immediate = spec_extract(word, 8, 16) as u8;
    if class == 0x0 {
        if sub == 0x0 {
            Ok(Instruction::ClearScreen)
        } else if sub == 0xE {
            Ok(Instruction::Return)
        } else {
            Err(DecodeError { word })
        }
    } else if class == 0x1 {
        Ok(Instruction::Jump { address })
    } else if class == 0x2 {
        Ok(Instruction::CallSubroutine { address })
    } else if class == 0x3 {
        Ok(Instruction::CompareImmediate { x, immediate, want_equal: true })
    } else if class == 0x4 {
        Ok(Instruction::CompareImmediate { x, immediate, want_equal: false })
    } else if class == 0x5 {
        Ok(Instruction::CompareRegisters { x, y, want_equal: true })
    } else if class == 0x6 {
        Ok(Instruction::SetImmediate { register: x, value: immediate })
    } else if class == 0x7 {
        Ok(Instruction::AddImmediate { register: x, value: immediate })
    } else if class == 0xA {
        Ok(Instruction::SetIndex { value: address })
    } else if class == 0xD {
        Ok(Instruction::Draw { x_register: x, y_register: y, sprite_height: sub as u8 })
    } else {
        Err(DecodeError { word })
    }
}

/// Decodes a 16-bit instruction word against the fixed table, or reports the
/// unrecognized word.
pub fn decode(word: u16) -> (r: Result<Instruction, DecodeError>)
    ensures
        r == spec_decode(word),
{
    let class = nibble(word, 0);
    match class {
        0x0 => {
            let sub = nibble(word, 3);
            match sub {
                0x0 => Ok(Instruction::ClearScreen),
                0xE => Ok(Instruction::Return),
                _ => Err(DecodeError { word }),
            }
        },
        0x1 => Ok(Instruction::Jump { address: extract(word, 4, 16) }),
        0x2 => Ok(Instruction::CallSubroutine { address: extract(word, 4, 16) }),
        0x3 => Ok(
            Instruction::CompareImmediate {
                x: nibble(word, 1),
                immediate: extract(word, 8, 16) as u8,
                want_equal: true,
            },
        ),
        0x4 => Ok(
            Instruction::CompareImmediate {
                x: nibble(word, 1),
                immediate: extract(word, 8, 16) as u8,
                want_equal: false,
            },
        ),
        0x5 => Ok(
            Instruction::CompareRegisters { x: nibble(word, 1), y: nibble(word, 2), want_equal: true },
        ),
        0x6 => Ok(
            Instruction::SetImmediate { register: nibble(word, 1), value: extract(word, 8, 16) as u8 },
        ),
        0x7 => Ok(
            Instruction::AddImmediate { register: nibble(word, 1), value: extract(word, 8, 16) as u8 },
        ),
        0xA => Ok(Instruction::SetIndex { value: extract(word, 4, 16) }),
        0xD => Ok(
            Instruction::Draw {
                x_register: nibble(word, 1),
                y_register: nibble(word, 2),
                sprite_height: nibble(word, 3),
            },
        ),
        _ => Err(DecodeError { word }),
    }
}

/// Every successfully decoded instruction has well-formed operand fields.
pub proof fn lemma_decode_wf(word: u16)
    ensures
        spec_decode(word) matches Ok(i) ==> wf_instruction(i),
{
    lemma_nibble_bound(word, 0);
    lemma_nibble_bound(word, 1);
    lemma_nibble_bound(word, 2);
    lemma_nibble_bound(word, 3);
    lemma_address_bound(word);
    lemma_immediate_bound(word);
}

/// Whether an instruction is in the decode table at all: every well-formed
/// instruction is, except comparing registers for inequality, which has no
/// encoding.
pub open spec fn encodable(i: Instruction) -> bool {
    wf_instruction(i) && match i {
        Instruction::CompareRegisters { x, y, want_equal } => want_equal,
        _ => true,
    }
}

/// The 2-byte encoding of an instruction, inverse of the decode table.
pub open spec fn spec_encode(i: Instruction) -> u16
    recommends
        encodable(i),
{
    match i {
        Instruction::ClearScreen => 0x00E0,
        Instruction::Jump { address } => (0x1000 + address) as u16,
        Instruction::CallSubroutine { address } => (0x2000 + address) as u16,
        Instruction::Return => 0x00EE,
        Instruction::CompareRegisters { x, y, want_equal } => (0x5000 + x * 0x100 + y * 0x10)
            as u16,
        Instruction::CompareImmediate { x, immediate, want_equal } => if want_equal {
            (0x3000 + x * 0x100 + immediate) as u16
        } else {
            (0x4000 + x * 0x100 + immediate) as u16
        },
        Instruction::AddImmediate { register, value } => (0x7000 + register * 0x100 + value)
            as u16,
        Instruction::SetImmediate { register, value } => (0x6000 + register * 0x100 + value)
            as u16,
        Instruction::SetIndex { value } => (0xA000 + value) as u16,
        Instruction::Draw { x_register, y_register, sprite_height } => (0xD000 + x_register * 0x100
            + y_register * 0x10 + sprite_height) as u16,
    }
}

/// Round trip: decoding the 2-byte encoding of any instruction in the table
/// gives back exactly that instruction, operand values included.
pub proof fn lemma_encode_decode(i: Instruction)
    requires
        encodable(i),
    ensures
        spec_decode(spec_encode(i)) == Ok::<Instruction, DecodeError>(i),
{
    match i {
        Instruction::ClearScreen => {
            assert(spec_nibble(0x00E0, 0) == 0 && spec_nibble(0x00E0, 3) == 0) by (bit_vector);
        },
        Instruction::Jump { address } => {
            let w = (0x1000 + address) as u16;
            assert(spec_nibble(w, 0) == 1 && spec_extract(w, 4, 16) == address) by (bit_vector)
                requires
                    w == (0x1000 + address) as u16 && address < 4096,
            ;
        },
        Instruction::CallSubroutine { address } => {
            let w = (0x2000 + address) as u16;
            assert(spec_nibble(w, 0) == 2 && spec_extract(w, 4, 16) == address) by (bit_vector)
                requires
                    w == (0x2000 + address) as u16 && address < 4096,
            ;
        },
        Instruction::Return => {
            assert(spec_nibble(0x00EE, 0) == 0 && spec_nibble(0x00EE, 3) == 0xE) by (bit_vector);
        },
        Instruction::CompareRegisters { x, y, want_equal } => {
            let w = (0x5000 + x * 0x100 + y * 0x10) as u16;
            assert(spec_nibble(w, 0) == 5 && spec_nibble(w, 1) == x && spec_nibble(w, 2) == y)
                by (bit_vector)
                requires
                    w == (0x5000 + x * 0x100 + y * 0x10) as u16 && x < 16 && y < 16,
            ;
        },
        Instruction::CompareImmediate { x, immediate, want_equal } => {
            if want_equal {
                let w = (0x3000 + x * 0x100 + immediate) as u16;
                assert(spec_nibble(w, 0) == 3 && spec_nibble(w, 1) == x && spec_extract(w, 8, 16)
                    == immediate) by (bit_vector)
                    requires
                        w == (0x3000 + x * 0x100 + immediate) as u16 && x < 16,
                ;
            } else {
                let w = (0x4000 + x * 0x100 + immediate) as u16;
                assert(spec_nibble(w, 0) == 4 && spec_nibble(w, 1) == x && spec_extract(w, 8, 16)
                    == immediate) by (bit_vector)
                    requires
                        w == (0x4000 + x * 0x100 + immediate) as u16 && x < 16,
                ;
            }
        },
        Instruction::AddImmediate { register, value } => {
            let w = (0x7000 + register * 0x100 + value) as u16;
            assert(spec_nibble(w, 0) == 7 && spec_nibble(w, 1) == register && spec_extract(
                w,
                8,
                16,
            ) == value) by (bit_vector)
                requires
                    w == (0x7000 + register * 0x100 + value) as u16 && register < 16,
            ;
        },
        Instruction::SetImmediate { register, value } => {
            let w = (0x6000 + register * 0x100 + value) as u16;
            assert(spec_nibble(w, 0) == 6 && spec_nibble(w, 1) == register && spec_extract(
                w,
                8,
                16,
            ) == value) by (bit_vector)
                requires
                    w == (0x6000 + register * 0x100 + value) as u16 && register < 16,
            ;
        },
        Instruction::SetIndex { value } => {
            let w = (0xA000 + value) as u16;
            assert(spec_nibble(w, 0) == 0xA && spec_extract(w, 4, 16) == value) by (bit_vector)
                requires
                    w == (0xA000 + value) as u16 && value < 4096,
            ;
        },
        Instruction::Draw { x_register, y_register, sprite_height } => {
            let w = (0xD000 + x_register * 0x100 + y_register * 0x10 + sprite_height) as u16;
            assert(spec_nibble(w, 0) == 0xD && spec_nibble(w, 1) == x_register && spec_nibble(w, 2)
                == y_register && spec_nibble(w, 3) == sprite_height) by (bit_vector)
                requires
                    w == (0xD000 + x_register * 0x100 + y_register * 0x10 + sprite_height) as u16
                        && x_register < 16 && y_register < 16 && sprite_height < 16,
            ;
        },
    }
}

/// A word fails to decode exactly when its class nibble is outside
/// {0,1,2,3,4,5,6,7,A,D}, or is 0 with a sub-nibble other than 0x0 or 0xE;
/// the error then carries the offending word.
pub proof fn lemma_decode_err_iff(word: u16)
    ensures
        spec_decode(word) is Err <==> {
            let class = spec_nibble(word, 0);
            let sub = spec_nibble(word, 3);
            ||| class == 0x8
            ||| class == 0x9
            ||| class == 0xB
            ||| class == 0xC
            ||| class == 0xE
            ||| class == 0xF
            ||| (class == 0x0 && sub != 0x0 && sub != 0xE)
        },
        spec_decode(word) matches Err(e) ==> e.word == word,
{
    lemma_nibble_bound(word, 0);
}

} // verus!
