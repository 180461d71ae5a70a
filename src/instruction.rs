use vstd::prelude::*;

verus! {

/// Why an opcode word could not be turned into an instruction.
#[derive(Debug, Clone, Copy, PartialEq, Eq, Structural)]
pub struct DecodeError {
    /// The raw big-endian opcode word, kept for diagnostics.
    pub opcode: u16,
}

/// One decoded instruction of the six supported opcode families.
#[allow(inconsistent_fields)]
#[derive(Debug, Clone, Copy, PartialEq, Eq, Structural)]
pub enum Instruction {
    /// `00E0`: set every pixel of the framebuffer to off.
    ClearScreen,
    /// `1NNN`: continue execution at address `NNN`.
    Jump { loc: usize },
    /// `6XNN`: register `X` becomes `NN`.
    SetRegister { register: u8, value: u8 },
    /// `7XNN`: register `X` grows by `NN`, wrapping at 256.
    AddRegister { register: u8, value: u8 },
    /// `ANNN`: the index register becomes `NNN`.
    SetIndex { value: usize },
    /// `DXYN`: draw an `N`-row sprite at the origin held in registers `X` and `Y`.
    Display { x_reg: u8, y_reg: u8, num_bytes: u8 },
}

/// The exact opcode word of the clear-screen instruction.
pub const CLEAR_SCREEN_OPCODE: u16 = 0x00E0;

/// The 16-bit opcode word made of two bytes, the first one most significant.
pub open spec fn opcode_word(hi: u8, lo: u8) -> int {
    hi as int * 256 + lo as int
}

/// The nibble of `w` that sits `k` nibbles up from the least significant one.
pub open spec fn nibble(w: int, k: int) -> int
    recommends
        0 <= k < 4,
{
    if k == 0 {
        w % 16
    } else if k == 1 {
        (w / 16) % 16
    } else if k == 2 {
        (w / 256) % 16
    } else {
        (w / 4096) % 16
    }
}

/// What an opcode word in `0..65536` decodes to.
///
/// Only the exact word `00E0` is the clear-screen instruction; every other
/// word with a top nibble of zero, and every word whose top nibble names no
/// supported family, is rejected.
pub open spec fn decode_spec(w: int) -> Result<Instruction, DecodeError> {
    let top = nibble(w, 3);
    if w == 0x00E0 {
        Ok(Instruction::ClearScreen)
    } else if top == 0x1 {
        Ok(Instruction::Jump { loc: (w % 4096) as usize })
    } else if top == 0x6 {
        Ok(Instruction::SetRegister { register: nibble(w, 2) as u8, value: (w % 256) as u8 })
    } else if top == 0x7 {
        Ok(Instruction::AddRegister { register: nibble(w, 2) as u8, value: (w % 256) as u8 })
    } else if top == 0xA {
        Ok(Instruction::SetIndex { value: (w % 4096) as usize })
    } else if top == 0xD {
        Ok(
            Instruction::Display {
                x_reg: nibble(w, 2) as u8,
                y_reg: nibble(w, 1) as u8,
                num_bytes: nibble(w, 0) as u8,
            },
        )
    } else {
        Err(DecodeError { opcode: w as u16 })
    }
}

impl Instruction {
    /// Every register operand names one of the sixteen registers, every
    /// address lies in the 12-bit address space, and a sprite height fits
    /// in a nibble.
    pub open spec fn wf(self) -> bool {
        match self {
            Instruction::ClearScreen => true,
            Instruction::Jump { loc } => loc < 4096,
            Instruction::SetRegister { register, value } => register < 16,
            Instruction::AddRegister { register, value } => register < 16,
            Instruction::SetIndex { value } => value < 4096,
            Instruction::Display { x_reg, y_reg, num_bytes } => x_reg < 16 && y_reg < 16
                && num_bytes < 16,
        }
    }

    /// The opcode word that stands for a well-formed instruction.
    pub open spec fn encode(self) -> int {
        match self {
            Instruction::ClearScreen => 0x00E0,
            Instruction::Jump { loc } => 0x1000 + loc,
            Instruction::SetRegister { register, value } => 0x6000 + register * 256 + value,
            Instruction::AddRegister { register, value } => 0x7000 + register * 256 + value,
            Instruction::SetIndex { value } => 0xA000 + value,
            Instruction::Display { x_reg, y_reg, num_bytes } => 0xD000 + x_reg * 256 + y_reg
                * 16 + num_bytes,
        }
    }

    /// Decodes the two bytes of one instruction, most significant first.
    pub fn decode(hi: u8, lo: u8) -> (r: Result<Instruction, DecodeError>)
        ensures
            r == decode_spec(opcode_word(hi, lo)),
            r matches Ok(i) ==> i.wf(),
    {
        let value: u16 = (hi as u16) * 256 + (lo as u16);
        let top: u16 = value / 4096;
        let x: u8 = ((value / 256) % 16) as u8;
        let y: u8 = ((value / 16) % 16) as u8;
        let n: u8 = (value % 16) as u8;
        let nn: u8 = (value % 256) as u8;
        let nnn: usize = (value % 4096) as usize;
        assert(top == (value / 4096) % 16);
        if value == CLEAR_SCREEN_OPCODE {
            Ok(Instruction::ClearScreen)
        } else if top == 0x1 {
            Ok(Instruction::Jump { loc: nnn })
        } else if top == 0x6 {
            Ok(Instruction::SetRegister { register: x, value: nn })
        } else if top == 0x7 {
            Ok(Instruction::AddRegister { register: x, value: nn })
        } else if top == 0xA {
            Ok(Instruction::SetIndex { value: nnn })
        } else if top == 0xD {
            Ok(Instruction::Display { x_reg: x, y_reg: y, num_bytes: n })
        } else {
            Err(DecodeError { opcode: value })
        }
    }
}

/// Decoding the word of any well-formed instruction gives that instruction
/// back, with every operand where the opcode table puts it.
pub proof fn lemma_decode_encode(i: Instruction)
    requires
        i.wf(),
    ensures
        0 <= i.encode() < 65536,
        decode_spec(i.encode()) == Ok::<Instruction, DecodeError>(i),
{
    let w = i.encode();
    match i {
        Instruction::ClearScreen => {},
        Instruction::Jump { loc } => {
            assert(w / 4096 == 1 && w % 4096 == loc);
        },
        Instruction::SetRegister { register, value } => {
            lemma_split_high(6, register as int, value as int);
        },
        Instruction::AddRegister { register, value } => {
            lemma_split_high(7, register as int, value as int);
        },
        Instruction::SetIndex { value } => {
            assert(w / 4096 == 0xA && w % 4096 == value);
        },
        Instruction::Display { x_reg, y_reg, num_bytes } => {
            let lo = y_reg as int * 16 + num_bytes as int;
            lemma_split_high(0xD, x_reg as int, lo);
            assert(lo / 16 == y_reg && lo % 16 == num_bytes);
            assert(w / 16 == 0xD00 + x_reg * 16 + y_reg) by (nonlinear_arith)
                requires
                    w == 0xD000 + x_reg * 256 + lo,
                    lo == y_reg * 16 + num_bytes,
                    0 <= num_bytes < 16,
            ;
            assert((w / 16) % 16 == y_reg) by (nonlinear_arith)
                requires
                    w / 16 == 0xD00 + x_reg * 16 + y_reg,
                    0 <= y_reg < 16,
            ;
        },
    }
}

/// The nibbles of `top * 4096 + mid * 256 + lo` are `top`, `mid` and those of `lo`.
proof fn lemma_split_high(top: int, mid: int, lo: int)
    requires
        0 <= top < 16,
        0 <= mid < 16,
        0 <= lo < 256,
    ensures
        (top * 4096 + mid * 256 + lo) / 4096 % 16 == top,
        (top * 4096 + mid * 256 + lo) / 256 % 16 == mid,
        (top * 4096 + mid * 256 + lo) % 256 == lo,
        (top * 4096 + mid * 256 + lo) % 16 == lo % 16,
        (top * 4096 + mid * 256 + lo) % 4096 == mid * 256 + lo,
{
    let w = top * 4096 + mid * 256 + lo;
    assert(w / 4096 == top) by (nonlinear_arith)
        requires
            w == top * 4096 + mid * 256 + lo,
            0 <= mid * 256 + lo < 4096,
    ;
    assert(w / 256 == top * 16 + mid) by (nonlinear_arith)
        requires
            w == top * 4096 + mid * 256 + lo,
            0 <= lo < 256,
    ;
    assert((top * 16 + mid) % 16 == mid) by (nonlinear_arith)
        requires
            0 <= mid < 16,
    ;
}

/// A word that decodes at all decodes to a well-formed instruction whose
/// opcode word is that word: no two words decode to the same instruction.
pub proof fn lemma_decode_exact(w: int)
    requires
        0 <= w < 65536,
    ensures
        decode_spec(w) matches Ok(i) ==> i.wf() && i.encode() == w,
{
    let top = w / 4096;
    let mid = (w / 256) % 16;
    let lo = w % 256;
    assert(w == top * 4096 + mid * 256 + lo && top < 16) by (nonlinear_arith)
        requires
            0 <= w < 65536,
            top == w / 4096,
            mid == (w / 256) % 16,
            lo == w % 256,
    ;
    assert(w % 4096 == mid * 256 + lo) by (nonlinear_arith)
        requires
            w == top * 4096 + mid * 256 + lo,
            0 <= mid < 16,
            0 <= lo < 256,
    ;
    assert(lo == (lo / 16) * 16 + lo % 16);
    lemma_split_high(top, mid, lo);
}

/// A word whose top nibble names no supported family, or whose top nibble is
/// zero but which is not exactly `00E0`, fails to decode and carries the word.
pub proof fn lemma_decode_rejects(w: int)
    requires
        0 <= w < 65536,
        !(nibble(w, 3) == 0x1 || nibble(w, 3) == 0x6 || nibble(w, 3) == 0x7 || nibble(w, 3) == 0xA
            || nibble(w, 3) == 0xD || w == 0x00E0),
    ensures
        decode_spec(w) == Err::<Instruction, DecodeError>(DecodeError { opcode: w as u16 }),
{
}

} // verus!
