//! Constants and integer encodings of the binary format.

use vstd::prelude::*;

verus! {

/// A binary module, as bytes.
pub type WASM = Vec<u8>;

/// The magic number that opens every binary module: a zero byte and `asm`.
pub const MODULE_HEADER: [u8; 4] = [0x00, 0x61, 0x73, 0x6d];

/// The version of the binary format, in little-endian order.
pub const VERSION_HEADER: [u8; 4] = [0x01, 0x00, 0x00, 0x00];

/// The eight bytes that every binary module starts with: the magic number
/// and the version.
pub open spec fn preamble() -> Seq<u8> {
    MODULE_HEADER@ + VERSION_HEADER@
}

/// The kinds of section of a binary module, in the order of their
/// identifiers.
#[derive(Clone, Copy, Debug, PartialEq, Eq, Structural)]
pub enum Section {
    Custom,
    Type,
    Import,
    Func,
    Table,
    Memory,
    Global,
    Export,
    Start,
    Element,
    Code,
    Data,
}

impl Section {
    /// The identifier byte of the section.
    pub open spec fn spec_id(self) -> u8 {
        match self {
            Section::Custom => 0,
            Section::Type => 1,
            Section::Import => 2,
            Section::Func => 3,
            Section::Table => 4,
            Section::Memory => 5,
            Section::Global => 6,
            Section::Export => 7,
            Section::Start => 8,
            Section::Element => 9,
            Section::Code => 10,
            Section::Data => 11,
        }
    }

    /// The identifier byte of the section.
    #[verifier::when_used_as_spec(spec_id)]
    pub fn id(self) -> (b: u8)
        ensures
            b == self.spec_id(),
    {
        match self {
            Section::Custom => 0,
            Section::Type => 1,
            Section::Import => 2,
            Section::Func => 3,
            Section::Table => 4,
            Section::Memory => 5,
            Section::Global => 6,
            Section::Export => 7,
            Section::Start => 8,
            Section::Element => 9,
            Section::Code => 10,
            Section::Data => 11,
        }
    }

    /// The section's identifier followed by `bytes`.
    pub open spec fn spec_encode(self, bytes: Seq<u8>) -> Seq<u8> {
        seq![self.spec_id()] + bytes
    }

    /// Puts the section's identifier in front of `bytes`.
    pub fn encode(self, bytes: Vec<u8>) -> (r: Vec<u8>)
        ensures
            r@ == self.spec_encode(bytes@),
    {
        let mut r: Vec<u8> = Vec::new();
        r.push(self.id());
        let mut bytes = bytes;
        r.append(&mut bytes);
        r
    }
}

/// The prefix byte of a function type.
pub const FUNC_TYPE: u8 = 0x60;

/// The kinds of item that a module exports.
#[derive(Clone, Copy, Debug, PartialEq, Eq, Structural)]
pub enum ExportKind {
    Func,
}

impl ExportKind {
    /// The byte that stands for the kind.
    pub open spec fn code(self) -> u8 {
        match self {
            ExportKind::Func => 0x00,
        }
    }
}

/// The value types that declarations use.
#[derive(Clone, Copy, Debug, PartialEq, Eq, Structural)]
pub enum ValType {
    I32,
}

impl ValType {
    /// The byte that stands for the value type.
    pub open spec fn code(self) -> u8 {
        match self {
            ValType::I32 => 0x7f,
        }
    }
}

/// The bytes that stand for a list of value types, one each.
pub open spec fn val_type_codes(types: Seq<ValType>) -> Seq<u8> {
    types.map_values(|t: ValType| t.code())
}

/// The instructions that function bodies are made of.
#[derive(Clone, Copy, Debug, PartialEq, Eq, Structural)]
pub enum Instruction {
    /// Pushes a constant.
    I32Const(i32),
    /// Calls the function with the given index.
    Call(u32),
    /// Returns from the function.
    Return,
    /// Ends a body.
    End,
}

impl Instruction {
    /// The opcode of the instruction.
    pub open spec fn opcode(self) -> u8 {
        match self {
            Instruction::I32Const(_) => 0x41,
            Instruction::Call(_) => 0x10,
            Instruction::Return => 0x0f,
            Instruction::End => 0x0b,
        }
    }

    /// The opcode followed by the instruction's operand, if it has one: a
    /// constant in signed LEB128, a function index in unsigned LEB128.
    pub open spec fn encoding(self) -> Seq<u8> {
        match self {
            Instruction::I32Const(v) => seq![self.opcode()] + leb128_s(v as int),
            Instruction::Call(f) => seq![self.opcode()] + leb128_u(f as nat),
            Instruction::Return => seq![self.opcode()],
            Instruction::End => seq![self.opcode()],
        }
    }
}

/// Unsigned LEB128: seven bits a byte, least significant group first, the
/// high bit set on every byte but the last.
pub open spec fn leb128_u(n: nat) -> Seq<u8>
    decreases n,
{
    if n < 128 {
        seq![n as u8]
    } else {
        seq![(n % 128 + 128) as u8] + leb128_u(n / 128)
    }
}

/// Signed LEB128: as the unsigned form, in two's complement; the last byte
/// is the first whose seventh bit agrees with the sign of what is left.
pub open spec fn leb128_s(v: int) -> Seq<u8>
    decreases (if v < 0 { -v } else { v }),
{
    if -64 <= v < 64 {
        seq![(v % 128) as u8]
    } else {
        seq![(v % 128 + 128) as u8] + leb128_s(v / 128)
    }
}

/// The number of bytes of an unsigned LEB128 encoding.
pub open spec fn leb128_u_len(n: nat) -> nat {
    if n < 0x80 {
        1
    } else if n < 0x4000 {
        2
    } else if n < 0x20_0000 {
        3
    } else if n < 0x1000_0000 {
        4
    } else if n < 0x8_0000_0000 {
        5
    } else {
        leb128_u(n).len()
    }
}

/// The number of bytes of a signed LEB128 encoding.
pub open spec fn leb128_s_len(v: int) -> nat {
    if -0x40 <= v < 0x40 {
        1
    } else if -0x2000 <= v < 0x2000 {
        2
    } else if -0x10_0000 <= v < 0x10_0000 {
        3
    } else if -0x800_0000 <= v < 0x800_0000 {
        4
    } else if -0x4_0000_0000 <= v < 0x4_0000_0000 {
        5
    } else {
        leb128_s(v).len()
    }
}

/// The length of an unsigned LEB128 encoding goes by the size of the number.
pub proof fn lemma_leb128_u_len(n: nat)
    ensures
        leb128_u(n).len() == leb128_u_len(n),
        leb128_u(n).len() >= 1,
{
    reveal_with_fuel(leb128_u, 6);
}

/// The length of a signed LEB128 encoding goes by the size of the number.
pub proof fn lemma_leb128_s_len(v: int)
    ensures
        leb128_s(v).len() == leb128_s_len(v),
        leb128_s(v).len() >= 1,
{
    reveal_with_fuel(leb128_s, 6);
}

/// The number of bytes that `n` takes in unsigned LEB128.
pub fn leb128_u32_size(n: u32) -> (len: usize)
    ensures
        len == leb128_u(n as nat).len(),
        1 <= len <= 5,
{
    proof {
        lemma_leb128_u_len(n as nat);
    }
    if n < 0x80 {
        1
    } else if n < 0x4000 {
        2
    } else if n < 0x20_0000 {
        3
    } else if n < 0x1000_0000 {
        4
    } else {
        5
    }
}

/// The number of bytes that `v` takes in signed LEB128.
pub fn leb128_i32_size(v: i32) -> (len: usize)
    ensures
        len == leb128_s(v as int).len(),
        1 <= len <= 5,
{
    proof {
        lemma_leb128_s_len(v as int);
    }
    if -0x40 <= v && v < 0x40 {
        1
    } else if -0x2000 <= v && v < 0x2000 {
        2
    } else if -0x10_0000 <= v && v < 0x10_0000 {
        3
    } else if -0x800_0000 <= v && v < 0x800_0000 {
        4
    } else {
        5
    }
}

} // verus!
