//! The section builders of the `wasm_encoder` crate, with what each call
//! appends. Nothing in this file is proved: the contracts state what the
//! crate's source does, and the rest of the library is verified against them.

use vstd::prelude::*;
use vstd::utf8::encode_utf8;
use crate::wasm::bin::{
    leb128_u, preamble, val_type_codes, ExportKind, Instruction, ValType, FUNC_TYPE,
};

verus! {

/// A binary module under construction: the module builder of `wasm_encoder`,
/// which holds the bytes written so far.
#[verifier::external_body]
pub struct Assembly {
    inner: wasm_encoder::Module,
}

#[verifier::external_type_specification]
#[verifier::external_body]
pub struct ExTypeSection(wasm_encoder::TypeSection);

#[verifier::external_type_specification]
#[verifier::external_body]
pub struct ExFunctionSection(wasm_encoder::FunctionSection);

#[verifier::external_type_specification]
#[verifier::external_body]
pub struct ExExportSection(wasm_encoder::ExportSection);

#[verifier::external_type_specification]
#[verifier::external_body]
pub struct ExCodeSection(wasm_encoder::CodeSection);

#[verifier::external_type_specification]
#[verifier::external_body]
pub struct ExFunction(wasm_encoder::Function);

/// The bytes that a module under construction holds.
pub uninterp spec fn module_bytes(m: Assembly) -> Seq<u8>;

/// The bytes of the entries that a type section holds.
pub uninterp spec fn type_section_bytes(s: wasm_encoder::TypeSection) -> Seq<u8>;

/// The number of entries that a type section holds.
pub uninterp spec fn type_section_count(s: wasm_encoder::TypeSection) -> nat;

/// The bytes of the entries that a function section holds.
pub uninterp spec fn function_section_bytes(s: wasm_encoder::FunctionSection) -> Seq<u8>;

/// The number of entries that a function section holds.
pub uninterp spec fn function_section_count(s: wasm_encoder::FunctionSection) -> nat;

/// The bytes of the entries that an export section holds.
pub uninterp spec fn export_section_bytes(s: wasm_encoder::ExportSection) -> Seq<u8>;

/// The number of entries that an export section holds.
pub uninterp spec fn export_section_count(s: wasm_encoder::ExportSection) -> nat;

/// The bytes of the entries that a code section holds.
pub uninterp spec fn code_section_bytes(s: wasm_encoder::CodeSection) -> Seq<u8>;

/// The number of entries that a code section holds.
pub uninterp spec fn code_section_count(s: wasm_encoder::CodeSection) -> nat;

/// The bytes of a function body under construction, without its length.
pub uninterp spec fn function_bytes(f: wasm_encoder::Function) -> Seq<u8>;

/// A section as a module holds it: the identifier, the length of what
/// follows, the number of entries, and the entries.
pub open spec fn section_encoding(id: u8, count: nat, entries: Seq<u8>) -> Seq<u8> {
    seq![id] + leb128_u(leb128_u(count).len() + entries.len()) + leb128_u(count) + entries
}

/// Whether a section of `count` entries in `entries` bytes can be written:
/// its length has to fit in 32 bits.
pub open spec fn section_fits(count: nat, entries: Seq<u8>) -> bool {
    leb128_u(count).len() + entries.len() <= u32::MAX
}

/// A function type: the prefix `0x60`, then the parameter types and the
/// result types, each list with its length in front.
pub open spec fn func_type_encoding(params: Seq<ValType>, results: Seq<ValType>) -> Seq<u8> {
    seq![FUNC_TYPE] + leb128_u(params.len()) + val_type_codes(params) + leb128_u(results.len())
        + val_type_codes(results)
}

/// An export: the name's length and its bytes in UTF-8, the byte of the
/// kind, and the index of the exported item.
pub open spec fn export_encoding(name: Seq<char>, kind: ExportKind, index: u32) -> Seq<u8> {
    leb128_u(encode_utf8(name).len()) + encode_utf8(name) + seq![kind.code()] + leb128_u(
        index as nat,
    )
}

/// The groups of locals of a function body: for each group the number of
/// locals and their type.
pub open spec fn local_groups(locals: Seq<(u32, ValType)>) -> Seq<u8>
    decreases locals.len(),
{
    if locals.len() == 0 {
        Seq::empty()
    } else {
        local_groups(locals.drop_last()) + leb128_u(locals.last().0 as nat) + seq![
            locals.last().1.code(),
        ]
    }
}

/// The locals of a function body: the number of groups, and the groups.
pub open spec fn locals_encoding(locals: Seq<(u32, ValType)>) -> Seq<u8> {
    leb128_u(locals.len()) + local_groups(locals)
}

/// `Module::new`: a module that holds the magic number and the version.
#[verifier::external_body]
pub(crate) fn module_new() -> (m: Assembly)
    ensures
        module_bytes(m) == preamble(),
{
    Assembly { inner: wasm_encoder::Module::new() }
}

/// `Module::section` with a type section: appends the section with the
/// identifier 1.
#[verifier::external_body]
pub(crate) fn module_type_section(m: &mut Assembly, s: &wasm_encoder::TypeSection)
    requires
        section_fits(type_section_count(*s), type_section_bytes(*s)),
    ensures
        module_bytes(*final(m)) == module_bytes(*old(m)) + section_encoding(
            1,
            type_section_count(*s),
            type_section_bytes(*s),
        ),
{
    m.inner.section(s);
}

/// `Module::section` with a function section: appends the section with the
/// identifier 3.
#[verifier::external_body]
pub(crate) fn module_function_section(
    m: &mut Assembly,
    s: &wasm_encoder::FunctionSection,
)
    requires
        section_fits(function_section_count(*s), function_section_bytes(*s)),
    ensures
        module_bytes(*final(m)) == module_bytes(*old(m)) + section_encoding(
            3,
            function_section_count(*s),
            function_section_bytes(*s),
        ),
{
    m.inner.section(s);
}

/// `Module::section` with an export section: appends the section with the
/// identifier 7.
#[verifier::external_body]
pub(crate) fn module_export_section(m: &mut Assembly, s: &wasm_encoder::ExportSection)
    requires
        section_fits(export_section_count(*s), export_section_bytes(*s)),
    ensures
        module_bytes(*final(m)) == module_bytes(*old(m)) + section_encoding(
            7,
            export_section_count(*s),
            export_section_bytes(*s),
        ),
{
    m.inner.section(s);
}

/// `Module::section` with a code section: appends the section with the
/// identifier 10.
#[verifier::external_body]
pub(crate) fn module_code_section(m: &mut Assembly, s: &wasm_encoder::CodeSection)
    requires
        section_fits(code_section_count(*s), code_section_bytes(*s)),
    ensures
        module_bytes(*final(m)) == module_bytes(*old(m)) + section_encoding(
            10,
            code_section_count(*s),
            code_section_bytes(*s),
        ),
{
    m.inner.section(s);
}

/// `Module::finish`: hands out the bytes that the module holds.
#[verifier::external_body]
pub(crate) fn module_finish(m: Assembly) -> (bytes: Vec<u8>)
    ensures
        bytes@ == module_bytes(m),
{
    m.inner.finish()
}

/// `TypeSection::new`: a section without entries.
#[verifier::external_body]
pub(crate) fn type_section_new() -> (s: wasm_encoder::TypeSection)
    ensures
        type_section_bytes(s) == Seq::<u8>::empty(),
        type_section_count(s) == 0,
{
    wasm_encoder::TypeSection::new()
}

/// `TypeSection::ty` and `CoreTypeEncoder::function` on what it returns:
/// appends a function type and counts one more entry.
#[verifier::external_body]
pub(crate) fn type_section_function(
    s: &mut wasm_encoder::TypeSection,
    params: &Vec<ValType>,
    results: &Vec<ValType>,
)
    requires
        type_section_count(*old(s)) < u32::MAX,
        params.len() <= u32::MAX,
        results.len() <= u32::MAX,
    ensures
        type_section_bytes(*final(s)) == type_section_bytes(*old(s)) + func_type_encoding(
            params@,
            results@,
        ),
        type_section_count(*final(s)) == type_section_count(*old(s)) + 1,
{
    s.ty().function(
        params.iter().map(|t| match t { ValType::I32 => wasm_encoder::ValType::I32 }),
        results.iter().map(|t| match t { ValType::I32 => wasm_encoder::ValType::I32 }),
    );
}

/// `FunctionSection::new`: a section without entries.
#[verifier::external_body]
pub(crate) fn function_section_new() -> (s: wasm_encoder::FunctionSection)
    ensures
        function_section_bytes(s) == Seq::<u8>::empty(),
        function_section_count(s) == 0,
{
    wasm_encoder::FunctionSection::new()
}

/// `FunctionSection::function`: appends the type index in LEB128 and counts
/// one more entry.
#[verifier::external_body]
pub(crate) fn function_section_function(s: &mut wasm_encoder::FunctionSection, type_index: u32)
    requires
        function_section_count(*old(s)) < u32::MAX,
    ensures
        function_section_bytes(*final(s)) == function_section_bytes(*old(s)) + leb128_u(
            type_index as nat,
        ),
        function_section_count(*final(s)) == function_section_count(*old(s)) + 1,
{
    s.function(type_index);
}

/// `ExportSection::new`: a section without entries.
#[verifier::external_body]
pub(crate) fn export_section_new() -> (s: wasm_encoder::ExportSection)
    ensures
        export_section_bytes(s) == Seq::<u8>::empty(),
        export_section_count(s) == 0,
{
    wasm_encoder::ExportSection::new()
}

/// `ExportSection::export`: appends the export and counts one more entry.
#[verifier::external_body]
pub(crate) fn export_section_export(
    s: &mut wasm_encoder::ExportSection,
    name: &str,
    kind: ExportKind,
    index: u32,
)
    requires
        export_section_count(*old(s)) < u32::MAX,
        encode_utf8(name@).len() <= u32::MAX,
    ensures
        export_section_bytes(*final(s)) == export_section_bytes(*old(s)) + export_encoding(
            name@,
            kind,
            index,
        ),
        export_section_count(*final(s)) == export_section_count(*old(s)) + 1,
{
    let outside = match kind {
        ExportKind::Func => wasm_encoder::ExportKind::Func,
    };
    s.export(name, outside, index);
}

/// `CodeSection::new`: a section without entries.
#[verifier::external_body]
pub(crate) fn code_section_new() -> (s: wasm_encoder::CodeSection)
    ensures
        code_section_bytes(s) == Seq::<u8>::empty(),
        code_section_count(s) == 0,
{
    wasm_encoder::CodeSection::new()
}

/// `CodeSection::function`: appends the body's length in LEB128 and the
/// body, and counts one more entry.
#[verifier::external_body]
pub(crate) fn code_section_function(s: &mut wasm_encoder::CodeSection, f: &wasm_encoder::Function)
    requires
        code_section_count(*old(s)) < u32::MAX,
        function_bytes(*f).len() <= u32::MAX,
    ensures
        code_section_bytes(*final(s)) == code_section_bytes(*old(s)) + leb128_u(
            function_bytes(*f).len(),
        ) + function_bytes(*f),
        code_section_count(*final(s)) == code_section_count(*old(s)) + 1,
{
    s.function(f);
}

/// `Function::new`: a body that holds its locals and no instruction yet.
#[verifier::external_body]
pub(crate) fn function_new(locals: &Vec<(u32, ValType)>) -> (f: wasm_encoder::Function)
    requires
        locals.len() <= u32::MAX,
    ensures
        function_bytes(f) == locals_encoding(locals@),
{
    wasm_encoder::Function::new(
        locals.iter().map(|l| (l.0, match l.1 { ValType::I32 => wasm_encoder::ValType::I32 })),
    )
}

/// `Function::instruction`: appends the instruction's encoding.
#[verifier::external_body]
pub(crate) fn function_instruction(f: &mut wasm_encoder::Function, instruction: Instruction)
    ensures
        function_bytes(*final(f)) == function_bytes(*old(f)) + instruction.encoding(),
{
    let outside = match instruction {
        Instruction::I32Const(v) => wasm_encoder::Instruction::I32Const(v),
        Instruction::Call(index) => wasm_encoder::Instruction::Call(index),
        Instruction::Return => wasm_encoder::Instruction::Return,
        Instruction::End => wasm_encoder::Instruction::End,
    };
    f.instruction(&outside);
}

} // verus!
