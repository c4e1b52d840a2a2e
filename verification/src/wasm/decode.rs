//! Reading a binary module back: what a decoder finds in the bytes, and the
//! proof that it finds in an encoded module what was put into it.

use vstd::prelude::*;
use vstd::utf8::encode_utf8;
use crate::ast::{lemma_lowered_follows_source_order, ASTView};
use crate::wasm::bin::{leb128_u, preamble, ExportKind, Section};
use crate::wasm::encoder::{export_encoding, section_encoding};
use crate::wasm::{
    code_entries, export_entries, function_entries, lemma_function_entries_len, lemma_section,
    section, type_entries, Body, ExportView, ModuleView,
};

verus! {

/// Whether the bytes of `part` stand in `bytes` from the position `at` on.
pub open spec fn holds_at(bytes: Seq<u8>, at: int, part: Seq<u8>) -> bool {
    &&& 0 <= at
    &&& at + part.len() <= bytes.len()
    &&& bytes.subrange(at, at + part.len()) == part
}

/// Where two parts stand one after the other, each of them stands at its
/// place.
pub proof fn lemma_holds_split(bytes: Seq<u8>, at: int, a: Seq<u8>, b: Seq<u8>)
    requires
        holds_at(bytes, at, a + b),
    ensures
        holds_at(bytes, at, a),
        holds_at(bytes, at + a.len(), b),
{
    let whole = bytes.subrange(at, at + (a + b).len());
    assert(bytes.subrange(at, at + a.len()) =~= a);
    assert forall|i: int| 0 <= i < b.len() implies bytes.subrange(
        at + a.len(),
        at + a.len() + b.len(),
    )[i] == b[i] by {
        assert(whole[a.len() + i] == (a + b)[a.len() + i]);
    }
    assert(bytes.subrange(at + a.len(), at + a.len() + b.len()) =~= b);
}

/// The number in unsigned LEB128 at `at`, and the position after it: the
/// low seven bits of each byte, least significant group first, up to the
/// first byte without the high bit.
pub open spec fn read_u(bytes: Seq<u8>, at: int) -> Option<(nat, int)>
    decreases bytes.len() - at,
{
    if at < 0 || at >= bytes.len() {
        None
    } else if bytes[at] < 128 {
        Some((bytes[at] as nat, at + 1))
    } else {
        match read_u(bytes, at + 1) {
            Some((high, end)) => Some(((bytes[at] - 128 + 128 * high) as nat, end)),
            None => None,
        }
    }
}

/// Reading an encoded number gives the number back.
pub proof fn lemma_read_u(bytes: Seq<u8>, at: int, n: nat)
    requires
        holds_at(bytes, at, leb128_u(n)),
    ensures
        read_u(bytes, at) == Some((n, at + leb128_u(n).len())),
    decreases n,
{
    let part = leb128_u(n);
    assert(bytes.subrange(at, at + part.len())[0] == part[0]);
    if n >= 128 {
        let first = seq![(n % 128 + 128) as u8];
        lemma_holds_split(bytes, at, first, leb128_u(n / 128));
        lemma_read_u(bytes, at + 1, n / 128);
    }
}

/// The frame of a section: its identifier, the number of its entries, the
/// position of the first entry and the position after the section.
pub struct Frame {
    pub id: u8,
    pub count: nat,
    pub entries: int,
    pub end: int,
}

/// The section at `at`: the identifier byte, the length of what follows,
/// and the number of entries, which is the first thing that follows.
pub open spec fn read_section(bytes: Seq<u8>, at: int) -> Option<Frame> {
    if at < 0 || at >= bytes.len() {
        None
    } else {
        match read_u(bytes, at + 1) {
            None => None,
            Some((size, start)) => match read_u(bytes, start) {
                None => None,
                Some((count, entries)) => if entries <= start + size <= bytes.len() {
                    Some(Frame { id: bytes[at], count, entries, end: start + size })
                } else {
                    None
                },
            },
        }
    }
}

/// The frame of the encoded section at `at`.
pub open spec fn frame_of(at: int, id: u8, count: nat, entries: Seq<u8>) -> Frame {
    Frame {
        id,
        count,
        entries: at + section_encoding(id, count, entries).len() - entries.len(),
        end: at + section_encoding(id, count, entries).len(),
    }
}

/// Reading an encoded section finds its identifier and the number of its
/// entries, and the entries in their place.
pub proof fn lemma_read_section(bytes: Seq<u8>, at: int, id: u8, count: nat, entries: Seq<u8>)
    requires
        holds_at(bytes, at, section_encoding(id, count, entries)),
    ensures
        read_section(bytes, at) == Some(frame_of(at, id, count, entries)),
        holds_at(bytes, frame_of(at, id, count, entries).entries, entries),
{
    let size = leb128_u(leb128_u(count).len() + entries.len());
    let head = seq![id];
    let whole = section_encoding(id, count, entries);
    assert(bytes.subrange(at, at + whole.len())[0] == whole[0]);
    lemma_holds_split(bytes, at, (head + size) + leb128_u(count), entries);
    lemma_holds_split(bytes, at, head + size, leb128_u(count));
    lemma_holds_split(bytes, at, head, size);
    lemma_read_u(bytes, at + 1, leb128_u(count).len() + entries.len());
    lemma_read_u(bytes, at + 1 + size.len(), count);
}

/// The type indices of `count` entries of a function section from `at` on,
/// and the position after them.
pub open spec fn read_functions(bytes: Seq<u8>, at: int, count: nat) -> Option<(Seq<nat>, int)>
    decreases count,
{
    if count == 0 {
        Some((Seq::empty(), at))
    } else {
        match read_functions(bytes, at, (count - 1) as nat) {
            None => None,
            Some((before, last)) => match read_u(bytes, last) {
                None => None,
                Some((index, end)) => Some((before.push(index), end)),
            },
        }
    }
}

/// Reading the entries of an encoded function section finds the type index
/// 0 once for each function.
pub proof fn lemma_read_functions(bytes: Seq<u8>, at: int, n: nat)
    requires
        holds_at(bytes, at, function_entries(n)),
    ensures
        read_functions(bytes, at, n) == Some((Seq::new(n, |i: int| 0nat), at + n)),
    decreases n,
{
    lemma_function_entries_len(n);
    if n > 0 {
        let before = (n - 1) as nat;
        lemma_function_entries_len(before);
        lemma_holds_split(bytes, at, function_entries(before), leb128_u(0));
        lemma_read_functions(bytes, at, before);
        lemma_read_u(bytes, at + before, 0);
    }
}

/// An export as a decoder finds it: the bytes of the name and the index.
pub struct ExportRead {
    pub name: Seq<u8>,
    pub index: nat,
}

/// The export at `at` and the position after it: the length of the name,
/// the name, the kind byte of a function, and the index.
pub open spec fn read_export(bytes: Seq<u8>, at: int) -> Option<(ExportRead, int)> {
    match read_u(bytes, at) {
        None => None,
        Some((len, name)) => if name + len < bytes.len() && bytes[name + len]
            == ExportKind::Func.code() {
            match read_u(bytes, name + len + 1) {
                None => None,
                Some((index, end)) => Some(
                    (ExportRead { name: bytes.subrange(name, name + len), index }, end),
                ),
            }
        } else {
            None
        },
    }
}

/// `count` exports from `at` on, and the position after them.
pub open spec fn read_exports(bytes: Seq<u8>, at: int, count: nat) -> Option<
    (Seq<ExportRead>, int),
>
    decreases count,
{
    if count == 0 {
        Some((Seq::empty(), at))
    } else {
        match read_exports(bytes, at, (count - 1) as nat) {
            None => None,
            Some((before, last)) => match read_export(bytes, last) {
                None => None,
                Some((export, end)) => Some((before.push(export), end)),
            },
        }
    }
}

/// What a decoder finds of an export: the name in UTF-8 and the index.
pub open spec fn export_read_of(e: ExportView) -> ExportRead {
    ExportRead { name: encode_utf8(e.name), index: e.index as nat }
}

/// Reading an encoded export finds its name and its index.
pub proof fn lemma_read_export(bytes: Seq<u8>, at: int, e: ExportView)
    requires
        holds_at(bytes, at, export_encoding(e.name, ExportKind::Func, e.index)),
    ensures
        read_export(bytes, at) == Some(
            (export_read_of(e), at + export_encoding(e.name, ExportKind::Func, e.index).len()),
        ),
{
    let name = encode_utf8(e.name);
    let len = leb128_u(name.len());
    let kind = seq![0x00u8];
    let index = leb128_u(e.index as nat);
    lemma_holds_split(bytes, at, (len + name) + kind, index);
    lemma_holds_split(bytes, at, len + name, kind);
    lemma_holds_split(bytes, at, len, name);
    lemma_read_u(bytes, at, name.len());
    let start = at + len.len();
    assert(bytes.subrange(start + name.len(), start + name.len() + 1)[0] == kind[0]);
    lemma_read_u(bytes, start + name.len() + 1, e.index as nat);
}

/// Reading the entries of an encoded export section finds the exports, in
/// their order.
pub proof fn lemma_read_exports(bytes: Seq<u8>, at: int, exports: Seq<ExportView>)
    requires
        holds_at(bytes, at, export_entries(exports)),
    ensures
        read_exports(bytes, at, exports.len()) == Some(
            (
                exports.map_values(|e: ExportView| export_read_of(e)),
                at + export_entries(exports).len(),
            ),
        ),
    decreases exports.len(),
{
    let found = exports.map_values(|e: ExportView| export_read_of(e));
    if exports.len() > 0 {
        let before = exports.drop_last();
        let last = exports.last();
        lemma_holds_split(
            bytes,
            at,
            export_entries(before),
            export_encoding(last.name, ExportKind::Func, last.index),
        );
        lemma_read_exports(bytes, at, before);
        lemma_read_export(bytes, at + export_entries(before).len(), last);
        assert(before.map_values(|e: ExportView| export_read_of(e)).push(export_read_of(last))
            =~= found);
    }
}

/// The body at `at`, without its length, and the position after it.
pub open spec fn read_body(bytes: Seq<u8>, at: int) -> Option<(Seq<u8>, int)> {
    match read_u(bytes, at) {
        None => None,
        Some((len, start)) => if start + len <= bytes.len() {
            Some((bytes.subrange(start, start + len), start + len))
        } else {
            None
        },
    }
}

/// `count` bodies from `at` on, and the position after them.
pub open spec fn read_bodies(bytes: Seq<u8>, at: int, count: nat) -> Option<(Seq<Seq<u8>>, int)>
    decreases count,
{
    if count == 0 {
        Some((Seq::empty(), at))
    } else {
        match read_bodies(bytes, at, (count - 1) as nat) {
            None => None,
            Some((before, last)) => match read_body(bytes, last) {
                None => None,
                Some((body, end)) => Some((before.push(body), end)),
            },
        }
    }
}

/// Reading the entries of an encoded code section finds the bodies, in their
/// order.
pub proof fn lemma_read_bodies(bytes: Seq<u8>, at: int, bodies: Seq<Body>)
    requires
        holds_at(bytes, at, code_entries(bodies)),
    ensures
        read_bodies(bytes, at, bodies.len()) == Some(
            (bodies.map_values(|b: Body| b.encoding()), at + code_entries(bodies).len()),
        ),
    decreases bodies.len(),
{
    if bodies.len() > 0 {
        let before = bodies.drop_last();
        let last = bodies.last();
        lemma_holds_split(bytes, at, code_entries(before), last.entry());
        lemma_read_bodies(bytes, at, before);
        let start = at + code_entries(before).len();
        lemma_holds_split(bytes, start, leb128_u(last.encoding().len()), last.encoding());
        lemma_read_u(bytes, start, last.encoding().len());
    }
}

/// What a decoder finds in a binary module of this compiler.
pub struct Decoded {
    /// The number of types.
    pub types: nat,
    /// The type index of each function.
    pub functions: Seq<nat>,
    /// The exports.
    pub exports: Seq<ExportRead>,
    /// The body of each function.
    pub bodies: Seq<Seq<u8>>,
}

/// Reads a binary module: the magic number and the version, then the type,
/// function, export and code sections, each with all its entries and
/// nothing beside them, and nothing after the last.
pub open spec fn read_module(bytes: Seq<u8>) -> Option<Decoded> {
    if !holds_at(bytes, 0, preamble()) {
        None
    } else {
        match read_section(bytes, 8) {
            Some(types) if types.id == Section::Type.spec_id() => match read_section(
                bytes,
                types.end,
            ) {
                Some(functions) if functions.id == Section::Func.spec_id() => match read_section(
                    bytes,
                    functions.end,
                ) {
                    Some(exports) if exports.id == Section::Export.spec_id() => match read_section(
                        bytes,
                        exports.end,
                    ) {
                        Some(codes) if codes.id == Section::Code.spec_id() && codes.end
                            == bytes.len() => match (
                            read_functions(bytes, functions.entries, functions.count),
                            read_exports(bytes, exports.entries, exports.count),
                            read_bodies(bytes, codes.entries, codes.count),
                        ) {
                            (
                                Some((type_indices, functions_end)),
                                Some((found, exports_end)),
                                Some((bodies, codes_end)),
                            ) => if functions_end == functions.end && exports_end == exports.end
                                && codes_end == codes.end {
                                Some(
                                    Decoded {
                                        types: types.count,
                                        functions: type_indices,
                                        exports: found,
                                        bodies,
                                    },
                                )
                            } else {
                                None
                            },
                            _ => None,
                        },
                        _ => None,
                    },
                    _ => None,
                },
                _ => None,
            },
            _ => None,
        }
    }
}

impl ModuleView {
    /// What a decoder finds in the encoding of the module: one type, the
    /// type index 0 for each function, the exports with their names in
    /// UTF-8, and the body of each function.
    pub open spec fn decoded(self) -> Decoded {
        Decoded {
            types: 1,
            functions: Seq::new(self.bodies.len(), |i: int| 0nat),
            exports: self.exports.map_values(|e: ExportView| export_read_of(e)),
            bodies: self.bodies.map_values(|b: Body| b.encoding()),
        }
    }
}

/// The four sections of the encoding of a module, as the module builder
/// appends them.
pub open spec fn sections_of(m: ModuleView) -> (Seq<u8>, Seq<u8>, Seq<u8>, Seq<u8>) {
    (
        section_encoding(1, 1, type_entries()),
        section_encoding(3, m.bodies.len(), function_entries(m.bodies.len())),
        section_encoding(7, m.exports.len(), export_entries(m.exports)),
        section_encoding(10, m.bodies.len(), code_entries(m.bodies)),
    )
}

/// The positions at which the four sections of the encoding of a module
/// start, and the position at which the last one ends.
pub open spec fn positions_of(m: ModuleView) -> (int, int, int, int, int) {
    let (s1, s2, s3, s4) = sections_of(m);
    (
        8int,
        8int + s1.len(),
        8int + s1.len() + s2.len(),
        8int + s1.len() + s2.len() + s3.len(),
        8int + s1.len() + s2.len() + s3.len() + s4.len(),
    )
}

/// In the encoding of a module the magic number and the version stand at
/// the start, each section stands where the one before it ends, and the
/// last one ends with the encoding.
pub proof fn lemma_layout(m: ModuleView)
    ensures
        ({
            let bytes = m.encoding();
            let (s1, s2, s3, s4) = sections_of(m);
            let (p1, p2, p3, p4, end) = positions_of(m);
            &&& holds_at(bytes, 0, preamble())
            &&& holds_at(bytes, p1, s1)
            &&& holds_at(bytes, p2, s2)
            &&& holds_at(bytes, p3, s3)
            &&& holds_at(bytes, p4, s4)
            &&& bytes.len() == end
        }),
{
    let bytes = m.encoding();
    let n = m.bodies.len();
    let (s1, s2, s3, s4) = sections_of(m);
    lemma_section(Section::Type, 1, type_entries());
    lemma_section(Section::Func, n, function_entries(n));
    lemma_section(Section::Export, m.exports.len(), export_entries(m.exports));
    lemma_section(Section::Code, n, code_entries(m.bodies));
    assert(bytes.subrange(0, bytes.len() as int) == bytes);
    lemma_holds_split(bytes, 0, ((preamble() + s1) + s2) + s3, s4);
    lemma_holds_split(bytes, 0, (preamble() + s1) + s2, s3);
    lemma_holds_split(bytes, 0, preamble() + s1, s2);
    lemma_holds_split(bytes, 0, preamble(), s1);
}

/// The frames of the four sections of the encoding of a module.
pub open spec fn frames_of(m: ModuleView) -> (Frame, Frame, Frame, Frame) {
    let (p1, p2, p3, p4, _) = positions_of(m);
    (
        frame_of(p1, 1, 1, type_entries()),
        frame_of(p2, 3, m.bodies.len(), function_entries(m.bodies.len())),
        frame_of(p3, 7, m.exports.len(), export_entries(m.exports)),
        frame_of(p4, 10, m.bodies.len(), code_entries(m.bodies)),
    )
}

/// Reading the encoding of a module section by section finds the four
/// sections, each with its entries, and each ends where the next starts.
pub proof fn lemma_frames(m: ModuleView)
    ensures
        ({
            let bytes = m.encoding();
            let (types, functions, exports, codes) = frames_of(m);
            &&& holds_at(bytes, 0, preamble())
            &&& read_section(bytes, 8) == Some(types)
            &&& read_section(bytes, types.end) == Some(functions)
            &&& read_section(bytes, functions.end) == Some(exports)
            &&& read_section(bytes, exports.end) == Some(codes)
            &&& codes.end == bytes.len()
            &&& holds_at(bytes, functions.entries, function_entries(m.bodies.len()))
            &&& holds_at(bytes, exports.entries, export_entries(m.exports))
            &&& holds_at(bytes, codes.entries, code_entries(m.bodies))
            &&& functions.end == functions.entries + m.bodies.len()
            &&& exports.end == exports.entries + export_entries(m.exports).len()
            &&& codes.end == codes.entries + code_entries(m.bodies).len()
        }),
{
    let bytes = m.encoding();
    let n = m.bodies.len();
    let (p1, p2, p3, p4, _) = positions_of(m);
    lemma_layout(m);
    lemma_function_entries_len(n);
    lemma_read_section(bytes, p1, 1, 1, type_entries());
    lemma_read_section(bytes, p2, 3, n, function_entries(n));
    lemma_read_section(bytes, p3, 7, m.exports.len(), export_entries(m.exports));
    lemma_read_section(bytes, p4, 10, n, code_entries(m.bodies));
}

/// Decoding an encoded module gives back what was encoded: as many
/// functions and bodies as the module has, and every export with its name
/// and its index.
pub proof fn lemma_round_trip(m: ModuleView)
    ensures
        read_module(m.encoding()) == Some(m.decoded()),
        m.decoded().functions.len() == m.bodies.len(),
        m.decoded().bodies.len() == m.bodies.len(),
        m.decoded().exports.len() == m.exports.len(),
        forall|k: int|
            0 <= k < m.exports.len() ==> (#[trigger] m.decoded().exports[k]).index
                == m.exports[k].index,
{
    let bytes = m.encoding();
    let (_, functions, exports, codes) = frames_of(m);
    lemma_frames(m);
    lemma_read_functions(bytes, functions.entries, m.bodies.len());
    lemma_read_exports(bytes, exports.entries, m.exports);
    lemma_read_bodies(bytes, codes.entries, m.bodies);
}

/// What a decoder finds in a compiled tree follows the tree: one function
/// and one body for each declaration, in source order, and each export
/// under a name that the header exports, with the position of the first
/// declaration of that name as its index.
pub proof fn lemma_decoded_follows_tree(ast: ASTView)
    requires
        ast.decls.len() <= u32::MAX,
    ensures
        read_module(ast.lowered().encoding()) matches Some(found) && {
            &&& found.types == 1
            &&& found.functions.len() == ast.decls.len()
            &&& found.bodies.len() == ast.decls.len()
            &&& forall|i: int|
                0 <= i < ast.decls.len() ==> #[trigger] found.bodies[i] == ast.body(i).encoding()
            &&& forall|k: int|
                0 <= k < found.exports.len() ==> {
                    let e = #[trigger] found.exports[k];
                    let name = ast.decls[e.index as int].name;
                    &&& e.index < ast.decls.len()
                    &&& e.name == encode_utf8(name)
                    &&& ast.module.exports.contains(name)
                    &&& e.index == ast.index_of(name)
                }
            &&& forall|name: Seq<char>|
                ast.module.exports.contains(name) && #[trigger] ast.declares(name)
                    ==> exists|k: int|
                    0 <= k < found.exports.len() && (#[trigger] found.exports[k]).index
                        == ast.index_of(name)
        },
{
    let m = ast.lowered();
    lemma_round_trip(m);
    lemma_lowered_follows_source_order(ast);
    let found = m.decoded();
    assert forall|name: Seq<char>|
        ast.module.exports.contains(name) && #[trigger] ast.declares(name) implies exists|k: int|
        0 <= k < found.exports.len() && (#[trigger] found.exports[k]).index == ast.index_of(
            name,
        ) by {
        let k = choose|k: int| 0 <= k < m.exports.len() && (#[trigger] m.exports[k]).name == name;
        assert(found.exports[k].index == m.exports[k].index);
    }
}

} // verus!
