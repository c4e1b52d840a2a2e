//! The binary module: what a validated syntax tree is lowered to, and its
//! encoding.

pub mod bin;
pub mod decode;
pub mod encoder;

use vstd::prelude::*;
use vstd::utf8::encode_utf8;
use crate::ast::{Expr, AST};
use crate::wasm::bin::{
    leb128_i32_size, leb128_u, leb128_u32_size, lemma_leb128_s_len, lemma_leb128_u_len,
    preamble, ExportKind, Instruction, Section, ValType, WASM,
};
use crate::wasm::encoder::{
    code_section_bytes, code_section_count, code_section_function, code_section_new,
    export_encoding, export_section_bytes, export_section_count, export_section_export,
    export_section_new, func_type_encoding, function_bytes, function_instruction, function_new,
    function_section_bytes, function_section_count, function_section_function,
    function_section_new, locals_encoding, module_code_section, module_export_section,
    module_finish, module_function_section, module_new, module_type_section, section_encoding,
    section_fits, type_section_bytes, type_section_function, type_section_new,
};

verus! {

/// What a function does before it returns: every function takes no argument
/// and returns one 32-bit integer.
#[derive(Clone, Copy, Debug, PartialEq, Eq, Structural)]
pub enum Body {
    /// Pushes the constant.
    Const(i32),
    /// Calls the function with the given index.
    Call(u32),
}

impl Body {
    /// The instruction that computes the function's result.
    pub open spec fn instruction(self) -> Instruction {
        match self {
            Body::Const(v) => Instruction::I32Const(v),
            Body::Call(index) => Instruction::Call(index),
        }
    }

    /// A function body as the code section holds it after its length: no
    /// locals, the instruction, a return and the end of the body.
    pub open spec fn encoding(self) -> Seq<u8> {
        locals_encoding(Seq::empty()) + self.instruction().encoding()
            + Instruction::Return.encoding() + Instruction::End.encoding()
    }

    /// An entry of the code section: the body with its length in front.
    pub open spec fn entry(self) -> Seq<u8> {
        leb128_u(self.encoding().len()) + self.encoding()
    }
}

/// An exported function: the name that the outside sees, and the function's
/// index.
#[derive(Debug)]
pub struct Export {
    pub name: String,
    pub index: u32,
}

/// The mathematical model of an [`Export`].
pub struct ExportView {
    pub name: Seq<char>,
    pub index: u32,
}

impl View for Export {
    type V = ExportView;

    open spec fn view(&self) -> ExportView {
        ExportView { name: self.name@, index: self.index }
    }
}

/// A module ready to be encoded: one body for each function, in the order
/// of their indices, and the exports.
#[derive(Debug)]
pub struct Module {
    pub(crate) bodies: Vec<Body>,
    pub(crate) exports: Vec<Export>,
}

/// The mathematical model of a [`Module`].
pub struct ModuleView {
    pub bodies: Seq<Body>,
    pub exports: Seq<ExportView>,
}

impl View for Module {
    type V = ModuleView;

    closed spec fn view(&self) -> ModuleView {
        ModuleView { bodies: self.bodies@, exports: self.exports@.map_values(|e: Export| e@) }
    }
}

/// The entries of the type section: the one type that all functions have,
/// no parameter and an `i32` result.
pub open spec fn type_entries() -> Seq<u8> {
    func_type_encoding(Seq::empty(), seq![ValType::I32])
}

/// The entries of the function section of `n` functions: for each the type
/// index 0.
pub open spec fn function_entries(n: nat) -> Seq<u8>
    decreases n,
{
    if n == 0 {
        Seq::empty()
    } else {
        function_entries((n - 1) as nat) + leb128_u(0)
    }
}

/// The entries of the export section, in the order of `exports`: each is
/// the export of a function.
pub open spec fn export_entries(exports: Seq<ExportView>) -> Seq<u8>
    decreases exports.len(),
{
    if exports.len() == 0 {
        Seq::empty()
    } else {
        export_entries(exports.drop_last()) + export_encoding(
            exports.last().name,
            ExportKind::Func,
            exports.last().index,
        )
    }
}

/// The entries of the code section, in the order of `bodies`.
pub open spec fn code_entries(bodies: Seq<Body>) -> Seq<u8>
    decreases bodies.len(),
{
    if bodies.len() == 0 {
        Seq::empty()
    } else {
        code_entries(bodies.drop_last()) + bodies.last().entry()
    }
}

/// A section of a module: the identifier of its kind, then the length of
/// what follows, the number of entries, and the entries.
pub open spec fn section(kind: Section, count: nat, entries: Seq<u8>) -> Seq<u8> {
    kind.spec_encode(
        leb128_u(leb128_u(count).len() + entries.len()) + leb128_u(count) + entries,
    )
}

/// A section is what the module builder appends for a section builder of
/// its kind.
pub proof fn lemma_section(kind: Section, count: nat, entries: Seq<u8>)
    ensures
        section(kind, count, entries) == section_encoding(kind.spec_id(), count, entries),
{
}

impl ModuleView {
    /// The binary module: the magic number and the version, then the type,
    /// function, export and code sections, in that order.
    pub open spec fn encoding(self) -> Seq<u8> {
        preamble() + section(Section::Type, 1, type_entries()) + section(
            Section::Func,
            self.bodies.len(),
            function_entries(self.bodies.len()),
        ) + section(Section::Export, self.exports.len(), export_entries(self.exports)) + section(
            Section::Code,
            self.bodies.len(),
            code_entries(self.bodies),
        )
    }

    /// Whether the module can be encoded: the length of each section has to
    /// fit in 32 bits.
    pub open spec fn encodable(self) -> bool {
        &&& section_fits(self.bodies.len(), function_entries(self.bodies.len()))
        &&& section_fits(self.exports.len(), export_entries(self.exports))
        &&& section_fits(self.bodies.len(), code_entries(self.bodies))
    }

    /// Whether every index points at a function of the module.
    pub open spec fn closed_under_indices(self) -> bool {
        &&& forall|i: int|
            0 <= i < self.bodies.len() ==> (#[trigger] self.bodies[i] matches Body::Call(f) ==> f
                < self.bodies.len())
        &&& forall|i: int|
            0 <= i < self.exports.len() ==> (#[trigger] self.exports[i]).index
                < self.bodies.len()
    }
}

/// The one function type takes four bytes.
pub proof fn lemma_type_entries_len()
    ensures
        type_entries().len() == 4,
{
    lemma_leb128_u_len(0);
    lemma_leb128_u_len(1);
}

/// The function section takes one byte for each function.
pub proof fn lemma_function_entries_len(n: nat)
    ensures
        function_entries(n).len() == n,
    decreases n,
{
    if n > 0 {
        lemma_function_entries_len((n - 1) as nat);
    }
}

/// The entries of the first `i` exports are a part of the entries of all,
/// and each export takes at least as many bytes as its name, and three more.
pub proof fn lemma_export_entries_prefix(exports: Seq<ExportView>, i: int)
    requires
        0 <= i <= exports.len(),
    ensures
        export_entries(exports.take(i)).len() <= export_entries(exports).len(),
        3 * i <= export_entries(exports.take(i)).len(),
        i < exports.len() ==> export_entries(exports.take(i + 1)) == export_entries(
            exports.take(i),
        ) + export_encoding(exports[i].name, ExportKind::Func, exports[i].index),
        i < exports.len() ==> export_entries(exports.take(i)).len() + encode_utf8(
            exports[i].name,
        ).len() + 3 <= export_entries(exports).len(),
    decreases exports.len() - i,
{
    lemma_export_entries_lower(exports.take(i));
    if i < exports.len() {
        assert(exports.take(i + 1).drop_last() == exports.take(i));
        lemma_leb128_u_len(encode_utf8(exports[i].name).len());
        lemma_leb128_u_len(exports[i].index as nat);
        lemma_export_entries_prefix(exports, i + 1);
    } else {
        assert(exports.take(i) == exports);
    }
}

/// Every export takes at least three bytes.
pub proof fn lemma_export_entries_lower(exports: Seq<ExportView>)
    ensures
        3 * exports.len() <= export_entries(exports).len(),
    decreases exports.len(),
{
    if exports.len() > 0 {
        lemma_export_entries_lower(exports.drop_last());
        lemma_leb128_u_len(encode_utf8(exports.last().name).len());
        lemma_leb128_u_len(exports.last().index as nat);
    }
}

/// A function body takes between five and nine bytes, and its entry one
/// more.
pub proof fn lemma_body_len(body: Body)
    ensures
        5 <= body.encoding().len() <= 9,
        body.entry().len() == body.encoding().len() + 1,
{
    lemma_leb128_u_len(0);
    match body {
        Body::Const(v) => lemma_leb128_s_len(v as int),
        Body::Call(f) => lemma_leb128_u_len(f as nat),
    }
    lemma_leb128_u_len(body.encoding().len());
}

/// The entries of the first `i` bodies are a part of the entries of all.
pub proof fn lemma_code_entries_prefix(bodies: Seq<Body>, i: int)
    requires
        0 <= i <= bodies.len(),
    ensures
        code_entries(bodies.take(i)).len() <= code_entries(bodies).len(),
        6 * i <= code_entries(bodies.take(i)).len(),
        i < bodies.len() ==> code_entries(bodies.take(i + 1)) == code_entries(bodies.take(i))
            + bodies[i].entry(),
    decreases bodies.len() - i,
{
    lemma_code_entries_lower(bodies.take(i));
    if i < bodies.len() {
        assert(bodies.take(i + 1).drop_last() == bodies.take(i));
        lemma_body_len(bodies[i]);
        lemma_code_entries_prefix(bodies, i + 1);
    } else {
        assert(bodies.take(i) == bodies);
    }
}

/// Every code entry takes at least six bytes.
pub proof fn lemma_code_entries_lower(bodies: Seq<Body>)
    ensures
        6 * bodies.len() <= code_entries(bodies).len(),
    decreases bodies.len(),
{
    if bodies.len() > 0 {
        lemma_code_entries_lower(bodies.drop_last());
        lemma_body_len(bodies.last());
    }
}

impl Body {
    /// The number of bytes of the body's entry in the code section.
    pub fn entry_size(&self) -> (len: usize)
        ensures
            len == self.entry().len(),
            6 <= len <= 10,
    {
        proof {
            lemma_body_len(*self);
            lemma_leb128_u_len(0);
        }
        match self {
            Body::Const(v) => 1 + 1 + (1 + leb128_i32_size(*v)) + 1 + 1,
            Body::Call(f) => 1 + 1 + (1 + leb128_u32_size(*f)) + 1 + 1,
        }
    }
}

impl Module {
    /// Lowers a syntax tree: each declaration becomes a function at the
    /// index of its position, a name in a body the index of the first
    /// declaration of that name, and each name that the header exports an
    /// export of the first declaration of that name.
    pub fn from(ast: &AST) -> (module: Module)
        requires
            ast@.generable(),
        ensures
            module@ == ast@.lowered(),
            module@.closed_under_indices(),
    {
        let n = ast.decls.len();
        let mut bodies: Vec<Body> = Vec::new();
        let mut i: usize = 0;
        while i < n
            invariant
                i <= n,
                n == ast.decls.len(),
                ast@.generable(),
                bodies@.len() == i,
                forall|k: int| 0 <= k < i ==> bodies[k] == ast@.body(k),
                forall|k: int|
                    0 <= k < i ==> (#[trigger] bodies[k] matches Body::Call(f) ==> f < n),
            decreases n - i,
        {
            assert(ast@.resolved_at(i as int));
            let body = match &ast.decls[i].expr {
                Expr::I32(v) => Body::Const(*v),
                Expr::Name(id) => Body::Call(ast.get_expr_index_by_name(id) as u32),
                Expr::Func(_, _) => Body::Const(0),
            };
            bodies.push(body);
            i = i + 1;
        }
        let mut exports: Vec<Export> = Vec::new();
        let mut j: usize = 0;
        while j < n
            invariant
                j <= n,
                n == ast.decls.len(),
                n <= u32::MAX,
                exports@.map_values(|e: Export| e@) == ast@.exports_upto(j as nat),
                forall|k: int| 0 <= k < exports.len() ==> (#[trigger] exports[k]).index < n,
            decreases n - j,
        {
            let decl = &ast.decls[j];
            proof {
                assert(ast@.names()[j as int] == decl.name@);
            }
            if ast.module.is_exported(&decl.name) && ast.get_expr_index_by_name(&decl.name) == j {
                let export = Export { name: decl.name.clone(), index: j as u32 };
                exports.push(export);
            }
            j = j + 1;
        }
        let module = Module { bodies, exports };
        proof {
            assert(module@.bodies == ast@.lowered().bodies);
        }
        module
    }

    /// The number of functions of the module.
    pub fn function_count(&self) -> (n: usize)
        ensures
            n == self@.bodies.len(),
    {
        self.bodies.len()
    }

    /// The number of exports of the module.
    pub fn export_count(&self) -> (n: usize)
        ensures
            n == self@.exports.len(),
    {
        self.exports.len()
    }

    /// Whether the module can be encoded: whether each of its sections is
    /// short enough for its length to be written.
    pub fn is_encodable(&self) -> (b: bool)
        ensures
            b == self@.encodable(),
    {
        let n = self.bodies.len();
        proof {
            lemma_function_entries_len(n as nat);
            lemma_leb128_u_len(n as nat);
            lemma_leb128_u_len(self.exports@.len());
        }
        if n >= 0xffff_ffff {
            return false;
        }
        if leb128_u32_size(n as u32) as u64 + n as u64 > 0xffff_ffff {
            return false;
        }
        let ghost exports = self@.exports;
        let m = self.exports.len();
        if m >= 0xffff_ffff {
            proof {
                lemma_export_entries_lower(exports);
            }
            return false;
        }
        let mut export_bytes: u64 = 0;
        let mut i: usize = 0;
        while i < m
            invariant
                i <= m,
                m == self.exports.len(),
                exports == self@.exports,
                exports.len() == m,
                export_bytes == export_entries(exports.take(i as int)).len(),
                export_bytes <= 0xffff_ffff,
            decreases m - i,
        {
            let e = &self.exports[i];
            let name_len = e.name.as_str().as_bytes().len();
            proof {
                lemma_export_entries_prefix(exports, i as int);
                lemma_leb128_u_len(encode_utf8(e.name@).len());
            }
            if name_len > 0xffff_ffff {
                return false;
            }
            let entry_len = leb128_u32_size(name_len as u32) as u64 + name_len as u64 + 1
                + leb128_u32_size(e.index) as u64;
            proof {
                let utf8 = encode_utf8(e.name@);
                assert(export_encoding(e.name@, ExportKind::Func, e.index).len() == leb128_u(
                    utf8.len(),
                ).len() + utf8.len() + 1 + leb128_u(e.index as nat).len());
                assert(export_entries(exports.take(i as int + 1)).len() == export_bytes
                    + entry_len);
            }
            export_bytes = export_bytes + entry_len;
            if export_bytes > 0xffff_ffff {
                proof {
                    lemma_export_entries_prefix(exports, i as int + 1);
                }
                return false;
            }
            i = i + 1;
        }
        assert(exports.take(m as int) == exports);
        if leb128_u32_size(m as u32) as u64 + export_bytes > 0xffff_ffff {
            return false;
        }
        let mut code_bytes: u64 = 0;
        let mut j: usize = 0;
        while j < n
            invariant
                j <= n,
                n == self.bodies.len(),
                code_bytes == code_entries(self.bodies@.take(j as int)).len(),
                code_bytes <= 0xffff_ffff,
            decreases n - j,
        {
            proof {
                lemma_code_entries_prefix(self.bodies@, j as int);
            }
            code_bytes = code_bytes + self.bodies[j].entry_size() as u64;
            if code_bytes > 0xffff_ffff {
                proof {
                    lemma_code_entries_prefix(self.bodies@, j as int + 1);
                }
                return false;
            }
            j = j + 1;
        }
        assert(self.bodies@.take(n as int) == self.bodies@);
        leb128_u32_size(n as u32) as u64 + code_bytes <= 0xffff_ffff
    }

    /// Encodes the module: the magic number and the version, then the type
    /// section with the one function type, the function section with one
    /// entry for each function, the export section and the code section.
    pub fn to_wasm(&self) -> (bytes: WASM)
        requires
            self@.encodable(),
        ensures
            bytes@ == self@.encoding(),
    {
        let n = self.bodies.len();
        let ghost exports_view = self@.exports;
        proof {
            lemma_function_entries_len(n as nat);
            lemma_leb128_u_len(n as nat);
            lemma_leb128_u_len(self.exports@.len());
            lemma_export_entries_lower(exports_view);
        }
        let mut module = module_new();

        let mut types = type_section_new();
        let params: Vec<ValType> = Vec::new();
        let mut results: Vec<ValType> = Vec::new();
        results.push(ValType::I32);
        type_section_function(&mut types, &params, &results);
        proof {
            lemma_type_entries_len();
            lemma_leb128_u_len(1);
        }

        let mut functions = function_section_new();
        let mut i: usize = 0;
        while i < n
            invariant
                i <= n,
                n < u32::MAX,
                function_section_count(functions) == i,
                function_section_bytes(functions) == function_entries(i as nat),
            decreases n - i,
        {
            function_section_function(&mut functions, 0);
            i = i + 1;
        }

        let mut exports = export_section_new();
        let m = self.exports.len();
        let mut k: usize = 0;
        while k < m
            invariant
                k <= m,
                m == self.exports.len(),
                m < u32::MAX,
                exports_view == self@.exports,
                exports_view.len() == m,
                export_entries(exports_view).len() <= u32::MAX,
                export_section_count(exports) == k,
                export_section_bytes(exports) == export_entries(exports_view.take(k as int)),
            decreases m - k,
        {
            let e = &self.exports[k];
            proof {
                lemma_export_entries_prefix(exports_view, k as int);
            }
            export_section_export(&mut exports, e.name.as_str(), ExportKind::Func, e.index);
            k = k + 1;
        }
        assert(exports_view.take(m as int) == exports_view);

        let mut codes = code_section_new();
        let mut j: usize = 0;
        while j < n
            invariant
                j <= n,
                n == self.bodies.len(),
                n < u32::MAX,
                code_section_count(codes) == j,
                code_section_bytes(codes) == code_entries(self.bodies@.take(j as int)),
            decreases n - j,
        {
            let locals: Vec<(u32, ValType)> = Vec::new();
            let mut f = function_new(&locals);
            match self.bodies[j] {
                Body::Const(v) => function_instruction(&mut f, Instruction::I32Const(v)),
                Body::Call(index) => function_instruction(&mut f, Instruction::Call(index)),
            }
            function_instruction(&mut f, Instruction::Return);
            function_instruction(&mut f, Instruction::End);
            proof {
                lemma_body_len(self.bodies[j as int]);
                lemma_code_entries_prefix(self.bodies@, j as int);
            }
            code_section_function(&mut codes, &f);
            j = j + 1;
        }
        assert(self.bodies@.take(n as int) == self.bodies@);

        proof {
            lemma_section(Section::Type, 1, type_entries());
            lemma_section(Section::Func, n as nat, function_entries(n as nat));
            lemma_section(Section::Export, m as nat, export_entries(exports_view));
            lemma_section(Section::Code, n as nat, code_entries(self.bodies@));
        }
        module_type_section(&mut module, &types);
        module_function_section(&mut module, &functions);
        module_export_section(&mut module, &exports);
        module_code_section(&mut module, &codes);
        module_finish(module)
    }
}

} // verus!
