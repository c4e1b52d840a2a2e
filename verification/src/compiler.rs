//! The pipeline: from a source text to a binary module, or to the first
//! reason why there is none.

use vstd::prelude::*;
use crate::ast::{
    declarations_of, lemma_tree_keeps_source_order, lemma_well_typed_is_generable, ASTView,
    SemanticError, TypeMismatch, AST,
};
use crate::names::names_of;
use crate::wasm::decode::{lemma_decoded_follows_tree, read_module};
use crate::grammar::{parse_file, ChurchParser, SyntaxError};
use crate::parser::{Node, Rule};
use crate::wasm::Module;

verus! {

/// Why a source text was not compiled.
#[derive(Debug)]
pub enum CompileError {
    /// The text does not follow the grammar.
    Syntax(SyntaxError),
    /// The module clause exports names that no declaration has.
    Semantic(SemanticError),
    /// The body of a declaration is not an `I32`.
    Type(TypeMismatch),
    /// A section of the module would be longer than its length field can
    /// say.
    TooLarge,
}

/// Whether the module that a tree is compiled to can be written: whether its
/// indices and the lengths of its sections fit in 32 bits.
pub open spec fn fits(ast: ASTView) -> bool {
    ast.decls.len() <= u32::MAX && ast.lowered().encodable()
}

/// Compiles a source text. The stages follow each other, and the first
/// that fails decides the error: the text is parsed; the syntax tree is
/// built and every exported name has to be declared; the body of every
/// declaration has to be an `I32`, which a literal and the name of a
/// declaration are; the tree is lowered to a module and the module encoded.
pub fn compile(src: &str) -> (r: Result<Vec<u8>, CompileError>)
    ensures
        match parse_file(src@) {
            Err(at) => r matches Err(CompileError::Syntax(e)) && e.position == at,
            Ok(nodes) => {
                let ast = ASTView::of(nodes);
                if !ast.valid() {
                    &&& r matches Err(CompileError::Semantic(e))
                    &&& e.module@ == ast.module.name
                    &&& names_of(e.undeclared@).no_duplicates()
                    &&& names_of(e.undeclared@).to_set() == ast.undeclared_exports()
                } else if !ast.well_typed() {
                    &&& r matches Err(CompileError::Type(e))
                    &&& ast.mismatch(e.name@, e.expected, e.actual)
                } else if !fits(ast) {
                    r matches Err(CompileError::TooLarge)
                } else {
                    r matches Ok(bytes) && bytes@ == ast.lowered().encoding()
                }
            },
        },
{
    let pairs = match ChurchParser::parse(Rule::file, src) {
        Ok(pairs) => pairs,
        Err(e) => {
            return Err(CompileError::Syntax(e));
        },
    };
    let ast = match AST::try_from(&pairs) {
        Ok(ast) => ast,
        Err(e) => {
            return Err(CompileError::Semantic(e));
        },
    };
    match ast.check_types() {
        Ok(()) => {},
        Err(e) => {
            return Err(CompileError::Type(e));
        },
    }
    if ast.decls.len() > 0xffff_ffff {
        return Err(CompileError::TooLarge);
    }
    proof {
        lemma_well_typed_is_generable(ast@);
    }
    let module = Module::from(&ast);
    if !module.is_encodable() {
        return Err(CompileError::TooLarge);
    }
    Ok(module.to_wasm())
}

/// What a decoder finds in the module of a compiled text follows the text:
/// as many functions and bodies as the text has declarations, the body at
/// each position that of the declaration at that position in the text, and
/// each export with the position of a declaration in the text as its index.
pub proof fn lemma_compiled_follows_source(s: Seq<char>, nodes: Seq<Node>)
    requires
        parse_file(s) == Ok::<Seq<Node>, int>(nodes),
        fits(ASTView::of(nodes)),
    ensures
        ({
            let declarations = declarations_of(nodes);
            let ast = ASTView::of(nodes);
            &&& ast.decls == declarations
            &&& read_module(ast.lowered().encoding()) matches Some(found) && {
                &&& found.functions.len() == declarations.len()
                &&& found.bodies.len() == declarations.len()
                &&& forall|i: int|
                    0 <= i < declarations.len() ==> #[trigger] found.bodies[i] == ast.body(
                        i,
                    ).encoding()
                &&& forall|k: int|
                    0 <= k < found.exports.len() ==> {
                        let e = #[trigger] found.exports[k];
                        &&& e.index < declarations.len()
                        &&& ast.module.exports.contains(declarations[e.index as int].name)
                        &&& e.index == ast.index_of(declarations[e.index as int].name)
                    }
            }
        }),
{
    lemma_tree_keeps_source_order(nodes);
    lemma_decoded_follows_tree(ASTView::of(nodes));
}

} // verus!
