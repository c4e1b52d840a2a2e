//! The abstract syntax tree: how it is built from a parse tree, validated,
//! type-checked and compiled.

use vstd::prelude::*;
use crate::parser::{
    exports, id, integer, is_not_eoi, lemma_node_of, literal_value, node_of, nodes_of, texts, uid,
    Node, Pair, Rule,
};
use crate::names::{lemma_push_contains, lemma_push_distinct, names_of, NameSet};
use crate::types::{Env, Match, Type};
use crate::wasm::{Body, ExportView, Module, ModuleView};

verus! {

/// An expression: the body of a declaration.
#[derive(Debug, PartialEq, Eq)]
pub enum Expr {
    /// An integer literal, such as `-42`.
    I32(i32),
    /// A reference to a declaration by its name.
    Name(String),
    /// An abstraction: a parameter and a body.
    Func(String, Box<Expr>),
}

/// The mathematical model of an [`Expr`].
pub enum ExprView {
    I32(i32),
    Name(Seq<char>),
    Func(Seq<char>, Box<ExprView>),
}

/// The model of an expression: its identifiers as sequences of characters.
pub open spec fn expr_view(e: Expr) -> ExprView
    decreases e,
{
    match e {
        Expr::I32(i) => ExprView::I32(i),
        Expr::Name(id) => ExprView::Name(id@),
        Expr::Func(param, body) => ExprView::Func(param@, Box::new(expr_view(*body))),
    }
}

impl View for Expr {
    type V = ExprView;

    open spec fn view(&self) -> ExprView {
        expr_view(*self)
    }
}

/// The type that `name` has in `env`: `Unknown` where it has no binding.
pub open spec fn lookup(env: Map<Seq<char>, Type>, name: Seq<char>) -> Type {
    if env.contains_key(name) {
        env[name]
    } else {
        Type::Unknown
    }
}

/// Structural matching of an expression against the type `want` in `env`.
/// `Ok` means that the expression has exactly that type. `Err` carries the
/// actual type: a literal's own type, the type bound to a name, and for an
/// abstraction the wanted parameter type with what its body turned out to be.
pub open spec fn check_expr(e: ExprView, env: Map<Seq<char>, Type>, want: Type) -> Result<(), Type>
    decreases e,
{
    match e {
        ExprView::I32(_) => if want == Type::I32 {
            Ok(())
        } else {
            Err(Type::I32)
        },
        ExprView::Name(id) => if want == lookup(env, id) {
            Ok(())
        } else {
            Err(lookup(env, id))
        },
        ExprView::Func(param, body) => match want {
            Type::Func(param_type, body_type) => match check_expr(
                *body,
                env.insert(param, *param_type),
                *body_type,
            ) {
                Ok(()) => Ok(()),
                Err(got) => Err(Type::Func(param_type, Box::new(got))),
            },
            _ => Err(Type::Func(Box::new(Type::Unknown), Box::new(Type::Unknown))),
        },
    }
}

/// An integer literal has the type `I32` in every environment: it matches
/// `I32`, and against any other type the mismatch reports `I32`.
pub proof fn lemma_literal_is_i32(k: i32, env: Map<Seq<char>, Type>, want: Type)
    ensures
        check_expr(ExprView::I32(k), env, Type::I32) == Ok::<(), Type>(()),
        want != Type::I32 ==> check_expr(ExprView::I32(k), env, want) == Err::<(), Type>(
            Type::I32,
        ),
{
}

/// A name matches exactly the type that the environment binds it to. A name
/// without a binding has the type `Unknown`, which matches nothing but
/// `Unknown` itself: it is no wildcard.
pub proof fn lemma_name_has_its_binding(name: Seq<char>, env: Map<Seq<char>, Type>, want: Type)
    ensures
        env.contains_key(name) && env[name] == want ==> check_expr(
            ExprView::Name(name),
            env,
            want,
        ) == Ok::<(), Type>(()),
        env.contains_key(name) && env[name] != want ==> check_expr(
            ExprView::Name(name),
            env,
            want,
        ) == Err::<(), Type>(env[name]),
        !env.contains_key(name) && want != Type::Unknown ==> check_expr(
            ExprView::Name(name),
            env,
            want,
        ) == Err::<(), Type>(Type::Unknown),
        !env.contains_key(name) ==> check_expr(ExprView::Name(name), env, Type::Unknown) == Ok::<
            (),
            Type,
        >(()),
{
}

/// The body of an abstraction does not constrain the type of the parameter:
/// an abstraction whose body is a literal matches every function type that
/// returns `I32`.
pub proof fn lemma_parameter_is_unconstrained(
    param: Seq<char>,
    k: i32,
    env: Map<Seq<char>, Type>,
    param_type: Type,
)
    ensures
        check_expr(
            ExprView::Func(param, Box::new(ExprView::I32(k))),
            env,
            Type::Func(Box::new(param_type), Box::new(Type::I32)),
        ) == Ok::<(), Type>(()),
{
    let body = ExprView::I32(k);
    assert(check_expr(body, env.insert(param, param_type), Type::I32) == Ok::<(), Type>(()));
}

/// An abstraction is checked through its body, in the environment extended
/// by the parameter: it matches a function type where the body matches the
/// result type, and a mismatch in the body is reported with the wanted
/// parameter type in front. Against a type that is no function type the
/// mismatch reports a function between unknowns.
pub proof fn lemma_abstraction_follows_its_body(
    param: Seq<char>,
    body: ExprView,
    env: Map<Seq<char>, Type>,
    want: Type,
)
    ensures
        want matches Type::Func(param_type, body_type) ==> match check_expr(
            body,
            env.insert(param, *param_type),
            *body_type,
        ) {
            Ok(()) => check_expr(ExprView::Func(param, Box::new(body)), env, want) == Ok::<
                (),
                Type,
            >(()),
            Err(got) => check_expr(ExprView::Func(param, Box::new(body)), env, want) == Err::<
                (),
                Type,
            >(Type::Func(param_type, Box::new(got))),
        },
        !(want is Func) ==> check_expr(ExprView::Func(param, Box::new(body)), env, want) == Err::<
            (),
            Type,
        >(Type::Func(Box::new(Type::Unknown), Box::new(Type::Unknown))),
{
}

/// A mismatch never reports the wanted type itself.
pub proof fn lemma_mismatch_differs(e: ExprView, env: Map<Seq<char>, Type>, want: Type)
    ensures
        check_expr(e, env, want) matches Err(got) ==> got != want,
    decreases e,
{
    match e {
        ExprView::Func(param, body) => {
            match want {
                Type::Func(param_type, body_type) => {
                    lemma_mismatch_differs(*body, env.insert(param, *param_type), *body_type);
                },
                _ => {},
            }
        },
        _ => {},
    }
}

impl Match for Expr {
    open spec fn check_spec(&self, env: Map<Seq<char>, Type>, want: Type) -> Result<(), Type> {
        check_expr(self@, env, want)
    }

    fn check_type(&self, env: &Env, want: Type) -> (r: Result<(), Type>)
        decreases self,
    {
        match self {
            Expr::I32(_) => match want {
                Type::I32 => Ok(()),
                _ => Err(Type::I32),
            },
            Expr::Name(id) => {
                let got = match env.get(id) {
                    Some(t) => t.duplicate(),
                    None => Type::Unknown,
                };
                if want.same(&got) {
                    Ok(())
                } else {
                    Err(got)
                }
            },
            Expr::Func(param, body) => match want {
                Type::Func(param_type, body_type) => {
                    let inner = env.extended(param.clone(), param_type.duplicate());
                    match body.check_type(&inner, *body_type) {
                        Ok(()) => Ok(()),
                        Err(got) => Err(Type::Func(param_type, Box::new(got))),
                    }
                },
                _ => Err(Type::Func(Box::new(Type::Unknown), Box::new(Type::Unknown))),
            },
        }
    }
}

/// A declaration: a name and the expression that it stands for.
#[derive(Debug, PartialEq, Eq)]
pub struct Decl {
    pub name: String,
    pub expr: Expr,
}

/// The mathematical model of a [`Decl`].
pub struct DeclView {
    pub name: Seq<char>,
    pub expr: ExprView,
}

impl View for Decl {
    type V = DeclView;

    open spec fn view(&self) -> DeclView {
        DeclView { name: self.name@, expr: self.expr@ }
    }
}

impl Match for Decl {
    open spec fn check_spec(&self, env: Map<Seq<char>, Type>, want: Type) -> Result<(), Type> {
        check_expr(self.expr@, env, want)
    }

    fn check_type(&self, env: &Env, t: Type) -> (r: Result<(), Type>) {
        self.expr.check_type(env, t)
    }
}

/// The module header: the module's name, used in diagnostics only, and the
/// set of the names that it exports.
#[derive(Debug)]
pub struct Header {
    pub name: String,
    pub exports: NameSet,
}

/// The mathematical model of a [`Header`].
pub struct HeaderView {
    pub name: Seq<char>,
    pub exports: Set<Seq<char>>,
}

impl View for Header {
    type V = HeaderView;

    open spec fn view(&self) -> HeaderView {
        HeaderView { name: self.name@, exports: self.exports@ }
    }
}

impl Default for Header {
    /// The header of a program without a module clause: no name, no export.
    fn default() -> (h: Header)
        ensures
            h@.name == Seq::<char>::empty(),
            h@.exports == Set::<Seq<char>>::empty(),
    {
        Header { name: String::new(), exports: NameSet::new() }
    }
}

impl Header {
    /// Whether the header exports `name`.
    pub fn is_exported(&self, name: &String) -> (b: bool)
        ensures
            b == self@.exports.contains(name@),
    {
        self.exports.contains(name)
    }
}

/// The abstract syntax tree of a program: its header and its declarations
/// in source order. The position of a declaration is the index of the
/// function that it is compiled to.
#[derive(Debug)]
pub struct AST {
    pub module: Header,
    pub decls: Vec<Decl>,
}

/// The mathematical model of an [`AST`].
pub struct ASTView {
    pub module: HeaderView,
    pub decls: Seq<DeclView>,
}

impl View for AST {
    type V = ASTView;

    open spec fn view(&self) -> ASTView {
        ASTView { module: self.module@, decls: self.decls@.map_values(|d: Decl| d@) }
    }
}

impl Default for AST {
    /// The empty program.
    fn default() -> (ast: AST)
        ensures
            ast@.module.name == Seq::<char>::empty(),
            ast@.module.exports == Set::<Seq<char>>::empty(),
            ast@.decls == Seq::<DeclView>::empty(),
    {
        AST { module: Header::default(), decls: Vec::new() }
    }
}

impl ASTView {
    /// The names of the declarations, in source order.
    pub open spec fn names(self) -> Seq<Seq<char>> {
        self.decls.map_values(|d: DeclView| d.name)
    }

    /// Whether a declaration has the name `name`.
    pub open spec fn declares(self, name: Seq<char>) -> bool {
        self.names().contains(name)
    }

    /// The index of the function that `name` stands for: the position of the
    /// first declaration with that name.
    pub open spec fn index_of(self, name: Seq<char>) -> int {
        self.names().index_of_first(name).unwrap()
    }

    /// The exported names that no declaration has.
    pub open spec fn undeclared_exports(self) -> Set<Seq<char>> {
        self.module.exports.filter(|name: Seq<char>| !self.declares(name))
    }

    /// The invariant of a validated tree: every exported name is declared.
    pub open spec fn valid(self) -> bool {
        forall|name: Seq<char>| self.module.exports.contains(name) ==> self.declares(name)
    }

    /// The environment in which declarations are checked: every declared
    /// name is an `I32`, since every declaration is compiled to a function
    /// that returns one.
    pub open spec fn global_env(self) -> Map<Seq<char>, Type> {
        Map::new(|name: Seq<char>| self.declares(name), |name: Seq<char>| Type::I32)
    }

    /// Whether the body of the declaration at `i` is an `I32`.
    pub open spec fn well_typed_at(self, i: int) -> bool {
        check_expr(self.decls[i].expr, self.global_env(), Type::I32) is Ok
    }

    /// Whether the body of every declaration is an `I32`.
    pub open spec fn well_typed(self) -> bool {
        forall|i: int| 0 <= i < self.decls.len() ==> self.well_typed_at(i)
    }

    /// Whether the declaration at `i` can be compiled: its body is a
    /// literal, or the name of a declaration.
    pub open spec fn resolved_at(self, i: int) -> bool {
        match self.decls[i].expr {
            ExprView::I32(_) => true,
            ExprView::Name(id) => self.declares(id),
            ExprView::Func(_, _) => false,
        }
    }

    /// Whether the tree can be compiled: every body is a literal or the name
    /// of a declaration, and the positions of the declarations fit in 32
    /// bits.
    pub open spec fn generable(self) -> bool {
        &&& self.decls.len() <= u32::MAX
        &&& forall|i: int| 0 <= i < self.decls.len() ==> self.resolved_at(i)
    }

    /// Whether the type check stops with the given mismatch: `name` is the
    /// first declaration whose body is not an `I32`, which was expected of
    /// it, and `actual` is what the body was found to be.
    pub open spec fn mismatch(self, name: Seq<char>, expected: Type, actual: Type) -> bool {
        exists|i: int|
            {
                &&& 0 <= i < self.decls.len()
                &&& forall|j: int| 0 <= j < i ==> self.well_typed_at(j)
                &&& name == (#[trigger] self.decls[i]).name
                &&& expected == Type::I32
                &&& check_expr(self.decls[i].expr, self.global_env(), Type::I32) == Err::<
                    (),
                    Type,
                >(actual)
            }
    }

    /// The body of the function that the declaration at `i` is compiled to:
    /// a literal is pushed, a name becomes a call of the function that it
    /// stands for.
    pub open spec fn body(self, i: int) -> Body {
        match self.decls[i].expr {
            ExprView::I32(v) => Body::Const(v),
            ExprView::Name(id) => Body::Call(self.index_of(id) as u32),
            ExprView::Func(_, _) => Body::Const(0),
        }
    }

    /// Whether the declaration at `i` is exported: the header exports its
    /// name, and it is the first declaration with that name.
    pub open spec fn exported_at(self, i: int) -> bool {
        self.module.exports.contains(self.decls[i].name) && self.index_of(self.decls[i].name) == i
    }

    /// The exports of the first `n` declarations, in source order: each
    /// exported declaration under its name, with its position as the
    /// function's index.
    pub open spec fn exports_upto(self, n: nat) -> Seq<ExportView>
        decreases n,
    {
        if n == 0 {
            Seq::empty()
        } else {
            let before = self.exports_upto((n - 1) as nat);
            let d = self.decls[n - 1];
            if self.exported_at(n - 1) {
                before.push(ExportView { name: d.name, index: (n - 1) as u32 })
            } else {
                before
            }
        }
    }

    /// The module that the tree is compiled to: one function for each
    /// declaration, in source order, and the exports.
    pub open spec fn lowered(self) -> ModuleView {
        ModuleView {
            bodies: Seq::new(self.decls.len(), |i: int| self.body(i)),
            exports: self.exports_upto(self.decls.len()),
        }
    }
}

/// Exporting a name that no declaration has makes a tree invalid, whatever
/// else it declares.
pub proof fn lemma_undeclared_export_is_invalid(ast: ASTView, name: Seq<char>)
    requires
        ast.module.exports.contains(name),
        !ast.declares(name),
    ensures
        !ast.valid(),
        ast.undeclared_exports().contains(name),
{
}

/// A tree is valid exactly where no exported name lacks a declaration.
pub proof fn lemma_valid_has_nothing_undeclared(ast: ASTView)
    ensures
        ast.valid() <==> ast.undeclared_exports() == Set::<Seq<char>>::empty(),
{
    if ast.valid() {
        assert(ast.undeclared_exports() =~= Set::<Seq<char>>::empty());
    } else {
        let name = choose|name: Seq<char>|
            ast.module.exports.contains(name) && !ast.declares(name);
        assert(ast.undeclared_exports().contains(name));
    }
}

/// A tree without exports is valid.
pub proof fn lemma_no_export_is_valid(ast: ASTView)
    requires
        ast.module.exports == Set::<Seq<char>>::empty(),
    ensures
        ast.valid(),
{
}

/// The declarations that pass the type check are those that can be
/// compiled: a body is an `I32` exactly where it is a literal or the name of
/// a declaration.
pub proof fn lemma_well_typed_is_resolved(ast: ASTView, i: int)
    requires
        0 <= i < ast.decls.len(),
    ensures
        ast.well_typed_at(i) <==> ast.resolved_at(i),
{
}

/// A tree that passes the type check can be compiled, if the positions of
/// its declarations fit in 32 bits.
pub proof fn lemma_well_typed_is_generable(ast: ASTView)
    ensures
        ast.generable() <==> ast.well_typed() && ast.decls.len() <= u32::MAX,
{
    assert forall|i: int| 0 <= i < ast.decls.len() implies (ast.well_typed_at(i)
        <==> ast.resolved_at(i)) by {
        lemma_well_typed_is_resolved(ast, i);
    }
}

/// The exports of the first `n` declarations: each stands for an exported
/// name and points at the first declaration with that name, the positions
/// grow, and no exported declaration is left out.
pub proof fn lemma_exports_upto(ast: ASTView, n: nat)
    requires
        n <= ast.decls.len() <= u32::MAX,
    ensures
        ast.exports_upto(n).len() <= n,
        forall|k: int|
            0 <= k < ast.exports_upto(n).len() ==> {
                let e = #[trigger] ast.exports_upto(n)[k];
                &&& e.index < n
                &&& ast.decls[e.index as int].name == e.name
                &&& ast.exported_at(e.index as int)
            },
        forall|j: int, k: int|
            0 <= j < k < ast.exports_upto(n).len() ==> (#[trigger] ast.exports_upto(n)[j]).index
                < (#[trigger] ast.exports_upto(n)[k]).index,
        forall|i: int|
            0 <= i < n && #[trigger] ast.exported_at(i) ==> exists|k: int|
                0 <= k < ast.exports_upto(n).len() && (#[trigger] ast.exports_upto(n)[k]).index
                    == i,
    decreases n,
{
    if n > 0 {
        let before = ast.exports_upto((n - 1) as nat);
        let now = ast.exports_upto(n);
        lemma_exports_upto(ast, (n - 1) as nat);
        assert forall|i: int| 0 <= i < n && #[trigger] ast.exported_at(i) implies exists|k: int|
            0 <= k < now.len() && (#[trigger] now[k]).index == i by {
            if i < n - 1 {
                let k = choose|k: int| 0 <= k < before.len() && (#[trigger] before[k]).index == i;
                assert(now[k] == before[k]);
            } else {
                assert(now[before.len() as int].index == i);
            }
        }
    }
}

/// What a tree is compiled to: as many functions as it has declarations,
/// the function at each position that of the declaration there; and the
/// exports in source order, each under an exported name, with the position
/// of the first declaration of that name as its index, and no two under one
/// name.
pub proof fn lemma_lowered_follows_source_order(ast: ASTView)
    requires
        ast.decls.len() <= u32::MAX,
    ensures
        ast.lowered().bodies.len() == ast.decls.len(),
        forall|i: int|
            0 <= i < ast.decls.len() ==> #[trigger] ast.lowered().bodies[i] == ast.body(i),
        ast.lowered().exports.len() <= ast.decls.len(),
        forall|k: int|
            0 <= k < ast.lowered().exports.len() ==> {
                let e = #[trigger] ast.lowered().exports[k];
                &&& e.index < ast.decls.len()
                &&& ast.decls[e.index as int].name == e.name
                &&& ast.module.exports.contains(e.name)
                &&& e.index == ast.index_of(e.name)
            },
        forall|j: int, k: int|
            0 <= j < k < ast.lowered().exports.len() ==> {
                &&& (#[trigger] ast.lowered().exports[j]).index < (
                #[trigger] ast.lowered().exports[k]).index
                &&& ast.lowered().exports[j].name != ast.lowered().exports[k].name
            },
        forall|name: Seq<char>|
            ast.module.exports.contains(name) && #[trigger] ast.declares(name) ==> exists|k: int|
                0 <= k < ast.lowered().exports.len() && (#[trigger] ast.lowered().exports[k]).name
                    == name,
{
    let all = ast.lowered().exports;
    lemma_exports_upto(ast, ast.decls.len());
    assert forall|name: Seq<char>|
        ast.module.exports.contains(name) && #[trigger] ast.declares(name) implies exists|k: int|
        0 <= k < all.len() && (#[trigger] all[k]).name == name by {
        ast.names().index_of_first_ensures(name);
        let i = ast.index_of(name);
        assert(ast.exported_at(i));
        let k = choose|k: int| 0 <= k < all.len() && (#[trigger] all[k]).index == i;
    }
}

/// The names under which a compiled tree exports.
pub open spec fn export_names(ast: ASTView) -> Seq<Seq<char>> {
    ast.lowered().exports.map_values(|e: ExportView| e.name)
}

/// A valid tree is compiled to one export for each name that its header
/// exports.
pub proof fn lemma_one_export_for_each_name(ast: ASTView)
    requires
        ast.valid(),
        ast.decls.len() <= u32::MAX,
    ensures
        export_names(ast).no_duplicates(),
        export_names(ast).to_set() == ast.module.exports,
        ast.lowered().exports.len() == ast.module.exports.len(),
{
    let names = export_names(ast);
    let all = ast.lowered().exports;
    lemma_lowered_follows_source_order(ast);
    assert forall|name: Seq<char>| names.to_set().contains(name) <==> ast.module.exports.contains(
        name,
    ) by {
        if names.to_set().contains(name) {
            let k = choose|k: int| 0 <= k < names.len() && names[k] == name;
        }
        if ast.module.exports.contains(name) {
            assert(ast.declares(name));
            let k = choose|k: int| 0 <= k < all.len() && (#[trigger] all[k]).name == name;
            assert(names[k] == name);
        }
    }
    names.unique_seq_to_set();
}

/// In a tree that can be compiled, a call goes to the first declaration
/// with the name that the body holds.
pub proof fn lemma_calls_resolve(ast: ASTView, i: int)
    requires
        ast.generable(),
        0 <= i < ast.decls.len(),
    ensures
        ast.decls[i].expr matches ExprView::Name(id) ==> {
            &&& ast.body(i) == Body::Call(ast.index_of(id) as u32)
            &&& 0 <= ast.index_of(id) < ast.decls.len()
            &&& ast.decls[ast.index_of(id)].name == id
            &&& forall|j: int| 0 <= j < ast.index_of(id) ==> (#[trigger] ast.decls[j]).name != id
        },
        ast.decls[i].expr matches ExprView::I32(v) ==> ast.body(i) == Body::Const(v),
{
    assert(ast.resolved_at(i));
    match ast.decls[i].expr {
        ExprView::Name(id) => {
            ast.names().index_of_first_ensures(id);
            let at = ast.index_of(id);
            assert forall|j: int| 0 <= j < at implies (#[trigger] ast.decls[j]).name != id by {
                assert(ast.names()[j] != id);
            }
        },
        _ => {},
    }
}

/// A declaration whose body is not an `I32`: its name, the type that was
/// expected of it and the type that was found.
#[derive(Debug)]
pub struct TypeMismatch {
    pub name: String,
    pub expected: Type,
    pub actual: Type,
}

/// What is wrong with a tree whose header exports names that no declaration
/// has: the module's name and all of those names.
#[derive(Debug)]
pub struct SemanticError {
    pub module: String,
    pub undeclared: Vec<String>,
}

/// Validation of a value: `validate` says what is wrong with it, `is_valid`
/// only whether anything is.
pub trait Valid {
    type Error;

    /// Whether the value is valid.
    spec fn valid(&self) -> bool;

    /// `Ok` where the value is valid, else the reason why it is not.
    fn validate(&self) -> (r: Result<(), Self::Error>)
        ensures
            r is Ok <==> self.valid(),
    ;

    /// Whether the value is valid.
    fn is_valid(&self) -> (b: bool)
        ensures
            b == self.valid(),
    {
        self.validate().is_ok()
    }
}

impl Valid for AST {
    type Error = SemanticError;

    open spec fn valid(&self) -> bool {
        self@.valid()
    }

    fn validate(&self) -> (r: Result<(), SemanticError>)
        ensures
            r matches Err(e) ==> {
                &&& e.module@ == self@.module.name
                &&& names_of(e.undeclared@).no_duplicates()
                &&& names_of(e.undeclared@).to_set() == self@.undeclared_exports()
            },
    {
        self.is_valid_exports()
    }
}

impl AST {
    /// The position of the first declaration with the name `name`, if there
    /// is one.
    pub fn find(&self, name: &String) -> (r: Option<usize>)
        ensures
            r is Some <==> self@.declares(name@),
            r matches Some(i) ==> i == self@.index_of(name@) && i < self.decls.len(),
    {
        let mut i: usize = 0;
        while i < self.decls.len()
            invariant
                i <= self.decls.len(),
                forall|j: int| 0 <= j < i ==> self.decls[j].name@ != name@,
            decreases self.decls.len() - i,
        {
            if self.decls[i].name == *name {
                proof {
                    assert(self@.names()[i as int] == name@);
                    self@.names().index_of_first_ensures(name@);
                }
                return Some(i);
            }
            i = i + 1;
        }
        None
    }

    /// The index of the function that `name` stands for: the position of the
    /// first declaration with that name.
    pub fn get_expr_index_by_name(&self, name: &String) -> (index: usize)
        requires
            self@.declares(name@),
        ensures
            index == self@.index_of(name@),
            index < self.decls.len(),
            self.decls[index as int].name@ == name@,
            forall|j: int| 0 <= j < index ==> self.decls[j].name@ != name@,
    {
        proof {
            self@.names().index_of_first_ensures(name@);
        }
        match self.find(name) {
            Some(index) => {
                assert forall|j: int| 0 <= j < index implies self.decls[j].name@ != name@ by {
                    assert(self@.names()[j] != name@);
                }
                index
            },
            None => 0,
        }
    }

    /// The environment in which declarations are checked: every declared
    /// name is an `I32`.
    pub fn global_env(&self) -> (env: Env)
        ensures
            env@ == self@.global_env(),
    {
        let mut env = Env::new();
        let mut i: usize = 0;
        while i < self.decls.len()
            invariant
                i <= self.decls.len(),
                forall|name: Seq<char>| #[trigger]
                    env@.contains_key(name) <==> self@.names().take(i as int).contains(name),
                forall|name: Seq<char>| #[trigger]
                    env@.contains_key(name) ==> env@[name] == Type::I32,
            decreases self.decls.len() - i,
        {
            let ghost seen = self@.names().take(i as int);
            let ghost added = self.decls[i as int].name@;
            proof {
                assert(self@.names().take(i as int + 1) == seen.push(added));
                assert forall|x: Seq<char>| #[trigger]
                    seen.push(added).contains(x) <==> (seen.contains(x) || x == added) by {
                    if seen.contains(x) {
                        let j = choose|j: int| 0 <= j < seen.len() && seen[j] == x;
                    }
                    if x == added {
                        assert(seen.push(added)[seen.len() as int] == x);
                    }
                }
            }
            env.insert(self.decls[i].name.clone(), Type::I32);
            i = i + 1;
        }
        proof {
            assert(self@.names().take(i as int) == self@.names());
        }
        env
    }

    /// Checks the body of every declaration against `I32`, in source order.
    /// The error is that of the first declaration whose body is something
    /// else: a name without a declaration has the type `Unknown`.
    pub fn check_types(&self) -> (r: Result<(), TypeMismatch>)
        ensures
            r is Ok <==> self@.well_typed(),
            r matches Err(e) ==> self@.mismatch(e.name@, e.expected, e.actual),
    {
        let env = self.global_env();
        let mut i: usize = 0;
        while i < self.decls.len()
            invariant
                i <= self.decls.len(),
                env@ == self@.global_env(),
                forall|j: int| 0 <= j < i ==> self@.well_typed_at(j),
            decreases self.decls.len() - i,
        {
            match self.decls[i].check_type(&env, Type::I32) {
                Ok(()) => {},
                Err(actual) => {
                    assert(!self@.well_typed_at(i as int));
                    return Err(
                        TypeMismatch {
                            name: self.decls[i].name.clone(),
                            expected: Type::I32,
                            actual,
                        },
                    );
                },
            }
            i = i + 1;
        }
        Ok(())
    }

    /// Whether the tree can be compiled: whether every body is a literal or
    /// the name of a declaration, and the positions fit in 32 bits.
    pub fn is_generable(&self) -> (b: bool)
        ensures
            b == self@.generable(),
    {
        if self.decls.len() > 0xffff_ffff {
            return false;
        }
        let mut i: usize = 0;
        while i < self.decls.len()
            invariant
                i <= self.decls.len(),
                forall|j: int| 0 <= j < i ==> self@.resolved_at(j),
            decreases self.decls.len() - i,
        {
            let resolved = match &self.decls[i].expr {
                Expr::I32(_) => true,
                Expr::Name(id) => self.find(id).is_some(),
                Expr::Func(_, _) => false,
            };
            if !resolved {
                assert(!self@.resolved_at(i as int));
                return false;
            }
            i = i + 1;
        }
        true
    }

    /// Compiles the tree to a binary module: one function for each
    /// declaration, at the index of its position, and one export for each
    /// declaration that the header exports.
    pub fn into_bytes(self) -> (bytes: Vec<u8>)
        requires
            self@.generable(),
            self@.lowered().encodable(),
        ensures
            bytes@ == self@.lowered().encoding(),
    {
        Module::from(&self).to_wasm()
    }

    /// Checks that every exported name is declared. The error names the
    /// module and every exported name without a declaration, each once.
    pub fn is_valid_exports(&self) -> (r: Result<(), SemanticError>)
        ensures
            r is Ok <==> self@.valid(),
            r matches Err(e) ==> {
                &&& e.module@ == self@.module.name
                &&& names_of(e.undeclared@).no_duplicates()
                &&& names_of(e.undeclared@).to_set() == self@.undeclared_exports()
            },
    {
        let names = self.module.exports.names();
        let ghost exported = names_of(names@);
        let mut undeclared: Vec<String> = Vec::new();
        let mut i: usize = 0;
        while i < names.len()
            invariant
                i <= names.len(),
                exported == names_of(names@),
                exported.no_duplicates(),
                names_of(undeclared@).no_duplicates(),
                forall|name: Seq<char>| #[trigger]
                    names_of(undeclared@).contains(name) ==> !self@.declares(name)
                        && exported.take(i as int).contains(name),
                forall|name: Seq<char>|
                    !self@.declares(name) && #[trigger] exported.take(i as int).contains(name)
                        ==> names_of(undeclared@).contains(name),
            decreases names.len() - i,
        {
            let name = &names[i];
            let ghost before = names_of(undeclared@);
            let ghost seen = exported.take(i as int);
            proof {
                assert(exported[i as int] == name@);
                assert(exported.take(i as int + 1) == seen.push(name@));
                lemma_push_contains(seen, name@);
                if seen.contains(name@) {
                    let j = choose|j: int| 0 <= j < seen.len() && seen[j] == name@;
                }
            }
            if self.find(name).is_none() {
                undeclared.push(name.clone());
                proof {
                    lemma_push_contains(before, name@);
                    lemma_push_distinct(before, name@);
                    assert(names_of(undeclared@) == before.push(name@));
                }
            }
            i = i + 1;
        }
        proof {
            assert(exported.take(i as int) == exported);
        }
        if undeclared.len() == 0 {
            Ok(())
        } else {
            proof {
                let first = names_of(undeclared@)[0];
                assert(names_of(undeclared@).contains(first));
                assert forall|x: Seq<char>| #[trigger]
                    names_of(undeclared@).to_set().contains(x)
                        <==> self@.undeclared_exports().contains(x) by {
                    assert(names_of(undeclared@).to_set().contains(x) <==> names_of(
                        undeclared@,
                    ).contains(x));
                }
            }
            Err(SemanticError { module: self.module.name.clone(), undeclared })
        }
    }
}

/// Whether an expression can be built from the nodes inside an expression
/// node: the first of them is an integer literal or a name.
pub open spec fn expr_shape(nodes: Seq<Node>) -> bool {
    &&& nodes.len() > 0
    &&& nodes[0].rule == Rule::integer || nodes[0].rule == Rule::name
    &&& nodes[0].rule == Rule::integer ==> literal_value(nodes[0].text) is Some
}

/// The expression that the nodes inside an expression node stand for.
pub open spec fn expr_of(nodes: Seq<Node>) -> ExprView {
    if nodes[0].rule == Rule::integer {
        ExprView::I32(literal_value(nodes[0].text).unwrap())
    } else {
        ExprView::Name(nodes[0].text)
    }
}

impl Expr {
    /// Builds the expression from the nodes inside an expression node.
    pub fn from(pairs: &Vec<Pair>) -> (e: Expr)
        requires
            expr_shape(nodes_of(pairs@)),
        ensures
            e@ == expr_of(nodes_of(pairs@)),
    {
        let pair = &pairs[0];
        proof {
            lemma_node_of(*pair);
        }
        match pair.as_rule() {
            Rule::integer => Expr::I32(integer(pair)),
            _ => Expr::Name(id(pair)),
        }
    }
}

/// Whether a declaration can be built from the nodes inside a declaration
/// node: each is a name, or an expression of the right shape.
pub open spec fn decl_shape(nodes: Seq<Node>) -> bool {
    forall|i: int|
        0 <= i < nodes.len() ==> {
            ||| (#[trigger] nodes[i]).rule == Rule::name
            ||| nodes[i].rule == Rule::expression && expr_shape(nodes[i].inner)
        }
}

/// The declaration that the nodes inside a declaration node stand for: the
/// last name and the last expression decide. Without a name the identifier
/// is empty, without an expression the body is the literal 0.
pub open spec fn decl_of(nodes: Seq<Node>) -> DeclView
    decreases nodes.len(),
{
    if nodes.len() == 0 {
        DeclView { name: Seq::empty(), expr: ExprView::I32(0) }
    } else {
        let before = decl_of(nodes.drop_last());
        let node = nodes.last();
        if node.rule == Rule::name {
            DeclView { name: node.text, expr: before.expr }
        } else {
            DeclView { name: before.name, expr: expr_of(node.inner) }
        }
    }
}

impl Decl {
    /// Builds the declaration from the nodes inside a declaration node.
    pub fn from(pairs: &Vec<Pair>) -> (d: Decl)
        requires
            decl_shape(nodes_of(pairs@)),
        ensures
            d@ == decl_of(nodes_of(pairs@)),
    {
        let ghost nodes = nodes_of(pairs@);
        let mut name = String::new();
        let mut expr = Expr::I32(0);
        let mut i: usize = 0;
        while i < pairs.len()
            invariant
                i <= pairs.len(),
                nodes == nodes_of(pairs@),
                decl_shape(nodes),
                (DeclView { name: name@, expr: expr@ }) == decl_of(nodes.take(i as int)),
            decreases pairs.len() - i,
        {
            let pair = &pairs[i];
            proof {
                lemma_node_of(*pair);
                assert(nodes.take(i as int + 1).drop_last() == nodes.take(i as int));
                assert(nodes.take(i as int + 1).last() == node_of(*pair));
            }
            match pair.as_rule() {
                Rule::name => {
                    name = id(pair);
                },
                _ => {
                    expr = Expr::from(pair.into_inner());
                },
            }
            i = i + 1;
        }
        assert(nodes.take(i as int) == nodes);
        Decl { name, expr }
    }
}

/// Whether a header can be built from the nodes inside a module node: each
/// is the module's name or a tuple.
pub open spec fn header_shape(nodes: Seq<Node>) -> bool {
    forall|i: int|
        0 <= i < nodes.len() ==> {
            ||| (#[trigger] nodes[i]).rule == Rule::Name
            ||| nodes[i].rule == Rule::tuple
        }
}

/// The header that the nodes inside a module node stand for: the last name
/// and the last tuple decide, and the nodes inside the tuple are the
/// exported names.
pub open spec fn header_of(nodes: Seq<Node>) -> HeaderView
    decreases nodes.len(),
{
    if nodes.len() == 0 {
        HeaderView { name: Seq::empty(), exports: Set::empty() }
    } else {
        let before = header_of(nodes.drop_last());
        let node = nodes.last();
        if node.rule == Rule::Name {
            HeaderView { name: node.text, exports: before.exports }
        } else {
            HeaderView { name: before.name, exports: texts(node.inner).to_set() }
        }
    }
}

impl Header {
    /// Builds the header from the nodes inside a module node.
    pub fn from(pairs: &Vec<Pair>) -> (h: Header)
        requires
            header_shape(nodes_of(pairs@)),
        ensures
            h@ == header_of(nodes_of(pairs@)),
    {
        let ghost nodes = nodes_of(pairs@);
        let mut module = Header::default();
        let mut i: usize = 0;
        while i < pairs.len()
            invariant
                i <= pairs.len(),
                nodes == nodes_of(pairs@),
                header_shape(nodes),
                module@ == header_of(nodes.take(i as int)),
            decreases pairs.len() - i,
        {
            let pair = &pairs[i];
            proof {
                lemma_node_of(*pair);
                assert(nodes.take(i as int + 1).drop_last() == nodes.take(i as int));
            }
            match pair.as_rule() {
                Rule::Name => {
                    module.name = uid(pair);
                },
                _ => {
                    module.exports = exports(pair.into_inner());
                },
            }
            i = i + 1;
        }
        assert(nodes.take(i as int) == nodes);
        module
    }
}

/// Whether a top-level node can be taken into a tree: it is a module node
/// or a declaration node, with nodes of the right shape inside.
pub open spec fn top_shape(node: Node) -> bool {
    ||| node.rule == Rule::module && header_shape(node.inner)
    ||| node.rule == Rule::declaration && decl_shape(node.inner)
}

/// Whether a tree can be built from the top-level nodes of a parse: each is
/// the end of the input, a module node or a declaration node.
pub open spec fn file_shape(nodes: Seq<Node>) -> bool {
    forall|i: int|
        0 <= i < nodes.len() ==> (#[trigger] nodes[i]).rule == Rule::EOI || top_shape(nodes[i])
}

impl ASTView {
    /// The empty program.
    pub open spec fn empty() -> ASTView {
        ASTView {
            module: HeaderView { name: Seq::empty(), exports: Set::empty() },
            decls: Seq::empty(),
        }
    }

    /// The tree with one more top-level node taken in: a module node
    /// replaces the header, a declaration node adds a declaration at the
    /// end.
    pub open spec fn with(self, node: Node) -> ASTView {
        if node.rule == Rule::module {
            ASTView { module: header_of(node.inner), decls: self.decls }
        } else {
            ASTView { module: self.module, decls: self.decls.push(decl_of(node.inner)) }
        }
    }

    /// The tree that the top-level nodes of a parse stand for: the nodes are
    /// taken in source order, and the end of the input is passed over.
    pub open spec fn of(nodes: Seq<Node>) -> ASTView
        decreases nodes.len(),
    {
        if nodes.len() == 0 {
            ASTView::empty()
        } else if nodes.last().rule == Rule::EOI {
            ASTView::of(nodes.drop_last())
        } else {
            ASTView::of(nodes.drop_last()).with(nodes.last())
        }
    }
}

/// The declarations among the top-level nodes of a parse, in source order.
pub open spec fn declarations_of(nodes: Seq<Node>) -> Seq<DeclView> {
    nodes.filter_map(
        |node: Node|
            if node.rule == Rule::EOI || node.rule == Rule::module {
                None
            } else {
                Some(decl_of(node.inner))
            },
    )
}

/// The declarations of a tree are those of the parse, in source order: the
/// position of a declaration in the tree is its position among the
/// declarations of the source, whether a module clause stands before them or
/// not.
pub proof fn lemma_tree_keeps_source_order(nodes: Seq<Node>)
    ensures
        ASTView::of(nodes).decls == declarations_of(nodes),
    decreases nodes.len(),
{
    if nodes.len() > 0 {
        lemma_tree_keeps_source_order(nodes.drop_last());
    }
}

impl AST {
    /// Takes one top-level node into the tree: a module node replaces the
    /// header, a declaration node adds a declaration at the end.
    pub fn declaration(&mut self, pair: &Pair)
        requires
            top_shape(pair@),
        ensures
            final(self)@ == old(self)@.with(pair@),
    {
        proof {
            lemma_node_of(*pair);
        }
        match pair.as_rule() {
            Rule::module => {
                self.module = Header::from(pair.into_inner());
            },
            _ => {
                let ghost before = self.decls@.map_values(|d: Decl| d@);
                let decl = Decl::from(pair.into_inner());
                self.decls.push(decl);
                assert(self.decls@.map_values(|d: Decl| d@) == before.push(decl@));
            },
        }
    }

    /// Builds the tree from the top-level nodes of a parse, in source order,
    /// and validates it: the tree is returned where every exported name is
    /// declared, else the error names the module and the exported names
    /// without a declaration.
    pub fn try_from(pairs: &Vec<Pair>) -> (r: Result<AST, SemanticError>)
        requires
            file_shape(nodes_of(pairs@)),
        ensures
            r is Ok <==> ASTView::of(nodes_of(pairs@)).valid(),
            r matches Ok(ast) ==> ast@ == ASTView::of(nodes_of(pairs@)),
            r matches Err(e) ==> {
                &&& e.module@ == ASTView::of(nodes_of(pairs@)).module.name
                &&& names_of(e.undeclared@).no_duplicates()
                &&& names_of(e.undeclared@).to_set() == ASTView::of(
                    nodes_of(pairs@),
                ).undeclared_exports()
            },
    {
        let ghost nodes = nodes_of(pairs@);
        let mut ast = AST::default();
        let mut i: usize = 0;
        while i < pairs.len()
            invariant
                i <= pairs.len(),
                nodes == nodes_of(pairs@),
                file_shape(nodes),
                ast@ == ASTView::of(nodes.take(i as int)),
            decreases pairs.len() - i,
        {
            let pair = &pairs[i];
            proof {
                lemma_node_of(*pair);
                assert(nodes.take(i as int + 1).drop_last() == nodes.take(i as int));
                assert(nodes.take(i as int + 1).last() == pair@);
            }
            if is_not_eoi(pair) {
                ast.declaration(pair);
            }
            i = i + 1;
        }
        assert(nodes.take(i as int) == nodes);
        match ast.validate() {
            Ok(()) => Ok(ast),
            Err(e) => Err(e),
        }
    }
}

} // verus!
