use vstd::prelude::*;

verus! {

/// An expression node; the expression grammar has no productions yet.
#[derive(Debug)]
pub struct Expr {}

/// A statement node; the statement grammar has no productions yet.
#[derive(Debug)]
pub struct Stmt {}

/// `var name: = expr;`, a mutable binding.
#[derive(Debug)]
pub struct VarDecl {
    pub name: String,
    pub expr: Expr,
}

/// `let name: = expr;`, an immutable binding.
#[derive(Debug)]
pub struct LetDecl {
    pub name: String,
    pub expr: Expr,
}

/// `fn name(params) { stmts }`.
#[derive(Debug)]
pub struct FnDecl {
    pub name: String,
    pub params: Vec<FnParam>,
    pub stmts: Vec<Stmt>,
}

/// A function parameter, introduced by `let` (immutable) or `var`
/// (mutable); it has no declared type yet.
#[derive(Debug)]
pub struct FnParam {
    pub name: String,
    pub is_mutable: bool,
}

/// A top-level declaration.
#[derive(Debug)]
pub enum Decl {
    Var(VarDecl),
    Let(LetDecl),
    Fn(FnDecl),
}

/// The mathematical content of a [`Decl`]: names, parameters as
/// (name, mutable) pairs, and the number of body statements.
pub ghost enum DeclView {
    Var(Seq<char>),
    Let(Seq<char>),
    Fn(Seq<char>, Seq<(Seq<char>, bool)>, nat),
}

/// The (name, mutable) pair of each parameter.
pub open spec fn params_view(ps: Seq<FnParam>) -> Seq<(Seq<char>, bool)> {
    ps.map_values(|p: FnParam| (p.name@, p.is_mutable))
}

impl View for Decl {
    type V = DeclView;

    open spec fn view(&self) -> DeclView {
        match self {
            Decl::Var(d) => DeclView::Var(d.name@),
            Decl::Let(d) => DeclView::Let(d.name@),
            Decl::Fn(d) => DeclView::Fn(d.name@, params_view(d.params@), d.stmts@.len()),
        }
    }
}

/// The view of each declaration of `ds`.
pub open spec fn decls_view(ds: Seq<Decl>) -> Seq<DeclView> {
    ds.map_values(|d: Decl| d@)
}

} // verus!
