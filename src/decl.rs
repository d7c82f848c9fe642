use crate::expr::Expr;
use crate::types::Type;
use vstd::prelude::*;

verus! {

/// A top-level function declaration: its name and declared type.
#[derive(Debug, PartialEq)]
pub struct FnDecl {
    pub name: String,
    pub signature: Type,
    pub body: Expr,
}

/// A top-level let declaration, with an optional declared type.
#[derive(Debug, PartialEq)]
pub struct LetDecl {
    pub name: String,
    pub type_: Option<Type>,
    pub value: Expr,
}

/// A type alias declaration.
#[derive(Debug, PartialEq)]
pub struct TypeDecl {
    pub name: String,
    pub definition: Type,
}

#[derive(Debug, PartialEq)]
pub enum Decl {
    Fn(FnDecl),
    Let(LetDecl),
    Type(TypeDecl),
}

/// A module: an optional name and its declarations in order.
#[derive(Debug, PartialEq)]
pub struct Module {
    pub name: Option<String>,
    pub decls: Vec<Decl>,
}

/// Name and declared type of each function declaration, and of each let
/// declaration that has a declared type, in order.
pub open spec fn declared_globals(decls: Seq<Decl>) -> Seq<(Seq<char>, crate::types::TypeV)>
    decreases decls.len(),
{
    if decls.len() == 0 {
        Seq::empty()
    } else {
        let rest = declared_globals(decls.subrange(0, decls.len() - 1));
        match decls[decls.len() - 1] {
            Decl::Fn(f) => rest.push((f.name@, f.signature@)),
            Decl::Let(l) => match l.type_ {
                Some(t) => rest.push((l.name@, t@)),
                None => rest,
            },
            Decl::Type(_) => rest,
        }
    }
}

} // verus!
