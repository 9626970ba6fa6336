use vstd::prelude::*;

verus! {

/// A parsed source file.
#[derive(Debug)]
pub struct Program {
    pub functions: Vec<Function>,
    pub externs: Vec<ExternFunction>,
    pub macros: Vec<MacroDef>,
}

/// A macro: a list of statements spliced in where it is invoked.
#[derive(Debug)]
pub struct MacroDef {
    pub name: String,
    pub params: Vec<String>,
    pub body: Vec<Stmt>,
}

/// A function implemented outside the program.
#[derive(Debug, Clone)]
pub struct ExternFunction {
    pub name: String,
    pub params: Vec<Param>,
    pub ret_ty: String,
}

#[derive(Debug)]
pub struct Function {
    pub name: String,
    pub params: Vec<Param>,
    pub body: Vec<Stmt>,
    pub is_async: bool,
}

#[derive(Debug, Clone)]
pub struct Param {
    pub name: String,
    pub ty: String,
}

#[derive(Debug)]
pub enum Stmt {
    Let { name: String, expr: Expr },
    Expr(Expr),
    MacroInvoke { name: String, args: Vec<Expr> },
}

#[derive(Debug)]
pub enum Expr {
    Int(i64),
    Ident(String),
    Call { name: String, args: Vec<Expr> },
    Await(Box<Expr>),
    Spawn(Box<Expr>),
}

} // verus!
