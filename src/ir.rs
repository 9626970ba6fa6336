use vstd::prelude::*;

verus! {

/// An instruction of the intermediate representation; operands are nested
/// instructions.
#[derive(Debug)]
pub enum IrInst {
    Const(i64),
    Load(String),
    Store(String, Box<IrInst>),
    Call(String, Vec<IrInst>),
    Ret(Option<Box<IrInst>>),
    AsyncCall(String, Vec<IrInst>),
    Await(Box<IrInst>),
    Spawn(Box<IrInst>),
}

#[derive(Debug)]
pub struct IrFunction {
    pub name: String,
    pub body: Vec<IrInst>,
}

#[derive(Debug)]
pub struct IrModule {
    pub functions: Vec<IrFunction>,
    pub externs: Vec<IrExtern>,
}

/// An outside function: its name, the types of its parameters and its
/// return type.
#[derive(Debug, Clone)]
pub struct IrExtern {
    pub name: String,
    pub params: Vec<String>,
    pub ret_ty: String,
}

} // verus!
