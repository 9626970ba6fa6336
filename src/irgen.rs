use vstd::prelude::*;
use crate::ast::{Expr, ExternFunction, Function, Program, Stmt};
use crate::ir::{IrExtern, IrFunction, IrInst, IrModule};

verus! {

broadcast use vstd::std_specs::vec::axiom_vec_index_decreases;

/// `ir` is the lowering of `e`: literals become constants, names become
/// loads, and calls, awaits and spawns keep their shape with their operands
/// lowered.
pub open spec fn lowers_expr(e: Expr, ir: IrInst) -> bool
    decreases e,
{
    match e {
        Expr::Int(i) => ir == IrInst::Const(i),
        Expr::Ident(n) => ir == IrInst::Load(n),
        Expr::Call { name, args } => match ir {
            IrInst::Call(n, irs) => n == name && irs@.len() == args@.len() && forall|k: int|
                0 <= k < args@.len() ==> lowers_expr(args@[k], #[trigger] irs@[k]),
            _ => false,
        },
        Expr::Await(inner) => match ir {
            IrInst::Await(b) => lowers_expr(*inner, *b),
            _ => false,
        },
        Expr::Spawn(inner) => match ir {
            IrInst::Spawn(b) => lowers_expr(*inner, *b),
            _ => false,
        },
    }
}

/// `ir` is the store that a `let` statement `s` lowers to.
pub open spec fn lowers_let(s: Stmt, ir: IrInst) -> bool {
    match s {
        Stmt::Let { name, expr } => match ir {
            IrInst::Store(n, b) => n == name && lowers_expr(expr, *b),
            _ => false,
        },
        _ => false,
    }
}

/// The `let` statements of `stmts`, in order: the only statements that
/// leave an instruction in a function body.
pub open spec fn let_stmts(stmts: Seq<Stmt>) -> Seq<Stmt>
    decreases stmts.len(),
{
    if stmts.len() == 0 {
        Seq::empty()
    } else if stmts.last() is Let {
        let_stmts(stmts.drop_last()).push(stmts.last())
    } else {
        let_stmts(stmts.drop_last())
    }
}

/// `body` holds one store for each `let` of `stmts`, in order.
pub open spec fn lowers_body(stmts: Seq<Stmt>, body: Seq<IrInst>) -> bool {
    &&& body.len() == let_stmts(stmts).len()
    &&& forall|k: int| 0 <= k < body.len() ==> lowers_let(let_stmts(stmts)[k], #[trigger] body[k])
}

pub open spec fn lowers_function(f: Function, irf: IrFunction) -> bool {
    irf.name == f.name && lowers_body(f.body@, irf.body@)
}

/// An outside function keeps its name and return type, and its parameters
/// are reduced to their types.
pub open spec fn lowers_extern(e: ExternFunction, ire: IrExtern) -> bool {
    &&& ire.name == e.name
    &&& ire.ret_ty == e.ret_ty
    &&& ire.params@.len() == e.params@.len()
    &&& forall|j: int| 0 <= j < e.params@.len() ==> #[trigger] ire.params@[j] == e.params@[j].ty
}

/// Lowers each function and each outside declaration of `prog`, in order.
pub fn lower_program(prog: &Program) -> (m: IrModule)
    ensures
        m.functions@.len() == prog.functions@.len(),
        forall|k: int|
            0 <= k < prog.functions@.len() ==> lowers_function(
                prog.functions@[k],
                #[trigger] m.functions@[k],
            ),
        m.externs@.len() == prog.externs@.len(),
        forall|k: int|
            0 <= k < prog.externs@.len() ==> lowers_extern(prog.externs@[k], #[trigger] m.externs@[k]),
{
    let mut functions: Vec<IrFunction> = Vec::new();
    let mut externs: Vec<IrExtern> = Vec::new();
    let mut i: usize = 0;
    while i < prog.functions.len()
        invariant
            i <= prog.functions@.len(),
            functions@.len() == i,
            forall|k: int|
                0 <= k < i ==> lowers_function(prog.functions@[k], #[trigger] functions@[k]),
        decreases prog.functions@.len() - i,
    {
        functions.push(lower_function(&prog.functions[i]));
        i = i + 1;
    }
    let mut i: usize = 0;
    while i < prog.externs.len()
        invariant
            i <= prog.externs@.len(),
            externs@.len() == i,
            forall|k: int| 0 <= k < i ==> lowers_extern(prog.externs@[k], #[trigger] externs@[k]),
        decreases prog.externs@.len() - i,
    {
        externs.push(lower_extern(&prog.externs[i]));
        i = i + 1;
    }
    IrModule { functions, externs }
}

fn lower_extern(ext: &ExternFunction) -> (r: IrExtern)
    ensures
        lowers_extern(*ext, r),
{
    let mut params: Vec<String> = Vec::new();
    let mut j: usize = 0;
    while j < ext.params.len()
        invariant
            j <= ext.params@.len(),
            params@.len() == j,
            forall|k: int| 0 <= k < j ==> #[trigger] params@[k] == ext.params@[k].ty,
        decreases ext.params@.len() - j,
    {
        params.push(ext.params[j].ty.clone());
        j = j + 1;
    }
    IrExtern { name: ext.name.clone(), params, ret_ty: ext.ret_ty.clone() }
}

fn lower_function(func: &Function) -> (r: IrFunction)
    ensures
        lowers_function(*func, r),
{
    let mut body: Vec<IrInst> = Vec::new();
    let mut i: usize = 0;
    while i < func.body.len()
        invariant
            i <= func.body@.len(),
            lowers_body(func.body@.take(i as int), body@),
        decreases func.body@.len() - i,
    {
        let ghost before = body@;
        lower_stmt(&func.body[i], &mut body);
        proof {
            let pre = func.body@.take(i as int);
            let cur = func.body@.take(i + 1);
            assert(cur.drop_last() =~= pre);
            assert(cur.last() == func.body@[i as int]);
            if func.body@[i as int] is Let {
                assert(let_stmts(cur) == let_stmts(pre).push(func.body@[i as int]));
                assert forall|k: int| 0 <= k < body@.len() implies lowers_let(
                    let_stmts(cur)[k],
                    #[trigger] body@[k],
                ) by {
                    if k < before.len() {
                        assert(body@[k] == before[k]);
                    }
                }
            } else {
                assert(let_stmts(cur) == let_stmts(pre));
            }
        }
        i = i + 1;
    }
    assert(func.body@.take(func.body@.len() as int) =~= func.body@);
    IrFunction { name: func.name.clone(), body }
}

/// Appends the instruction that `stmt` leaves in a function body: a store
/// for a `let`, nothing for other statements.
fn lower_stmt(stmt: &Stmt, body: &mut Vec<IrInst>)
    ensures
        stmt is Let ==> final(body)@.len() == old(body)@.len() + 1 && final(body)@.drop_last() == old(
            body,
        )@ && lowers_let(*stmt, final(body)@.last()),
        !(stmt is Let) ==> final(body)@ == old(body)@,
{
    match stmt {
        Stmt::Let { name, expr } => {
            let value = lower_expr(expr);
            body.push(IrInst::Store(name.clone(), Box::new(value)));
            assert(body@.drop_last() =~= old(body)@);
        },
        Stmt::Expr(expr) => {
            let _ = lower_expr(expr);
        },
        Stmt::MacroInvoke { .. } => {},
    }
}

fn lower_expr(expr: &Expr) -> (r: IrInst)
    ensures
        lowers_expr(*expr, r),
    decreases expr,
{
    match expr {
        Expr::Int(i) => IrInst::Const(*i),
        Expr::Ident(name) => IrInst::Load(name.clone()),
        Expr::Call { name, args } => {
            let mut lowered: Vec<IrInst> = Vec::new();
            let mut k: usize = 0;
            while k < args.len()
                invariant
                    *expr == (Expr::Call { name: *name, args: *args }),
                    k <= args@.len(),
                    lowered@.len() == k,
                    forall|j: int| 0 <= j < k ==> lowers_expr(args@[j], #[trigger] lowered@[j]),
                decreases args@.len() - k,
            {
                proof {
                    assert(*args == expr->Call_args);
                    assert(decreases_to!(*expr => expr->Call_args));
                    assert(decreases_to!(*args => args[k as int]));
                    assert(decreases_to!(*expr => args[k as int]));
                }
                let a = lower_expr(&args[k]);
                lowered.push(a);
                k = k + 1;
            }
            IrInst::Call(name.clone(), lowered)
        },
        Expr::Await(inner) => IrInst::Await(Box::new(lower_expr(inner))),
        Expr::Spawn(inner) => IrInst::Spawn(Box::new(lower_expr(inner))),
    }
}

} // verus!
