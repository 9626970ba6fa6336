use vstd::prelude::*;
use vstd::string::StringExecFns;
use crate::ast::{Expr, Function, Program, Stmt};
use crate::ir::IrModule;

verus! {

/// Functions with more statements than this get a hint.
pub const LARGE_FUNCTION_STMTS: usize = 100;

/// IR functions with more instructions than this get a hint.
pub const LARGE_IR_FUNCTION_INSTS: usize = 200;

/// A suggestion about the program, with the name it concerns.
pub struct Hint {
    pub message: String,
    pub location: Option<String>,
}

/// A hint as text: its message and the name it concerns.
pub type HintView = (Seq<char>, Option<Seq<char>>);

impl Hint {
    pub open spec fn view(&self) -> HintView {
        (
            self.message@,
            match self.location {
                Some(l) => Some(l@),
                None => None,
            },
        )
    }
}

pub open spec fn large_function_message(name: Seq<char>) -> Seq<char> {
    "Function '"@ + name + "' is large; consider splitting for better cache locality."@
}

pub open spec fn zero_init_message(name: Seq<char>) -> Seq<char> {
    "Variable '"@ + name + "' initialized to 0; check if zero-initialization is needed."@
}

pub open spec fn large_ir_function_message(name: Seq<char>) -> Seq<char> {
    "IR function '"@ + name + "' is very large; consider inlining or splitting."@
}

/// `s` binds a name to the literal 0.
pub open spec fn is_zero_let(s: Stmt) -> bool {
    match s {
        Stmt::Let { expr, .. } => expr == Expr::Int(0),
        _ => false,
    }
}

/// One hint for each `let` of `stmts` that binds the literal 0, in order.
pub open spec fn zero_init_hints(stmts: Seq<Stmt>) -> Seq<HintView>
    decreases stmts.len(),
{
    if stmts.len() == 0 {
        Seq::empty()
    } else {
        let earlier = zero_init_hints(stmts.drop_last());
        if is_zero_let(stmts.last()) {
            let name = stmts.last()->Let_name@;
            earlier.push((zero_init_message(name), Some(name)))
        } else {
            earlier
        }
    }
}

/// The hints about one function: first whether it is large, then its
/// zero-initialised variables.
pub open spec fn function_hints(f: Function) -> Seq<HintView> {
    let large: Seq<HintView> = if f.body@.len() > LARGE_FUNCTION_STMTS {
        seq![(large_function_message(f.name@), Some(f.name@))]
    } else {
        Seq::empty()
    };
    large + zero_init_hints(f.body@)
}

/// The hints about `fs`, function by function.
pub open spec fn ast_hints(fs: Seq<Function>) -> Seq<HintView>
    decreases fs.len(),
{
    if fs.len() == 0 {
        Seq::empty()
    } else {
        ast_hints(fs.drop_last()) + function_hints(fs.last())
    }
}

fn make_hint(prefix: &str, name: &String, suffix: &str) -> (h: Hint)
    ensures
        h@ == (prefix@ + name@ + suffix@, Some(name@)),
{
    let mut message = String::from_str(prefix);
    message.append(name.as_str());
    message.append(suffix);
    Hint { message, location: Some(name.clone()) }
}

/// Hints about the program's source: a function longer than
/// `LARGE_FUNCTION_STMTS` statements, and a variable bound to the literal 0.
pub fn analyze_ast(program: &Program) -> (hints: Vec<Hint>)
    ensures
        hints@.map_values(|h: Hint| h@) == ast_hints(program.functions@),
{
    let mut hints: Vec<Hint> = Vec::new();
    let mut i: usize = 0;
    while i < program.functions.len()
        invariant
            i <= program.functions@.len(),
            hints@.map_values(|h: Hint| h@) == ast_hints(program.functions@.take(i as int)),
        decreases program.functions@.len() - i,
    {
        let func = &program.functions[i];
        let ghost start = hints@.map_values(|h: Hint| h@);
        if func.body.len() > LARGE_FUNCTION_STMTS {
            let h = make_hint(
                "Function '",
                &func.name,
                "' is large; consider splitting for better cache locality.",
            );
            hints.push(h);
        }
        let ghost with_large = hints@.map_values(|h: Hint| h@);
        proof {
            let large: Seq<HintView> = if func.body@.len() > LARGE_FUNCTION_STMTS {
                seq![(large_function_message(func.name@), Some(func.name@))]
            } else {
                Seq::empty()
            };
            assert(with_large =~= start + large);
            assert(func.body@.take(0) =~= Seq::<Stmt>::empty());
            assert(with_large =~= start + large + zero_init_hints(func.body@.take(0)));
        }
        let mut j: usize = 0;
        while j < func.body.len()
            invariant
                j <= func.body@.len(),
                hints@.map_values(|h: Hint| h@) =~= with_large + zero_init_hints(
                    func.body@.take(j as int),
                ),
            decreases func.body@.len() - j,
        {
            let ghost before = hints@.map_values(|h: Hint| h@);
            let ghost cur = func.body@.take(j + 1);
            proof {
                assert(cur.drop_last() =~= func.body@.take(j as int));
                assert(cur.last() == func.body@[j as int]);
            }
            match &func.body[j] {
                Stmt::Let { name, expr } => {
                    match expr {
                        Expr::Int(v) => {
                            if *v == 0 {
                                let h = make_hint(
                                    "Variable '",
                                    name,
                                    "' initialized to 0; check if zero-initialization is needed.",
                                );
                                hints.push(h);
                                assert(hints@.map_values(|h: Hint| h@) =~= before.push(h@));
                            }
                        },
                        _ => {},
                    }
                },
                _ => {},
            }
            j = j + 1;
        }
        proof {
            assert(func.body@.take(func.body@.len() as int) =~= func.body@);
            let cur = program.functions@.take(i + 1);
            assert(cur.drop_last() =~= program.functions@.take(i as int));
            assert(cur.last() == program.functions@[i as int]);
        }
        i = i + 1;
    }
    assert(program.functions@.take(program.functions@.len() as int) =~= program.functions@);
    hints
}

/// The hints about IR functions `fs`: one for each function longer than
/// `LARGE_IR_FUNCTION_INSTS` instructions, in order.
pub open spec fn ir_hints(fs: Seq<crate::ir::IrFunction>) -> Seq<HintView>
    decreases fs.len(),
{
    if fs.len() == 0 {
        Seq::empty()
    } else if fs.last().body@.len() > LARGE_IR_FUNCTION_INSTS {
        ir_hints(fs.drop_last()).push(
            (large_ir_function_message(fs.last().name@), Some(fs.last().name@)),
        )
    } else {
        ir_hints(fs.drop_last())
    }
}

/// Hints about the lowered program: an IR function longer than
/// `LARGE_IR_FUNCTION_INSTS` instructions.
pub fn analyze_ir(ir: &IrModule) -> (hints: Vec<Hint>)
    ensures
        hints@.map_values(|h: Hint| h@) == ir_hints(ir.functions@),
{
    let mut hints: Vec<Hint> = Vec::new();
    let mut i: usize = 0;
    while i < ir.functions.len()
        invariant
            i <= ir.functions@.len(),
            hints@.map_values(|h: Hint| h@) == ir_hints(ir.functions@.take(i as int)),
        decreases ir.functions@.len() - i,
    {
        let func = &ir.functions[i];
        let ghost before = hints@.map_values(|h: Hint| h@);
        let ghost cur = ir.functions@.take(i + 1);
        proof {
            assert(cur.drop_last() =~= ir.functions@.take(i as int));
            assert(cur.last() == ir.functions@[i as int]);
        }
        if func.body.len() > LARGE_IR_FUNCTION_INSTS {
            let h = make_hint(
                "IR function '",
                &func.name,
                "' is very large; consider inlining or splitting.",
            );
            hints.push(h);
            assert(hints@.map_values(|h: Hint| h@) =~= before.push(h@));
        }
        i = i + 1;
    }
    assert(ir.functions@.take(ir.functions@.len() as int) =~= ir.functions@);
    hints
}

} // verus!
