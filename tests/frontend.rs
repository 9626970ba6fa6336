use yulvon::ai_hints::{analyze_ast, analyze_ir};
use yulvon::ast::{Expr, ExternFunction, Function, Param, Program, Stmt};
use yulvon::ir::{IrFunction, IrInst, IrModule};
use yulvon::irgen::lower_program;

fn function(name: &str, body: Vec<Stmt>) -> Function {
    Function { name: name.to_string(), params: Vec::new(), body, is_async: false }
}

fn let_stmt(name: &str, expr: Expr) -> Stmt {
    Stmt::Let { name: name.to_string(), expr }
}

#[test]
fn lowering_keeps_lets_and_drops_expression_statements() {
    let body = vec![
        let_stmt("x", Expr::Int(5)),
        Stmt::Expr(Expr::Call { name: "print".to_string(), args: vec![Expr::Ident("x".to_string())] }),
        let_stmt(
            "y",
            Expr::Await(Box::new(Expr::Spawn(Box::new(Expr::Call {
                name: "work".to_string(),
                args: vec![Expr::Ident("x".to_string()), Expr::Int(2)],
            })))),
        ),
    ];
    let prog = Program { functions: vec![function("main", body)], externs: Vec::new(), macros: Vec::new() };
    let m = lower_program(&prog);
    assert_eq!(m.functions.len(), 1);
    assert_eq!(m.functions[0].name, "main");
    assert_eq!(m.functions[0].body.len(), 2);
    match &m.functions[0].body[0] {
        IrInst::Store(n, v) => {
            assert_eq!(n, "x");
            assert!(matches!(**v, IrInst::Const(5)));
        }
        other => panic!("unexpected {:?}", other),
    }
    match &m.functions[0].body[1] {
        IrInst::Store(n, v) => {
            assert_eq!(n, "y");
            match &**v {
                IrInst::Await(inner) => match &**inner {
                    IrInst::Spawn(call) => match &**call {
                        IrInst::Call(f, args) => {
                            assert_eq!(f, "work");
                            assert_eq!(args.len(), 2);
                            assert!(matches!(&args[0], IrInst::Load(s) if s == "x"));
                            assert!(matches!(args[1], IrInst::Const(2)));
                        }
                        other => panic!("unexpected {:?}", other),
                    },
                    other => panic!("unexpected {:?}", other),
                },
                other => panic!("unexpected {:?}", other),
            }
        }
        other => panic!("unexpected {:?}", other),
    }
}

#[test]
fn lowering_reduces_extern_params_to_types() {
    let ext = ExternFunction {
        name: "puts".to_string(),
        params: vec![
            Param { name: "s".to_string(), ty: "str".to_string() },
            Param { name: "n".to_string(), ty: "int".to_string() },
        ],
        ret_ty: "int".to_string(),
    };
    let prog = Program { functions: Vec::new(), externs: vec![ext], macros: Vec::new() };
    let m = lower_program(&prog);
    assert!(m.functions.is_empty());
    assert_eq!(m.externs.len(), 1);
    assert_eq!(m.externs[0].name, "puts");
    assert_eq!(m.externs[0].params, vec!["str".to_string(), "int".to_string()]);
    assert_eq!(m.externs[0].ret_ty, "int");
}

#[test]
fn hints_for_zero_init_and_large_function() {
    let mut big = Vec::new();
    for _ in 0..101 {
        big.push(Stmt::Expr(Expr::Int(1)));
    }
    let small = vec![let_stmt("a", Expr::Int(0)), let_stmt("b", Expr::Int(3)), let_stmt("c", Expr::Int(0))];
    let prog = Program {
        functions: vec![function("big", big), function("small", small)],
        externs: Vec::new(),
        macros: Vec::new(),
    };
    let hints = analyze_ast(&prog);
    assert_eq!(hints.len(), 3);
    assert_eq!(hints[0].message, "Function 'big' is large; consider splitting for better cache locality.");
    assert_eq!(hints[0].location.as_deref(), Some("big"));
    assert_eq!(hints[1].message, "Variable 'a' initialized to 0; check if zero-initialization is needed.");
    assert_eq!(hints[1].location.as_deref(), Some("a"));
    assert_eq!(hints[2].location.as_deref(), Some("c"));
}

#[test]
fn hints_threshold_is_strict() {
    let mut body = Vec::new();
    for _ in 0..100 {
        body.push(Stmt::Expr(Expr::Int(1)));
    }
    let prog = Program { functions: vec![function("edge", body)], externs: Vec::new(), macros: Vec::new() };
    assert!(analyze_ast(&prog).is_empty());
}

#[test]
fn ir_hints_for_large_functions_only() {
    let big: Vec<IrInst> = (0..201).map(IrInst::Const).collect();
    let edge: Vec<IrInst> = (0..200).map(IrInst::Const).collect();
    let m = IrModule {
        functions: vec![
            IrFunction { name: "edge".to_string(), body: edge },
            IrFunction { name: "huge".to_string(), body: big },
        ],
        externs: Vec::new(),
    };
    let hints = analyze_ir(&m);
    assert_eq!(hints.len(), 1);
    assert_eq!(hints[0].message, "IR function 'huge' is very large; consider inlining or splitting.");
    assert_eq!(hints[0].location.as_deref(), Some("huge"));
}
