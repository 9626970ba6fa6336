use yulvon::ast::{Expr, Function, Param, Program, Stmt};
use yulvon::semantic::{analyze_program, Scope, SemanticError};

fn program(params: Vec<Param>, body: Vec<Stmt>) -> Program {
    Program {
        functions: vec![Function { name: "f".to_string(), params, body, is_async: false }],
        externs: Vec::new(),
        macros: Vec::new(),
    }
}

fn ident(n: &str) -> Expr {
    Expr::Ident(n.to_string())
}

#[test]
fn scope_insert_get_and_shadow() {
    let mut s = Scope::new();
    assert!(s.get("x").is_none());
    s.insert("x".to_string(), "int".to_string());
    s.insert("y".to_string(), "str".to_string());
    assert_eq!(s.get("x").unwrap().ty, "int");
    s.insert("x".to_string(), "bool".to_string());
    let sym = s.get("x").unwrap();
    assert_eq!(sym.name, "x");
    assert_eq!(sym.ty, "bool");
    assert_eq!(s.get("y").unwrap().ty, "str");
    assert!(s.get("z").is_none());
}

#[test]
fn accepts_names_bound_by_params_and_lets() {
    let body = vec![
        Stmt::Let { name: "a".to_string(), expr: ident("p") },
        Stmt::Expr(Expr::Call { name: "g".to_string(), args: vec![ident("a"), Expr::Int(1)] }),
        Stmt::Let { name: "b".to_string(), expr: Expr::Await(Box::new(ident("a"))) },
    ];
    let prog = program(vec![Param { name: "p".to_string(), ty: "int".to_string() }], body);
    assert_eq!(analyze_program(&prog), Ok(()));
}

#[test]
fn rejects_first_undefined_variable() {
    let body = vec![
        Stmt::Expr(Expr::Call { name: "g".to_string(), args: vec![Expr::Int(1), ident("missing"), ident("later")] }),
    ];
    let r = analyze_program(&program(Vec::new(), body));
    assert_eq!(r, Err(SemanticError::UndefinedVariable("missing".to_string())));
    assert_eq!(r.unwrap_err().message(), "Undefined variable: missing");
}

#[test]
fn let_binding_is_not_visible_before_it() {
    let body = vec![
        Stmt::Expr(ident("x")),
        Stmt::Let { name: "x".to_string(), expr: Expr::Int(0) },
    ];
    assert_eq!(
        analyze_program(&program(Vec::new(), body)),
        Err(SemanticError::UndefinedVariable("x".to_string()))
    );
}
