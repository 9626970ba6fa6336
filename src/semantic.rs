use vstd::prelude::*;
use vstd::string::StringExecFns;
use crate::ast::{Expr, Function, Param, Program, Stmt};

verus! {

broadcast use {
    vstd::std_specs::vec::axiom_vec_decreases_to_view,
    vstd::seq::axiom_seq_index_decreases,
    vstd::seq::axiom_seq_subrange_decreases,
};

/// Name-to-type bindings in force at some point of a function.
pub type Env = Map<Seq<char>, Seq<char>>;

/// A name and its type.
#[derive(Debug, Clone)]
pub struct Symbol {
    pub name: String,
    pub ty: String,
}

/// The bindings of a function body. Later bindings shadow earlier ones
/// of the same name.
#[derive(Debug, Clone)]
pub struct Scope {
    symbols: Vec<Symbol>,
}

/// The bindings that a stack of symbols gives, the latest of each name
/// winning.
pub open spec fn stack_env(s: Seq<Symbol>) -> Env
    decreases s.len(),
{
    if s.len() == 0 {
        Map::empty()
    } else {
        stack_env(s.drop_last()).insert(s.last().name@, s.last().ty@)
    }
}

proof fn lemma_stack_env_latest(s: Seq<Symbol>, k: Seq<char>, i: int)
    requires
        0 <= i < s.len(),
        s[i].name@ == k,
        forall|j: int| i < j < s.len() ==> (#[trigger] s[j]).name@ != k,
    ensures
        stack_env(s).contains_key(k),
        stack_env(s)[k] == s[i].ty@,
    decreases s.len(),
{
    if i < s.len() - 1 {
        lemma_stack_env_latest(s.drop_last(), k, i);
    }
}

proof fn lemma_stack_env_absent(s: Seq<Symbol>, k: Seq<char>)
    requires
        forall|j: int| 0 <= j < s.len() ==> (#[trigger] s[j]).name@ != k,
    ensures
        !stack_env(s).contains_key(k),
    decreases s.len(),
{
    if s.len() > 0 {
        lemma_stack_env_absent(s.drop_last(), k);
    }
}

impl Scope {
    pub closed spec fn view(&self) -> Env {
        stack_env(self.symbols@)
    }

    pub fn new() -> (s: Self)
        ensures
            s@ == Env::empty(),
    {
        Scope { symbols: Vec::new() }
    }

    /// Binds `name` to `ty`, shadowing an earlier binding of `name`.
    pub fn insert(&mut self, name: String, ty: String)
        ensures
            final(self)@ == old(self)@.insert(name@, ty@),
    {
        let ghost old_syms = self.symbols@;
        self.symbols.push(Symbol { name, ty });
        assert(self.symbols@.drop_last() =~= old_syms);
    }

    /// The binding of `name` in force, if any.
    pub fn get(&self, name: &str) -> (r: Option<&Symbol>)
        ensures
            r.is_some() == self@.contains_key(name@),
            r.is_some() ==> r->Some_0.name@ == name@ && r->Some_0.ty@ == self@[name@],
    {
        let key = String::from_str(name);
        let mut i: usize = self.symbols.len();
        while i > 0
            invariant
                i <= self.symbols@.len(),
                key@ == name@,
                forall|j: int| i <= j < self.symbols@.len() ==> (#[trigger] self.symbols@[j]).name@ != name@,
            decreases i,
        {
            i = i - 1;
            if self.symbols[i].name == key {
                proof {
                    lemma_stack_env_latest(self.symbols@, name@, i as int);
                }
                return Some(&self.symbols[i]);
            }
        }
        proof {
            lemma_stack_env_absent(self.symbols@, name@);
        }
        None
    }
}

/// Why a program was rejected.
#[derive(Debug, Clone, PartialEq, Eq)]
pub enum SemanticError {
    /// A name was used where no binding of it is in force.
    UndefinedVariable(String),
}

impl SemanticError {
    /// The error as a sentence.
    pub fn message(&self) -> (r: String)
        ensures
            r@ == (match self {
                SemanticError::UndefinedVariable(n) => "Undefined variable: "@ + n@,
            }),
    {
        match self {
            SemanticError::UndefinedVariable(n) => {
                let mut m = String::from_str("Undefined variable: ");
                m.append(n.as_str());
                m
            },
        }
    }
}

/// The type of `e` under `env`, or the first name, left to right, that it
/// uses without a binding. Literals and calls are `int`; a name has the
/// type it is bound to; awaiting or spawning keeps the operand's type.
pub open spec fn expr_type(e: Expr, env: Env) -> Result<Seq<char>, Seq<char>>
    decreases e,
{
    match e {
        Expr::Int(_) => Ok("int"@),
        Expr::Ident(n) => if env.contains_key(n@) {
            Ok(env[n@])
        } else {
            Err(n@)
        },
        Expr::Call { args, .. } => match args_check(args@, env) {
            Ok(()) => Ok("int"@),
            Err(n) => Err(n),
        },
        Expr::Await(inner) => expr_type(*inner, env),
        Expr::Spawn(inner) => expr_type(*inner, env),
    }
}

/// The first name, left to right, that `args` use without a binding.
pub open spec fn args_check(args: Seq<Expr>, env: Env) -> Result<(), Seq<char>>
    decreases args,
{
    if args.len() == 0 {
        Ok(())
    } else {
        match expr_type(args[0], env) {
            Err(n) => Err(n),
            Ok(_) => args_check(args.subrange(1, args.len() as int), env),
        }
    }
}

/// Checks `stmts` in order under `env`; a `let` binds its name to the
/// type of its value for the statements after it.
pub open spec fn stmts_check(stmts: Seq<Stmt>, env: Env) -> Result<(), Seq<char>>
    decreases stmts.len(),
{
    if stmts.len() == 0 {
        Ok(())
    } else {
        let rest = stmts.subrange(1, stmts.len() as int);
        match stmts[0] {
            Stmt::Let { name, expr } => match expr_type(expr, env) {
                Ok(t) => stmts_check(rest, env.insert(name@, t)),
                Err(n) => Err(n),
            },
            Stmt::Expr(expr) => match expr_type(expr, env) {
                Ok(_) => stmts_check(rest, env),
                Err(n) => Err(n),
            },
            Stmt::MacroInvoke { args, .. } => match args_check(args@, env) {
                Ok(()) => stmts_check(rest, env),
                Err(n) => Err(n),
            },
        }
    }
}

/// The bindings of a function's parameters, a later one of a name winning.
pub open spec fn params_env(params: Seq<Param>) -> Env
    decreases params.len(),
{
    if params.len() == 0 {
        Map::empty()
    } else {
        params_env(params.drop_last()).insert(params.last().name@, params.last().ty@)
    }
}

pub open spec fn function_check(f: Function) -> Result<(), Seq<char>> {
    stmts_check(f.body@, params_env(f.params@))
}

/// The first undefined name of the first function that uses one.
pub open spec fn program_check(fs: Seq<Function>) -> Result<(), Seq<char>>
    decreases fs.len(),
{
    if fs.len() == 0 {
        Ok(())
    } else {
        match function_check(fs[0]) {
            Err(n) => Err(n),
            Ok(()) => program_check(fs.subrange(1, fs.len() as int)),
        }
    }
}

/// `r` reports `spec_r`: success, or the same undefined name.
pub open spec fn reports(r: Result<(), SemanticError>, spec_r: Result<(), Seq<char>>) -> bool {
    match (r, spec_r) {
        (Ok(()), Ok(())) => true,
        (Err(SemanticError::UndefinedVariable(n)), Err(m)) => n@ == m,
        _ => false,
    }
}

/// Checks that every name each function uses is bound where it is used.
pub fn analyze_program(prog: &Program) -> (r: Result<(), SemanticError>)
    ensures
        reports(r, program_check(prog.functions@)),
{
    let mut i: usize = 0;
    assert(prog.functions@.subrange(0, prog.functions@.len() as int) =~= prog.functions@);
    while i < prog.functions.len()
        invariant
            i <= prog.functions@.len(),
            program_check(prog.functions@) == program_check(
                prog.functions@.subrange(i as int, prog.functions@.len() as int),
            ),
        decreases prog.functions@.len() - i,
    {
        let ghost rest = prog.functions@.subrange(i as int, prog.functions@.len() as int);
        assert(rest[0] == prog.functions@[i as int]);
        assert(rest.subrange(1, rest.len() as int) =~= prog.functions@.subrange(
            i + 1,
            prog.functions@.len() as int,
        ));
        let r = analyze_function(&prog.functions[i]);
        if r.is_err() {
            return r;
        }
        i = i + 1;
    }
    Ok(())
}

fn analyze_function(func: &Function) -> (r: Result<(), SemanticError>)
    ensures
        reports(r, function_check(*func)),
{
    let mut scope = Scope::new();
    let mut i: usize = 0;
    while i < func.params.len()
        invariant
            i <= func.params@.len(),
            scope@ == params_env(func.params@.take(i as int)),
        decreases func.params@.len() - i,
    {
        let p = &func.params[i];
        scope.insert(p.name.clone(), p.ty.clone());
        proof {
            let cur = func.params@.take(i + 1);
            assert(cur.drop_last() =~= func.params@.take(i as int));
        }
        i = i + 1;
    }
    assert(func.params@.take(func.params@.len() as int) =~= func.params@);
    let mut i: usize = 0;
    assert(func.body@.subrange(0, func.body@.len() as int) =~= func.body@);
    while i < func.body.len()
        invariant
            i <= func.body@.len(),
            function_check(*func) == stmts_check(
                func.body@.subrange(i as int, func.body@.len() as int),
                scope@,
            ),
        decreases func.body@.len() - i,
    {
        let ghost rest = func.body@.subrange(i as int, func.body@.len() as int);
        assert(rest[0] == func.body@[i as int]);
        assert(rest.subrange(1, rest.len() as int) =~= func.body@.subrange(
            i + 1,
            func.body@.len() as int,
        ));
        let r = analyze_stmt(&func.body[i], &mut scope);
        if r.is_err() {
            return r;
        }
        i = i + 1;
    }
    Ok(())
}

/// Checks one statement; a `let` binds its name in `scope`.
fn analyze_stmt(stmt: &Stmt, scope: &mut Scope) -> (r: Result<(), SemanticError>)
    ensures
        match *stmt {
            Stmt::Let { name, expr } => match expr_type(expr, old(scope)@) {
                Ok(t) => r is Ok && final(scope)@ == old(scope)@.insert(name@, t),
                Err(n) => reports(r, Err(n)),
            },
            Stmt::Expr(expr) => match expr_type(expr, old(scope)@) {
                Ok(_) => r is Ok && final(scope)@ == old(scope)@,
                Err(n) => reports(r, Err(n)),
            },
            Stmt::MacroInvoke { args, .. } => reports(r, args_check(args@, old(scope)@))
                && (r is Ok ==> final(scope)@ == old(scope)@),
        },
{
    match stmt {
        Stmt::Let { name, expr } => {
            match analyze_expr(expr, scope) {
                Ok(ty) => {
                    scope.insert(name.clone(), ty);
                    Ok(())
                },
                Err(e) => Err(e),
            }
        },
        Stmt::Expr(expr) => {
            match analyze_expr(expr, scope) {
                Ok(_) => Ok(()),
                Err(e) => Err(e),
            }
        },
        Stmt::MacroInvoke { args, .. } => analyze_args(args, scope),
    }
}

/// `r` carries the result `spec_r`: the same type, or the same undefined
/// name.
pub open spec fn types_as(r: Result<String, SemanticError>, spec_r: Result<Seq<char>, Seq<char>>) -> bool {
    match (r, spec_r) {
        (Ok(t), Ok(u)) => t@ == u,
        (Err(SemanticError::UndefinedVariable(n)), Err(m)) => n@ == m,
        _ => false,
    }
}

fn analyze_args(args: &Vec<Expr>, scope: &Scope) -> (r: Result<(), SemanticError>)
    ensures
        reports(r, args_check(args@, scope@)),
    decreases args@, 1nat,
{
    let mut i: usize = 0;
    assert(args@.subrange(0, args@.len() as int) =~= args@);
    while i < args.len()
        invariant
            i <= args@.len(),
            args_check(args@, scope@) == args_check(args@.subrange(i as int, args@.len() as int), scope@),
        decreases args@.len() - i,
    {
        let ghost rest = args@.subrange(i as int, args@.len() as int);
        assert(rest[0] == args@[i as int]);
        assert(rest.subrange(1, rest.len() as int) =~= args@.subrange(i + 1, args@.len() as int));
        proof {
            assert(decreases_to!(args@ => args@[i as int]));
        }
        match analyze_expr(&args[i], scope) {
            Ok(_) => {},
            Err(e) => {
                return Err(e);
            },
        }
        i = i + 1;
    }
    Ok(())
}

fn analyze_expr(expr: &Expr, scope: &Scope) -> (r: Result<String, SemanticError>)
    ensures
        types_as(r, expr_type(*expr, scope@)),
    decreases *expr, 0nat,
{
    match expr {
        Expr::Int(_) => Ok(String::from_str("int")),
        Expr::Ident(name) => {
            match scope.get(name.as_str()) {
                Some(sym) => Ok(sym.ty.clone()),
                None => Err(SemanticError::UndefinedVariable(name.clone())),
            }
        },
        Expr::Call { args, .. } => {
            proof {
                assert(decreases_to!(*expr => expr->Call_args));
            }
            match analyze_args(args, scope) {
                Ok(()) => Ok(String::from_str("int")),
                Err(e) => Err(e),
            }
        },
        Expr::Await(inner) => analyze_expr(inner, scope),
        Expr::Spawn(inner) => analyze_expr(inner, scope),
    }
}

} // verus!
