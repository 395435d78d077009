use minilang::ast::{BinaryOp, Expr, Stmt, UnaryOp};
use minilang::eval::{eval_expr, eval_program, eval_stmt, Environment, EvalError, NumOp};
use minilang::value::Value;

const FUEL: u64 = 100;

fn arith(op: NumOp, a: u64, b: u64) -> u64 {
    let x = f64::from_bits(a);
    let y = f64::from_bits(b);
    match op {
        NumOp::Add => (x + y).to_bits(),
        NumOp::Sub => (x - y).to_bits(),
        NumOp::Mul => (x * y).to_bits(),
        NumOp::Div => (x / y).to_bits(),
        NumOp::Neg => (-x).to_bits(),
        NumOp::Trunc => (x as usize) as u64,
    }
}

fn num(x: f64) -> Expr {
    Expr::Number(x.to_bits())
}

fn text(s: &str) -> Expr {
    Expr::String(s.as_bytes().to_vec())
}

fn var(n: &str) -> Expr {
    Expr::Variable(n.as_bytes().to_vec())
}

fn name(n: &str) -> Vec<u8> {
    n.as_bytes().to_vec()
}

fn bin(op: BinaryOp, l: Expr, r: Expr) -> Expr {
    Expr::BinaryOp(op, Box::new(l), Box::new(r))
}

fn neg(e: Expr) -> Expr {
    Expr::UnaryOp(UnaryOp::Neg, Box::new(e))
}

fn expect_number(v: &Value) -> f64 {
    match v {
        Value::Number(bits) => f64::from_bits(*bits),
        other => panic!("expected a number, got {:?}", other),
    }
}

fn expect_string(v: &Value) -> Vec<u8> {
    match v {
        Value::String(s) => (**s).clone(),
        other => panic!("expected a string, got {:?}", other),
    }
}

#[test]
fn evaluate_literals() {
    let env = Environment::new();
    let v = eval_expr(&env, &num(3.14), &arith, FUEL).unwrap();
    assert_eq!(expect_number(&v), 3.14);
    let v = eval_expr(&env, &text("hi"), &arith, FUEL).unwrap();
    assert_eq!(expect_string(&v), b"hi".to_vec());
}

#[test]
fn arithmetic_follows_precedence_of_the_tree() {
    // 1 + 2 * 3 / 4, shaped as (1 + ((2 * 3) / 4)), yields 2.5.
    let env = Environment::new();
    let e = bin(
        BinaryOp::Add,
        num(1.0),
        bin(BinaryOp::Div, bin(BinaryOp::Mul, num(2.0), num(3.0)), num(4.0)),
    );
    let v = eval_expr(&env, &e, &arith, FUEL).unwrap();
    assert_eq!(expect_number(&v), 2.5);
}

#[test]
fn negation_of_a_parenthesised_difference() {
    // 3 + -(1 - 2) yields 4.0.
    let env = Environment::new();
    let e = bin(BinaryOp::Add, num(3.0), neg(bin(BinaryOp::Sub, num(1.0), num(2.0))));
    let v = eval_expr(&env, &e, &arith, FUEL).unwrap();
    assert_eq!(expect_number(&v), 4.0);
}

#[test]
fn division_by_zero_is_infinity_not_an_error() {
    let env = Environment::new();
    let e = bin(BinaryOp::Div, num(1.0), num(0.0));
    let v = eval_expr(&env, &e, &arith, FUEL).unwrap();
    assert!(expect_number(&v).is_infinite());
}

#[test]
fn string_concatenation() {
    let env = Environment::new();
    let e = bin(BinaryOp::Add, text("foo"), text("bar"));
    let v = eval_expr(&env, &e, &arith, FUEL).unwrap();
    assert_eq!(expect_string(&v), b"foobar".to_vec());
}

#[test]
fn string_repetition_truncates_the_count() {
    let env = Environment::new();
    let e = bin(BinaryOp::Mul, text("ab"), num(2.7));
    let v = eval_expr(&env, &e, &arith, FUEL).unwrap();
    assert_eq!(expect_string(&v), b"abab".to_vec());
    // A negative count saturates to zero repetitions.
    let e = bin(BinaryOp::Mul, text("ab"), num(-1.0));
    let v = eval_expr(&env, &e, &arith, FUEL).unwrap();
    assert_eq!(expect_string(&v), b"".to_vec());
}

#[test]
fn inline_let_binds_only_its_body() {
    // let foo = 1 + 2 in foo * 3 yields 9.0.
    let env = Environment::new();
    let e = Expr::Let(
        name("foo"),
        Box::new(bin(BinaryOp::Add, num(1.0), num(2.0))),
        Box::new(bin(BinaryOp::Mul, var("foo"), num(3.0))),
    );
    let v = eval_expr(&env, &e, &arith, FUEL).unwrap();
    assert_eq!(expect_number(&v), 9.0);
    // The binding is not visible outside the expression.
    assert!(env.lookup(&name("foo")).is_none());
}

#[test]
fn top_level_let_persists_for_the_rest_of_the_program() {
    // let x = 1 + 2; x * 3 yields 9.0 with x mapped to 3.0 at the end.
    let program = vec![
        Stmt::Let(name("x"), bin(BinaryOp::Add, num(1.0), num(2.0))),
        Stmt::Expr(bin(BinaryOp::Mul, var("x"), num(3.0))),
    ];
    let env = Environment::new();
    let (v, final_env) = eval_program(&env, &program, &arith, FUEL).unwrap();
    assert_eq!(expect_number(&v), 9.0);
    let bound = final_env.lookup(&name("x")).expect("x stays bound");
    assert_eq!(expect_number(&bound), 3.0);
}

#[test]
fn empty_program_yields_unit_and_the_same_environment() {
    let env = Environment::new().with_variable(name("x"), Value::Number(1.0f64.to_bits()));
    let (v, final_env) = eval_program(&env, &[], &arith, FUEL).unwrap();
    assert!(matches!(v, Value::Unit));
    let bound = final_env.lookup(&name("x")).expect("x stays bound");
    assert_eq!(expect_number(&bound), 1.0);
}

#[test]
fn def_binds_a_function_and_yields_unit() {
    let env = Environment::new();
    let stmt = Stmt::Def(name("f"), vec![name("y")], bin(BinaryOp::Add, var("y"), num(1.0)));
    let (v, env2) = eval_stmt(&env, &stmt, &arith, FUEL).unwrap();
    assert!(matches!(v, Value::Unit));
    assert!(matches!(env2.lookup(&name("f")), Some(Value::Function(..))));
    // The environment the statement was evaluated against is unchanged.
    assert!(env.lookup(&name("f")).is_none());
}

#[test]
fn function_application_resolves_free_names_at_the_call_site() {
    // def f(y) = y + x, called as f(5) where the call site binds x to 10,
    // yields 15: the body sees the caller's environment, not a closure.
    let program = vec![
        Stmt::Def(name("f"), vec![name("y")], bin(BinaryOp::Add, var("y"), var("x"))),
        Stmt::Expr(Expr::Apply(Box::new(var("f")), vec![num(5.0)])),
    ];
    let env = Environment::new().with_variable(name("x"), Value::Number(10.0f64.to_bits()));
    let (v, _) = eval_program(&env, &program, &arith, FUEL).unwrap();
    assert_eq!(expect_number(&v), 15.0);
}

#[test]
fn undefined_variable_error_names_the_variable() {
    let env = Environment::new();
    let r = eval_expr(&env, &var("nope"), &arith, FUEL);
    assert_eq!(r.err(), Some(EvalError::UndefinedVariable(name("nope"))));
}

#[test]
fn applying_a_non_function_is_uncallable() {
    let env = Environment::new();
    let e = Expr::Apply(Box::new(num(1.0)), vec![]);
    let r = eval_expr(&env, &e, &arith, FUEL);
    assert_eq!(r.err(), Some(EvalError::UncallableObject));
}

#[test]
fn wrong_number_of_arguments() {
    let program = vec![
        Stmt::Def(
            name("f"),
            vec![name("a"), name("b")],
            bin(BinaryOp::Add, var("a"), var("b")),
        ),
        Stmt::Expr(Expr::Apply(Box::new(var("f")), vec![num(1.0)])),
    ];
    let env = Environment::new();
    let r = eval_program(&env, &program, &arith, FUEL);
    assert_eq!(r.err(), Some(EvalError::WrongNumberOfArguments));
}

#[test]
fn subtracting_strings_is_a_bad_operand_type() {
    let env = Environment::new();
    let e = bin(BinaryOp::Sub, text("a"), text("b"));
    let r = eval_expr(&env, &e, &arith, FUEL);
    assert_eq!(r.err(), Some(EvalError::BadOperandType));
}

#[test]
fn negating_a_string_is_a_bad_operand_type() {
    let env = Environment::new();
    let r = eval_expr(&env, &neg(text("a")), &arith, FUEL);
    assert_eq!(r.err(), Some(EvalError::BadOperandType));
}

#[test]
fn unbounded_recursion_runs_out_of_fuel() {
    let program = vec![
        Stmt::Def(name("f"), vec![name("x")], Expr::Apply(Box::new(var("f")), vec![var("x")])),
        Stmt::Expr(Expr::Apply(Box::new(var("f")), vec![num(1.0)])),
    ];
    let env = Environment::new();
    let r = eval_program(&env, &program, &arith, 16);
    assert_eq!(r.err(), Some(EvalError::RecursionLimit));
}

#[test]
fn extension_shadows_without_touching_the_base() {
    let base = Environment::new().with_variable(name("x"), Value::Number(1.0f64.to_bits()));
    let extended = base.with_variable(name("x"), Value::Number(2.0f64.to_bits()));
    let extended2 = base.with_variable(name("y"), Value::Number(3.0f64.to_bits()));
    // The new bindings are visible in the extensions,
    assert_eq!(expect_number(&extended.lookup(&name("x")).unwrap()), 2.0);
    assert_eq!(expect_number(&extended2.lookup(&name("y")).unwrap()), 3.0);
    // unrelated names resolve as in the base,
    assert_eq!(expect_number(&extended2.lookup(&name("x")).unwrap()), 1.0);
    // and the base is exactly as it was.
    assert_eq!(expect_number(&base.lookup(&name("x")).unwrap()), 1.0);
    assert!(base.lookup(&name("y")).is_none());
}

#[test]
fn evaluating_against_the_base_after_extending_it() {
    let base = Environment::new().with_variable(name("x"), Value::Number(7.0f64.to_bits()));
    let before = expect_number(&eval_expr(&base, &var("x"), &arith, FUEL).unwrap());
    let _extended = base.with_variable(name("x"), Value::String(std::sync::Arc::new(b"other".to_vec())));
    let after = expect_number(&eval_expr(&base, &var("x"), &arith, FUEL).unwrap());
    assert_eq!(before, 7.0);
    assert_eq!(after, 7.0);
}

#[test]
fn arguments_are_evaluated_against_the_callers_environment() {
    // def f(y) = y * 2; f(x + 1) with x bound to 3 yields 8.
    let program = vec![
        Stmt::Def(name("f"), vec![name("y")], bin(BinaryOp::Mul, var("y"), num(2.0))),
        Stmt::Expr(Expr::Apply(
            Box::new(var("f")),
            vec![bin(BinaryOp::Add, var("x"), num(1.0))],
        )),
    ];
    let env = Environment::new().with_variable(name("x"), Value::Number(3.0f64.to_bits()));
    let (v, _) = eval_program(&env, &program, &arith, FUEL).unwrap();
    assert_eq!(expect_number(&v), 8.0);
}

#[test]
fn cloning_an_environment_keeps_its_bindings() {
    let env = Environment::new()
        .with_variable(name("x"), Value::Number(1.5f64.to_bits()))
        .with_variable(name("y"), Value::String(std::sync::Arc::new(b"hi".to_vec())));
    let copy = env.clone();
    assert_eq!(expect_number(&copy.lookup(&name("x")).unwrap()), 1.5);
    assert_eq!(expect_string(&copy.lookup(&name("y")).unwrap()), b"hi".to_vec());
    assert!(copy.lookup(&name("z")).is_none());
}
