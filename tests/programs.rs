use scm_engine::builtins::{
    apply_target, builtin_car, builtin_cdr, builtin_cons, builtin_length, builtin_list,
};
use scm_engine::engine::{Action, ExecError, Machine, ScmExecContext};
use scm_engine::parser::{Parser, SyntaxError};
use scm_engine::value::{ScmCallable, ScmValue};

fn int_args(args: &[ScmValue]) -> Vec<i64> {
    args.iter()
        .map(|a| match a {
            ScmValue::Integer(n) => *n,
            _ => panic!("not an integer"),
        })
        .collect()
}

fn host(m: &mut Machine, name: &str, args: Vec<ScmValue>) -> Result<Action, ExecError> {
    let value = match name {
        "apply" => {
            let (p, items) = apply_target(&args).expect("apply");
            return m.invoke(p, items);
        }
        "list" => builtin_list(&args),
        "cons" => builtin_cons(&args).expect("cons"),
        "car" => builtin_car(&args).expect("car"),
        "cdr" => builtin_cdr(&args).expect("cdr"),
        "length" => builtin_length(&args).expect("length"),
        "+" => ScmValue::Integer(int_args(&args).iter().sum()),
        "*" => ScmValue::Integer(int_args(&args).iter().product()),
        "-" => {
            let v = int_args(&args);
            ScmValue::Integer(if v.len() == 1 { -v[0] } else { v[0] - v[1..].iter().sum::<i64>() })
        }
        "=" => {
            let v = int_args(&args);
            ScmValue::Bool(v[0] == v[1])
        }
        _ => panic!("unknown builtin"),
    };
    Ok(m.resume(value))
}

fn context() -> ScmExecContext {
    let mut ctx = ScmExecContext::new();
    for name in ["apply", "list", "cons", "car", "cdr", "length", "+", "*", "-", "="] {
        ctx.register_builtin(name);
    }
    ctx
}

fn exec(ctx: &mut ScmExecContext, p: ScmCallable) -> Result<ScmValue, ExecError> {
    let mut m = Machine::new();
    let mut action = m.invoke(p, Vec::new())?;
    loop {
        action = match action {
            Action::Continue => m.step(ctx)?,
            Action::CallBuiltin(name, args) => host(&mut m, &name, args)?,
            Action::Done(v) => return Ok(v),
        };
    }
}

/// Runs every form of `src` and returns the result of each.
fn run_all(ctx: &mut ScmExecContext, src: &str) -> Vec<Result<ScmValue, ExecError>> {
    let mut parser = Parser::new(src).expect("lexes");
    let forms = parser.parse().expect("parses");
    forms.into_iter().map(|p| exec(ctx, p)).collect()
}

fn last(src: &str) -> ScmValue {
    let mut ctx = context();
    run_all(&mut ctx, src).pop().unwrap().unwrap()
}

fn as_int(v: ScmValue) -> i64 {
    match v {
        ScmValue::Integer(n) => n,
        other => panic!("expected an integer, got {:?}", other),
    }
}

#[test]
fn zero_is_true() {
    assert_eq!(as_int(last("(if 0 1 2)")), 1);
}

#[test]
fn false_is_false() {
    assert_eq!(as_int(last("(if #f 1 2)")), 2);
}

#[test]
fn nil_and_empty_string_are_true() {
    assert_eq!(as_int(last("(if () 1 2)")), 1);
    assert_eq!(as_int(last("(if \"\" 1 2)")), 1);
}

#[test]
fn if_without_else_gives_nil() {
    assert!(matches!(last("(if #f 99)"), ScmValue::Nil));
    assert_eq!(as_int(last("(if #t 99)")), 99);
}

#[test]
fn only_the_taken_branch_runs() {
    let mut ctx = context();
    let rs = run_all(&mut ctx, "(define a 0) (define b 0) (if #t (define a 1) (define b 1)) (if #t a) (if #t b)");
    assert_eq!(as_int(rs[3].as_ref().cloned().unwrap()), 1);
    assert_eq!(as_int(rs[4].as_ref().cloned().unwrap()), 0);
    let rs = run_all(&mut ctx, "(if #f (define a 2) (define b 2)) (if #t a) (if #t b)");
    assert_eq!(as_int(rs[1].as_ref().cloned().unwrap()), 1);
    assert_eq!(as_int(rs[2].as_ref().cloned().unwrap()), 2);
}

#[test]
fn if_leaves_one_value() {
    assert_eq!(as_int(last("(+ (if #f 1 2) (if #t 10 20))")), 12);
}

#[test]
fn pair_round_trip() {
    assert_eq!(as_int(last("(car (cons 1 2))")), 1);
    assert_eq!(as_int(last("(cdr (cons 1 2))")), 2);
    assert_eq!(as_int(last("(length (list 1 2 3))")), 3);
}

#[test]
fn closures_capture_by_value() {
    let mut ctx = context();
    let rs = run_all(&mut ctx, "(define x 10) (define f (lambda () x)) (define x 20) (f)");
    assert_eq!(as_int(rs[3].as_ref().cloned().unwrap()), 10);
}

#[test]
fn recursion_through_late_binding() {
    let src = "(define (fact n) (if (= n 0) 1 (* n (fact (- n 1))))) (fact 5)";
    assert_eq!(as_int(last(src)), 120);
}

#[test]
fn arguments_run_right_to_left() {
    let mut ctx = context();
    let rs = run_all(&mut ctx, "(list (define x 1) (define x 2)) (if #t x)");
    assert_eq!(as_int(rs[1].as_ref().cloned().unwrap()), 1);
}

#[test]
fn define_inside_body_is_global() {
    let mut ctx = context();
    let rs = run_all(&mut ctx, "(define y 1) (define (f) (define y 5)) (f) (if #t y)");
    assert_eq!(as_int(rs[3].as_ref().cloned().unwrap()), 5);
}

#[test]
fn immediately_invoked_lambda() {
    assert_eq!(as_int(last("((lambda (x) (+ x 1)) 41)")), 42);
    assert_eq!(as_int(last("((lambda x (* x 2)) 21)")), 42);
}

#[test]
fn nested_closure_captures_outer_argument() {
    let src = "(define (adder n) (lambda (m) (+ n m))) (define add3 (adder 3)) (add3 4)";
    assert_eq!(as_int(last(src)), 7);
}

#[test]
fn nested_lambda_parameter_is_not_captured() {
    let src = "(define y 100) (define (f x) (lambda (y) (+ x y))) ((f 1) 2)";
    assert_eq!(as_int(last(src)), 3);
}

#[test]
fn empty_form_is_nil() {
    assert!(matches!(last("()"), ScmValue::Nil));
}

#[test]
fn define_returns_nil() {
    assert!(matches!(last("(define z 3)"), ScmValue::Nil));
}

#[test]
fn unknown_variable_fails_only_its_form() {
    let mut ctx = context();
    let rs = run_all(&mut ctx, "(define a 1) (+ a nope) (if #t a)");
    assert!(matches!(&rs[1], Err(ExecError::UnknownVariable(s)) if s == "nope"));
    assert_eq!(as_int(rs[2].as_ref().cloned().unwrap()), 1);
}

#[test]
fn calling_a_number_fails() {
    let mut ctx = context();
    let rs = run_all(&mut ctx, "(define k 5) (k 1)");
    assert!(matches!(&rs[1], Err(ExecError::NotCallable(s)) if s == "k"));
}

#[test]
fn wrong_arity_fails() {
    let mut ctx = context();
    let rs = run_all(&mut ctx, "(define (f a b) a) (f 1)");
    assert!(matches!(&rs[1], Err(ExecError::ArityMismatch)));
}

#[test]
fn unbalanced_form_is_a_syntax_error() {
    let mut parser = Parser::new("(+ 1 2").unwrap();
    assert!(matches!(parser.parse(), Err(SyntaxError::UnexpectedToken(4))));
}

#[test]
fn trailing_atom_is_a_syntax_error() {
    let mut parser = Parser::new("(+ 1 2) 5").unwrap();
    assert!(matches!(parser.parse(), Err(SyntaxError::UnexpectedToken(5))));
}

#[test]
fn lambda_without_formals_is_a_syntax_error() {
    let mut parser = Parser::new("(lambda 5 5)").unwrap();
    assert!(matches!(parser.parse(), Err(SyntaxError::UnexpectedToken(2))));
}

#[test]
fn lexical_error_reaches_the_parser() {
    assert!(matches!(Parser::new("(a [)"), Err(SyntaxError::Lexical(p)) if p.line == 1 && p.row == 4));
}
