use monkey::environment::Environment;
use monkey::eval::{Error, Program};
use monkey::lexer::Lexer;
use monkey::object::Object;
use monkey::parser::Parser;

fn eval(text: &str) -> Result<Object, Error> {
    let mut lexer = Lexer::new(text);
    let mut parser = Parser::new(lexer.tokens());
    let mut program = Program::default();
    let mut env = Environment::new();
    program.eval(&mut parser, &mut env)
}

fn generate_eval(text: &str) -> Object {
    let eval = eval(text);
    match eval {
        Ok(expr) => {
            println!("{}", expr.render());
            expr
        }
        Err(err) => {
            println!("error: {}", err.message());
            Object::Nil
        }
    }
}

fn generate_eval_err(text: &str, expected: &str) -> Object {
    let eval = eval(text);
    match eval {
        Ok(_) => {
            panic!("should not happen");
        }
        Err(err) => {
            assert_eq!(err.message(), expected);
            println!("error: {}", err.message());
            Object::Nil
        }
    }
}

#[test]
fn ev() {
    assert_eq!(generate_eval("5"), Object::Int(5));
    assert_eq!(generate_eval("true"), Object::Bool(true));
    assert_eq!(generate_eval("false"), Object::Bool(false));
    assert_eq!(generate_eval("!false"), Object::Bool(true));
    assert_eq!(generate_eval("!true"), Object::Bool(false));
    assert_eq!(generate_eval("!5"), Object::Bool(false));
    assert_eq!(generate_eval("!!true"), Object::Bool(true));
    assert_eq!(generate_eval("!!false"), Object::Bool(false));
    assert_eq!(generate_eval("!!5"), Object::Bool(true));
    assert_eq!(generate_eval("-5"), Object::Int(-5));
    assert_eq!(generate_eval("-10"), Object::Int(-10));
    assert_eq!(generate_eval("-false"), Object::Nil);
    assert_eq!(generate_eval("5 + 10"), Object::Int(15));
    assert_eq!(generate_eval("2 * 2 * 2 * 2 * 2"), Object::Int(32));
    assert_eq!(generate_eval("50 / 2 * 2 + 10"), Object::Int(60));
    assert_eq!(generate_eval("2 * (5 + 10)"), Object::Int(30));
    assert_eq!(generate_eval("3 * 3 * 3 + 10"), Object::Int(37));
    assert_eq!(generate_eval("3 * (3 * 3) + 10"), Object::Int(37));
    assert_eq!(
        generate_eval("(5 + 10 * 2 + 15 / 3) * 2 + -10"),
        Object::Int(50)
    );
    assert_eq!(generate_eval("1 < 2"), Object::Bool(true));
    assert_eq!(generate_eval("1 > 2"), Object::Bool(false));
    assert_eq!(generate_eval("1 < 1"), Object::Bool(false));
    assert_eq!(generate_eval("1 > 1"), Object::Bool(false));
    assert_eq!(generate_eval("1 == 1"), Object::Bool(true));
    assert_eq!(generate_eval("1 != 1"), Object::Bool(false));
    assert_eq!(generate_eval("1 == 2"), Object::Bool(false));
    assert_eq!(generate_eval("1 != 2"), Object::Bool(true));
    assert_eq!(generate_eval("(1 < 2) == true"), Object::Bool(true));
    assert_eq!(generate_eval("(1 > 2) == true"), Object::Bool(false));
    assert_eq!(generate_eval("if (true) { 10 }"), Object::Int(10));
    assert_eq!(generate_eval("if (false) { 10 }"), Object::Nil);
    assert_eq!(generate_eval("if (1) { 10 }"), Object::Int(10));
    assert_eq!(generate_eval("if (1 > 2) { 10 }"), Object::Nil);
    assert_eq!(
        generate_eval("if (1 > 2) { 10 } else { 20 }"),
        Object::Int(20)
    );
    assert_eq!(
        generate_eval("if (1 < 2) { 10 } else { 20 }"),
        Object::Int(10)
    );
    assert_eq!(generate_eval("return 10;"), Object::Int(10));
    assert_eq!(generate_eval("return 10; 9;"), Object::Int(10));
    assert_eq!(generate_eval("return 2 * 5; 9;"), Object::Int(10));
    assert_eq!(generate_eval("9; return 2 * 5; 9;"), Object::Int(10));
    assert_eq!(generate_eval("let a = 5; a;"), Object::Int(5));
    assert_eq!(generate_eval("let a = 5 * 5; a"), Object::Int(25));
    assert_eq!(generate_eval("let a = 5; let b = a; b;"), Object::Int(5));
    assert_eq!(
        generate_eval("let a = 5; let b = a; let c = a + b + 5; c;"),
        Object::Int(15)
    );
    assert_eq!(
        generate_eval("if (10 > 1) {if (10 > 1) {return 10;}return 1;}"),
        Object::Int(10)
    );
    generate_eval_err("5 + true;", "type mismatch: 5 + true");
    generate_eval_err("5 + true; 5;", "type mismatch: 5 + true");
    generate_eval_err("-true", "unknown operator -true");
    generate_eval_err("true + false;", "type mismatch: true + false");
    generate_eval_err("5; true + false; 5", "type mismatch: true + false");
    generate_eval_err(
        "if (10 > 1) { true + false; }",
        "type mismatch: true + false",
    );
    generate_eval_err("foobar", "identifier not found: foobar");
    assert_eq!(
        generate_eval("let identity = fn(x) { x; }; identity(5);"),
        Object::Int(5)
    );
    assert_eq!(
        generate_eval("let identity = fn(x) { return x; }; identity(5);"),
        Object::Int(5)
    );
    assert_eq!(
        generate_eval("let double = fn(x) { x * 2; }; double(5);"),
        Object::Int(10)
    );
    assert_eq!(
        generate_eval("let add = fn(x, y) { x + y; }; add(5, 5);"),
        Object::Int(10)
    );
    assert_eq!(
        generate_eval("let add = fn(x, y) { x + y; }; add(5 + 5, add(5, 5));"),
        Object::Int(20)
    );
    assert_eq!(generate_eval("fn(x) { x; }(5)"), Object::Int(5));
    assert_eq!(generate_eval("let add = fn(x, y) { x + y; };"), Object::Nil);
}

#[test]
fn closure_sees_later_binding_in_captured_scope() {
    assert_eq!(
        generate_eval("let x = 5; let f = fn() { x }; let x = 6; f()"),
        Object::Int(6)
    );
}

#[test]
fn nested_return_escapes_all_blocks() {
    assert_eq!(
        generate_eval("if (true) { if (true) { return 10; } 9 }"),
        Object::Int(10)
    );
}

#[test]
fn division_truncates_and_rejects_zero() {
    assert_eq!(generate_eval("7 / 2"), Object::Int(3));
    assert_eq!(generate_eval("-7 / 2"), Object::Int(-3));
    assert_eq!(generate_eval("0 - 7 / 2"), Object::Int(-3));
    generate_eval_err("5 / 0", "division by zero");
    generate_eval_err("1 / (5 - 5)", "division by zero");
}

#[test]
fn call_of_non_function_is_an_error() {
    generate_eval_err("let x = 5; x(1)", "call of non-function");
    generate_eval_err("true(1)", "call of non-function");
}

#[test]
fn unbounded_recursion_hits_the_budget() {
    generate_eval_err("let f = fn() { f() }; f()", "recursion limit exceeded");
}

#[test]
fn arity_mismatch_is_positional() {
    // extra arguments are evaluated and dropped
    assert_eq!(
        generate_eval("let one = fn(x) { x }; one(1, 2, 3)"),
        Object::Int(1)
    );
    // a missing argument leaves its parameter unbound
    generate_eval_err(
        "let add = fn(x, y) { x + y }; add(1)",
        "identifier not found: y",
    );
}

#[test]
fn evaluation_is_deterministic() {
    let a = generate_eval("(5 + 10 * 2 + 15 / 3) * 2 + -10");
    let b = generate_eval("(5 + 10 * 2 + 15 / 3) * 2 + -10");
    assert_eq!(a, b);
    assert_eq!(a, Object::Int(50));
}

#[test]
fn nil_literal_and_truthiness() {
    assert_eq!(generate_eval("nil"), Object::Nil);
    assert_eq!(generate_eval("!nil"), Object::Bool(true));
    assert_eq!(generate_eval("if (nil) { 1 } else { 2 }"), Object::Int(2));
    assert_eq!(
        generate_eval("if (fn() { 0 }) { 1 } else { 2 }"),
        Object::Int(1)
    );
}

#[test]
fn arithmetic_wraps_at_the_boundary() {
    assert_eq!(
        generate_eval("9223372036854775807 + 1"),
        Object::Int(i64::MIN)
    );
    assert_eq!(
        generate_eval("0 - 9223372036854775807 - 1"),
        Object::Int(i64::MIN)
    );
}

#[test]
fn object_algebra_direct() {
    assert_eq!(Object::Int(2).add(Object::Int(3)), Ok(Object::Int(5)));
    assert_eq!(Object::Int(2).sub(Object::Int(3)), Ok(Object::Int(-1)));
    assert_eq!(Object::Int(2).mul(Object::Int(3)), Ok(Object::Int(6)));
    assert_eq!(Object::Int(7).div(Object::Int(2)), Ok(Object::Int(3)));
    assert_eq!(Object::Int(2).eq(Object::Int(2)), Ok(Object::Bool(true)));
    assert_eq!(Object::Int(2).not_eq(Object::Int(2)), Ok(Object::Bool(false)));
    assert_eq!(Object::Bool(true).eq(Object::Bool(false)), Ok(Object::Bool(false)));
    assert_eq!(Object::Int(2).lt(Object::Int(3)), Ok(Object::Bool(true)));
    assert_eq!(Object::Int(2).lte(Object::Int(2)), Ok(Object::Bool(true)));
    assert_eq!(Object::Int(2).gt(Object::Int(3)), Ok(Object::Bool(false)));
    assert_eq!(Object::Int(2).gte(Object::Int(3)), Ok(Object::Bool(false)));
    assert_eq!(Object::Int(5).minus(), Ok(Object::Int(-5)));
    assert_eq!(Object::Nil.bang(), Ok(Object::Bool(true)));
    assert_eq!(Object::Int(1).bang(), Ok(Object::Bool(false)));
    assert_eq!(Object::Nil.name(), "nil");
    assert_eq!(Object::Int(1).name(), "int");
    assert_eq!(Object::Bool(true).name(), "bool");
}

#[test]
fn mismatch_messages_render_both_operands() {
    generate_eval_err("nil + 1", "type mismatch: nil + 1");
    generate_eval_err("true < false", "type mismatch: true < false");
    generate_eval_err(
        "fn(x) { x } + 1",
        "type mismatch: fn(x) { ... } + 1",
    );
    generate_eval_err("-nil", "unknown operator -nil");
}
