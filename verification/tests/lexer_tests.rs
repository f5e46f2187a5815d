use monkey::lexer::Lexer;
use monkey::render::{i64_string, u64_string};
use monkey::repl::Repl;
use monkey::token::{Identifier, TokenType};

#[test]
fn parse() {
    let program = r#"
let five = 5;
let ten = 10;
let add = fn(x, y) {
x + y;
};
let result = add(five, ten);
!-/*5;
5 < 10 > 5;
if (5 < 10) {
return true;
} else {
return false;
}
10 == 10;
10 != 9;
"#;

    let mut lexer = Lexer::new(program);

    while let Some(l) = lexer.next() {
        println!("{:?}", l);
    }
}

#[test]
fn tokens_of_a_small_program() {
    let mut lexer = Lexer::new("let x = 1 <= 2;");
    assert_eq!(
        lexer.tokens(),
        vec![
            TokenType::Let,
            TokenType::Identifier(Identifier::new_str("x")),
            TokenType::Assign,
            TokenType::Int(1),
            TokenType::Lte,
            TokenType::Int(2),
            TokenType::Semicolon,
        ]
    );
}

#[test]
fn two_character_operators_take_lookahead() {
    let mut lexer = Lexer::new("== != <= >= = ! < >");
    assert_eq!(
        lexer.tokens(),
        vec![
            TokenType::Eq,
            TokenType::NotEq,
            TokenType::Lte,
            TokenType::Gte,
            TokenType::Assign,
            TokenType::Bang,
            TokenType::Lt,
            TokenType::Gt,
        ]
    );
}

#[test]
fn unknown_characters_are_illegal_tokens() {
    let mut lexer = Lexer::new("@ # 5");
    assert_eq!(
        lexer.tokens(),
        vec![TokenType::Illegal, TokenType::Illegal, TokenType::Int(5)]
    );
}

#[test]
fn oversized_integer_literal_is_illegal() {
    let mut lexer = Lexer::new("99999999999999999999");
    assert_eq!(lexer.tokens(), vec![TokenType::Illegal]);
    let mut edge = Lexer::new("9223372036854775807 9223372036854775808");
    assert_eq!(
        edge.tokens(),
        vec![TokenType::Int(i64::MAX), TokenType::Illegal]
    );
}

#[test]
fn keywords_are_recognised_exactly() {
    let mut lexer = Lexer::new("fn let true false if else return nil fns lets");
    assert_eq!(
        lexer.tokens(),
        vec![
            TokenType::Function,
            TokenType::Let,
            TokenType::True,
            TokenType::False,
            TokenType::If,
            TokenType::Else,
            TokenType::Return,
            TokenType::Nil,
            TokenType::Identifier(Identifier::new_str("fns")),
            TokenType::Identifier(Identifier::new_str("lets")),
        ]
    );
}

#[test]
fn integer_rendering_is_exact() {
    assert_eq!(u64_string(0), "0");
    assert_eq!(u64_string(907), "907");
    assert_eq!(i64_string(-1), "-1");
    assert_eq!(i64_string(i64::MAX), "9223372036854775807");
    assert_eq!(i64_string(i64::MIN), "-9223372036854775808");
}

#[test]
fn repl_threads_one_environment() {
    let mut repl = Repl::new();
    assert_eq!(repl.eval_line("let a = 5;"), "nil");
    assert_eq!(repl.eval_line("a + 2"), "7");
    assert_eq!(repl.eval_line("oops"), "error: identifier not found: oops");
    // bindings made before the error survive it
    assert_eq!(repl.eval_line("let b = 1; b + nope; 9"), "error: identifier not found: nope");
    assert_eq!(repl.eval_line("b"), "1");
    assert_eq!(repl.eval_line("let f = fn(x) { x * a };"), "nil");
    assert_eq!(repl.eval_line("f(3)"), "15");
    assert_eq!(repl.eval_line("f"), "fn(x) { ... }");
    assert_eq!(repl.eval_line("fn(x, y) { x }"), "fn(x, y) { ... }");
    assert_eq!(repl.eval_line("true == false"), "false");
    assert_eq!(repl.eval_line("nil"), "nil");
}
