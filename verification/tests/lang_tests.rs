use monkey::eval::{eval_prog, run};
use monkey::lexer::Lexer;
use monkey::object::{Environment, Object};
use monkey::parser::Parser;

fn run_source(input: &str) -> Object {
    let mut env = Environment::new();
    match run(input, &mut env) {
        Ok(v) => v,
        Err(errs) => panic!("unexpected parse errors: {:?}", errs),
    }
}

fn inspect_of(input: &str) -> String {
    run_source(input).inspect()
}

#[test]
fn let_bindings_add_up() {
    assert_eq!(inspect_of("let a = 5; let b = a + 10; b;"), "15");
}

#[test]
fn function_application() {
    assert_eq!(inspect_of("let add = fn(x, y){ x + y }; add(3, 4);"), "7");
}

#[test]
fn closure_captures_environment() {
    assert_eq!(
        inspect_of(
            "let makeAdder = fn(x){ fn(y){ x + y } }; let addTwo = makeAdder(2); addTwo(40);"
        ),
        "42"
    );
}

#[test]
fn return_stops_the_program() {
    assert_eq!(inspect_of("if (1 < 2) { return 10; } return 20;"), "10");
}

#[test]
fn type_mismatch_error() {
    assert_eq!(
        inspect_of("5 + true;"),
        "Error: type mismatch: INTEGER_OBJ BOOLEAN_OBJ"
    );
}

#[test]
fn string_concatenation() {
    assert_eq!(inspect_of("\"Hello\" + \" \" + \"World\";"), "Hello World");
}

#[test]
fn missing_identifier_error() {
    assert_eq!(inspect_of("foobar;"), "Error: identifier not found: foobar");
}

#[test]
fn empty_program_is_null() {
    assert_eq!(inspect_of(""), "null");
}

#[test]
fn parse_errors_stop_evaluation() {
    let mut env = Environment::new();
    let before = env.get("x".to_string());
    assert!(before.is_none());
    match run("let 5;", &mut env) {
        Ok(_) => panic!("expected parse errors"),
        Err(errs) => assert!(errs.len() > 0),
    }
}

#[test]
fn if_without_else_on_false_condition_is_null() {
    assert_eq!(inspect_of("if (1 > 2) { 10 };"), "null");
}

#[test]
fn empty_function_call_is_null() {
    assert_eq!(inspect_of("let f = fn() {}; f();"), "null");
}

#[test]
fn integer_inspect_round_trips() {
    assert_eq!(inspect_of("5;"), "5");
    assert_eq!(inspect_of("833833;"), "833833");
    assert_eq!(inspect_of("0;"), "0");
    let neg = Object::Integer(-3);
    assert_eq!(neg.inspect(), "-3");
    assert_eq!(inspect_of("-3;"), "-3");
}

#[test]
fn boolean_literals_round_trip() {
    assert_eq!(inspect_of("true;"), "true");
    assert_eq!(inspect_of("false;"), "false");
}

#[test]
fn bang_operator() {
    assert_eq!(inspect_of("!true;"), "false");
    assert_eq!(inspect_of("!false;"), "true");
    assert_eq!(inspect_of("!5;"), "false");
    assert_eq!(inspect_of("!!true;"), "true");
}

#[test]
fn integer_arithmetic_and_comparisons() {
    assert_eq!(inspect_of("1 + 2 * 3;"), "7");
    assert_eq!(inspect_of("(1 + 2) * 3;"), "9");
    assert_eq!(inspect_of("10 - 2 - 3;"), "5");
    assert_eq!(inspect_of("20 / 2 / 5;"), "2");
    assert_eq!(inspect_of("7 / 2;"), "3");
    assert_eq!(inspect_of("1 < 2;"), "true");
    assert_eq!(inspect_of("1 > 2;"), "false");
    assert_eq!(inspect_of("2 == 2;"), "true");
    assert_eq!(inspect_of("2 != 2;"), "false");
}

#[test]
fn division_by_zero_is_an_error() {
    assert_eq!(inspect_of("5 / 0;"), "Error: division by zero");
}

#[test]
fn unknown_string_operator_error() {
    assert_eq!(
        inspect_of("\"a\" - \"b\";"),
        "Error: unknown operator: STRING - STRING"
    );
}

#[test]
fn unknown_prefix_operand_error() {
    assert_eq!(inspect_of("-true;"), "Error: unknown operator: - BOOLEAN_OBJ");
}

#[test]
fn calling_a_non_function_is_an_error() {
    assert_eq!(inspect_of("5(3);"), "Error: not a function: INTEGER_OBJ");
}

#[test]
fn missing_arguments_are_an_error() {
    assert_eq!(
        inspect_of("let f = fn(x, y) { x }; f(1);"),
        "Error: wrong number of arguments: expected 2, got 1"
    );
    assert_eq!(inspect_of("let f = fn(x) { x }; f(1, 2);"), "1");
}

#[test]
fn integer_literal_overflow_is_a_parse_error() {
    let mut env = Environment::new();
    match run("9223372036854775808;", &mut env) {
        Ok(_) => panic!("expected parse errors"),
        Err(errs) => {
            assert!(errs.len() > 0);
            assert!(errs[0].contains("as integer"));
        },
    }
    assert_eq!(inspect_of("9223372036854775807;"), "9223372036854775807");
}

#[test]
fn error_message_survives_propagation() {
    assert_eq!(
        inspect_of("let x = foobar + 1; x;"),
        "Error: identifier not found: foobar"
    );
    assert_eq!(
        inspect_of("1 + (2 * missing);"),
        "Error: identifier not found: missing"
    );
    assert_eq!(
        inspect_of("if (missing) { 1 } else { 2 };"),
        "Error: identifier not found: missing"
    );
}

#[test]
fn later_bindings_do_not_change_a_closure() {
    assert_eq!(
        inspect_of("let x = 1; let f = fn(){ x }; let x = 2; f();"),
        "1"
    );
}

#[test]
fn truthiness_is_strict() {
    assert_eq!(inspect_of("if (0) { 1 } else { 2 };"), "2");
    assert_eq!(inspect_of("if (\"s\") { 1 } else { 2 };"), "2");
    assert_eq!(inspect_of("if (true) { 1 } else { 2 };"), "1");
}

#[test]
fn return_without_value_is_null() {
    assert_eq!(inspect_of("let f = fn() { return; 5 }; f();"), "null");
}

#[test]
fn illegal_character_token() {
    let mut lex = Lexer::init_lexer("@");
    let tok = lex.next_token();
    assert_eq!(tok.type_, monkey::token::TokenType::ILLEGAL);
    assert_eq!(tok.literal, "@");
}

#[test]
fn environment_lookup_walks_outward() {
    let mut outer = Environment::new();
    outer.set("a".to_string(), Object::Integer(1));
    let mut inner = outer.new_enclosed(outer.clone());
    inner.set("b".to_string(), Object::Integer(2));
    let a = inner.get("a".to_string());
    match a {
        Some(Object::Integer(n)) => assert_eq!(n, 1),
        _ => panic!("expected the outer binding"),
    }
    let b = inner.get("b".to_string());
    match b {
        Some(Object::Integer(n)) => assert_eq!(n, 2),
        _ => panic!("expected the local binding"),
    }
    assert!(inner.get("c".to_string()).is_none());
}

#[test]
fn shadowing_is_local() {
    let mut outer = Environment::new();
    outer.set("a".to_string(), Object::Integer(1));
    let mut inner = Environment::new().new_enclosed(outer.clone());
    inner.set("a".to_string(), Object::Integer(9));
    match inner.get("a".to_string()) {
        Some(Object::Integer(n)) => assert_eq!(n, 9),
        _ => panic!("expected the shadowing binding"),
    }
    match outer.get("a".to_string()) {
        Some(Object::Integer(n)) => assert_eq!(n, 1),
        _ => panic!("expected the outer binding unchanged"),
    }
}

#[test]
fn object_type_tags() {
    assert_eq!(Object::Integer(1).type_(), "INTEGER_OBJ");
    assert_eq!(Object::Boolean(true).type_(), "BOOLEAN_OBJ");
    assert_eq!(Object::Null.type_(), "NULL");
    assert_eq!(Object::Error("m".to_string()).type_(), "ERROR");
    assert_eq!(Object::String("s".to_string()).type_(), "STRING");
    assert_eq!(
        Object::Return(Box::new(Object::Integer(3))).type_(),
        "RETURN_VALUE_OBJ"
    );
}

#[test]
fn return_wrapper_inspects_as_its_content() {
    let o = Object::Return(Box::new(Object::Integer(3)));
    assert_eq!(o.inspect(), "3");
}

#[test]
fn error_inspect_has_prefix() {
    let o = Object::Error("boom".to_string());
    assert_eq!(o.inspect(), "Error: boom");
}

#[test]
fn program_result_updates_environment() {
    let mut env = Environment::new();
    let r = run("let a = 41; a + 1;", &mut env);
    assert_eq!(r.unwrap().inspect(), "42");
    match env.get("a".to_string()) {
        Some(Object::Integer(n)) => assert_eq!(n, 41),
        _ => panic!("expected the binding to persist"),
    }
}

#[test]
fn eval_prog_runs_parsed_program() {
    let mut env = Environment::new();
    let mut lex = Lexer::init_lexer("let two = 2; two * 21;");
    let mut par = Parser::new(&mut lex);
    let program = par.parse_program();
    assert_eq!(par.errors().len(), 0);
    let v = eval_prog(program, &mut env);
    assert_eq!(v.inspect(), "42");
}

#[test]
fn unterminated_string_reaches_end_of_input() {
    let mut lex = Lexer::init_lexer("\"abc");
    let tok = lex.next_token();
    assert_eq!(tok.type_, monkey::token::TokenType::STRING);
    assert_eq!(tok.literal, "abc");
    let eof = lex.next_token();
    assert_eq!(eof.type_, monkey::token::TokenType::EOF);
}

#[test]
fn failed_statements_emit_no_node() {
    let mut lex = Lexer::init_lexer(";");
    let mut par = Parser::new(&mut lex);
    let program = par.parse_program();
    assert_eq!(program.len(), 0);
    assert!(par.errors().len() > 0);

    let mut lex2 = Lexer::init_lexer("let x = ;");
    let mut par2 = Parser::new(&mut lex2);
    let program2 = par2.parse_program();
    assert_eq!(program2.len(), 0);
    assert!(par2.errors().len() > 0);
}
