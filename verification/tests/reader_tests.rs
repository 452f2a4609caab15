use lispinrust::ast::LispValue;
use lispinrust::parser::{try_read_string, Parser};
use lispinrust::tokenizer::Tokenizer;

#[test]
fn tokenize() {
    let r = Tokenizer::new();
    let line = "(+ 4 4)".to_string();

    match r.tokenize(line) {
        Err(_m) => assert!(false),
        Ok(result) => {
            assert_eq!(result[0].get_text(), "(");
            assert_eq!(result[4].get_text(), ")");
        }
    }
}

#[test]
fn edge_case_with_empty_func_call() {
    let r = Tokenizer::new();
    let line = "((+))".to_string();

    match r.tokenize(line) {
        Err(_m) => assert!(false),
        Ok(result) => {
            assert_eq!(result[0].get_text(), "(");
            assert_eq!(result[4].get_text(), ")");
        }
    }
}

#[test]
fn bad_input() {
    let r = Tokenizer::new();
    let line = "(+ 4 4 (+ 4)".to_string();

    match r.tokenize(line) {
        Err(_m) => assert!(true),
        Ok(_result) => assert!(false),
    }
}

#[test]
fn too_many_spaces() {
    let r = Tokenizer::new();
    let line = "(  + 4 4)".to_string();

    match r.tokenize(line) {
        Err(_m) => assert!(false),
        Ok(result) => {
            assert_eq!(result[1].get_text(), "+");
            assert_eq!(result[4].get_text(), ")");
        }
    }
}

#[test]
fn test_new_lines() {
    let r = Tokenizer::new();
    let line = "(\n  + 4\n 4\n)".to_string();

    match r.tokenize(line) {
        Err(_m) => assert!(false),
        Ok(result) => {
            assert_eq!(result[1].get_text(), "+");
            assert_eq!(result[4].get_text(), ")");
        }
    }
}

#[test]
fn unclosed_string_is_syntax_error() {
    let r = Tokenizer::new();
    match r.tokenize("\"abc".to_string()) {
        Err(e) => assert_eq!(e.render(), "Syntax error - unclosed string"),
        Ok(_) => panic!("expected a syntax error"),
    }
}

#[test]
fn unbalanced_messages() {
    let r = Tokenizer::new();
    match r.tokenize("(+ 1".to_string()) {
        Err(e) => assert_eq!(e.render(), "Syntax error - too few closing parentheses"),
        Ok(_) => panic!("expected a syntax error"),
    }
    match r.tokenize(") (".to_string()) {
        Err(_) => panic!("total balance is what the tokenizer checks"),
        Ok(toks) => assert_eq!(toks.len(), 2),
    }
    match r.tokenize("+ 1)".to_string()) {
        Err(e) => assert_eq!(e.render(), "Syntax error - too few opening parentheses"),
        Ok(_) => panic!("expected a syntax error"),
    }
}

#[test]
fn comment_only_line_reads_nothing() {
    let tokenizer = Tokenizer::new();
    assert!(try_read_string(&tokenizer, "; just a comment".to_string()).is_none());
    assert!(try_read_string(&tokenizer, "".to_string()).is_none());
}

#[test]
fn reader_builds_nested_lists() {
    let tokenizer = Tokenizer::new();
    match try_read_string(&tokenizer, "(a (b c) d)".to_string()) {
        Some(LispValue::List(l)) => {
            assert_eq!(l.len(), 3);
            match l.get(1) {
                LispValue::List(inner) => assert_eq!(inner.len(), 2),
                _ => panic!("expected a nested list"),
            }
        }
        _ => panic!("expected a list"),
    }
}

#[test]
fn parser_cursor_walks_tokens() {
    let tokenizer = Tokenizer::new();
    let tokens = tokenizer.tokenize("(+ 1)".to_string()).expect("balanced");
    let mut parser = Parser::new(tokens);
    assert_eq!(parser.peek().expect("first").get_text(), "(");
    assert_eq!(parser.next().expect("first").get_text(), "(");
    assert_eq!(parser.next().expect("second").get_text(), "+");
    assert_eq!(parser.next().expect("third").get_text(), "1");
    assert_eq!(parser.next().expect("fourth").get_text(), ")");
    assert!(parser.next().is_none());
    assert!(parser.peek().is_none());
}

#[test]
fn error_positions_can_be_set() {
    let mut e = lispinrust::error::Error::new(lispinrust::error::ErrorType::Semantic, "boom");
    e.set_error_line(3);
    e.set_error_index(7);
    assert_eq!(e.line_number, 3);
    assert_eq!(e.character_number, 7);
    assert_eq!(e.render(), "Semantic error - boom");
}

#[test]
fn prompt_prefix_composes() {
    let mut io = lispinrust::io::UserIO::new();
    assert_eq!(io.line_with_prefix(&"hi".to_string()), "user> hi");
    io.set_prefix("> ".to_string());
    assert_eq!(io.line_with_prefix(&"hi".to_string()), "> hi");
}

#[test]
fn list_api_round_trip() {
    let mut l = lispinrust::ast::List::new();
    assert_eq!(l.len(), 0);
    l.push(LispValue::Int(1));
    l.push(LispValue::Nil);
    assert_eq!(l.len(), 2);
    match l.get(0) {
        LispValue::Int(v) => assert_eq!(*v, 1),
        _ => panic!("expected the pushed value"),
    }
    assert!(l.first_token().is_none());
    let mut l2 = lispinrust::ast::List::new();
    l2.push(LispValue::Unit(lispinrust::ast::Unit::new(
        lispinrust::tokenizer::Token::new("head".to_string(), lispinrust::tokenizer::TokenType::Symbol),
    )));
    assert_eq!(l2.first_token().expect("head token").get_text(), "head");
}

#[test]
fn cons_and_concat_build_lists() {
    let mut scope = lispinrust::env::Scope::new();
    let tokenizer = Tokenizer::new();
    let head = try_read_string(&tokenizer, "0".to_string()).expect("form");
    let tail = try_read_string(&tokenizer, "(quote (1 2))".to_string()).expect("form");
    let mut call = lispinrust::ast::List::new();
    call.push(LispValue::Nil);
    call.push(head);
    call.push(tail);
    match lispinrust::core_list::apply_cons(&call, &mut scope, 0, 100) {
        LispValue::List(l) => {
            assert_eq!(l.len(), 3);
            match l.get(0) {
                LispValue::Int(v) => assert_eq!(*v, 0),
                _ => panic!("the head is evaluated"),
            }
            match l.get(1) {
                LispValue::Unit(u) => assert_eq!(u.token().get_text(), "1"),
                _ => panic!("the quoted tail stays unevaluated"),
            }
        }
        _ => panic!("expected a list"),
    }
    let one = try_read_string(&tokenizer, "(quote (1))".to_string()).expect("form");
    let two = try_read_string(&tokenizer, "(quote (2 3))".to_string()).expect("form");
    let mut cat = lispinrust::ast::List::new();
    cat.push(LispValue::Nil);
    cat.push(one);
    cat.push(two);
    match lispinrust::core_list::apply_concat(&cat, &mut scope, 0, 100) {
        LispValue::List(l) => assert_eq!(l.len(), 3),
        _ => panic!("expected a list"),
    }
    match lispinrust::core_utils::apply_list(&cat, &mut scope, 0, 100) {
        LispValue::List(l) => assert_eq!(l.len(), 2),
        _ => panic!("expected a list"),
    }
}
