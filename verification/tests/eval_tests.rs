use lispinrust::ast::LispValue;
use lispinrust::env::Scope;
use lispinrust::eval::{eval_ast, eval_symbol};
use lispinrust::parser::try_read_string;
use lispinrust::tokenizer::{Token, TokenType, Tokenizer};

const FUEL: u64 = 256;

fn run(scope: &mut Scope, line: &str) -> LispValue {
    let tokenizer = Tokenizer::new();
    let form = try_read_string(&tokenizer, line.to_string()).expect("line holds no form");
    eval_ast(&form, scope, 0, FUEL)
}

fn unit(text: &str) -> lispinrust::ast::Unit {
    lispinrust::ast::Unit::new(Token::new(text.to_string(), TokenType::Symbol))
}

#[test]
fn true_false() {
    let scope = Scope::new();

    match eval_symbol(&unit("false"), &scope, 0) {
        LispValue::Boolean(v) => assert!(!v),
        _ => assert!(false),
    }

    match eval_symbol(&unit("true"), &scope, 0) {
        LispValue::Boolean(v) => assert!(v),
        _ => assert!(false),
    }
}

#[test]
fn test_nil() {
    let scope = Scope::new();

    match eval_symbol(&unit("nil"), &scope, 0) {
        LispValue::Nil => assert!(true),
        _ => assert!(false),
    }
}

#[test]
fn int_literals_evaluate() {
    let scope = Scope::new();
    match eval_symbol(&unit("3"), &scope, 0) {
        LispValue::Int(v) => assert_eq!(v, 3),
        _ => assert!(false),
    }
    match eval_symbol(&unit("-17"), &scope, 0) {
        LispValue::Int(v) => assert_eq!(v, -17),
        _ => assert!(false),
    }
    match eval_symbol(&unit("1984.38471jf"), &scope, 0) {
        LispValue::Error(_) => assert!(true),
        _ => assert!(false),
    }
}

#[test]
fn string_literal_unescapes() {
    let mut scope = Scope::new();
    match run(&mut scope, "\"a\\nb\"") {
        LispValue::Str(s) => assert_eq!(s, "a\nb"),
        _ => panic!("expected a string"),
    }
}

#[test]
fn arithmetic_folds() {
    let mut scope = Scope::new();
    match run(&mut scope, "(+ 4 4)") {
        LispValue::Int(v) => assert_eq!(v, 8),
        _ => panic!("expected an integer"),
    }
    match run(&mut scope, "(+ 1 2 3 4)") {
        LispValue::Int(v) => assert_eq!(v, 10),
        _ => panic!("expected an integer"),
    }
    match run(&mut scope, "(- 10 3 2)") {
        LispValue::Int(v) => assert_eq!(v, 5),
        _ => panic!("expected an integer"),
    }
    match run(&mut scope, "(* 6 7)") {
        LispValue::Int(v) => assert_eq!(v, 42),
        _ => panic!("expected an integer"),
    }
    match run(&mut scope, "(/ 9 2)") {
        LispValue::Int(v) => assert_eq!(v, 4),
        _ => panic!("expected an integer"),
    }
}

#[test]
fn arithmetic_type_mismatch_is_error() {
    let mut scope = Scope::new();
    match run(&mut scope, "(+ 1 \"x\")") {
        LispValue::Error(m) => assert_eq!(m, "incompatible types"),
        _ => panic!("expected an error value"),
    }
}

#[test]
fn arithmetic_no_arguments_is_distinct_error() {
    let mut scope = Scope::new();
    match run(&mut scope, "(+)") {
        LispValue::Error(m) => assert_eq!(m, "function called with no arguments"),
        _ => panic!("expected an error value"),
    }
}

#[test]
fn division_by_zero_is_error() {
    let mut scope = Scope::new();
    match run(&mut scope, "(/ 1 0)") {
        LispValue::Error(m) => assert_eq!(m, "division by zero"),
        _ => panic!("expected an error value"),
    }
}

#[test]
fn overflow_is_error() {
    let mut scope = Scope::new();
    match run(&mut scope, "(+ 9223372036854775807 1)") {
        LispValue::Error(m) => assert_eq!(m, "integer overflow"),
        _ => panic!("expected an error value"),
    }
}

#[test]
fn define_then_resolve() {
    let mut scope = Scope::new();
    match run(&mut scope, "(def! x 5)") {
        LispValue::Int(v) => assert_eq!(v, 5),
        _ => panic!("expected the defined value"),
    }
    match run(&mut scope, "x") {
        LispValue::Int(v) => assert_eq!(v, 5),
        _ => panic!("expected the bound value"),
    }
    // redefinition shadows rather than errors
    match run(&mut scope, "(def! x 6)") {
        LispValue::Int(v) => assert_eq!(v, 6),
        _ => panic!("expected the redefined value"),
    }
    match run(&mut scope, "x") {
        LispValue::Int(v) => assert_eq!(v, 6),
        _ => panic!("expected the shadowing value"),
    }
}

#[test]
fn let_bindings_see_earlier_ones() {
    let mut scope = Scope::new();
    match run(&mut scope, "(let* (a 1 b (+ a 1)) b)") {
        LispValue::Int(v) => assert_eq!(v, 2),
        _ => panic!("expected the body value"),
    }
}

#[test]
fn let_bindings_do_not_leak() {
    let mut scope = Scope::new();
    match run(&mut scope, "(let* (a 1 b (+ a 1)) b)") {
        LispValue::Int(v) => assert_eq!(v, 2),
        _ => panic!("expected the body value"),
    }
    match run(&mut scope, "a") {
        LispValue::Error(m) => assert_eq!(m, "could not parse symbol: a"),
        _ => panic!("the binding leaked into the enclosing scope"),
    }
    match run(&mut scope, "b") {
        LispValue::Error(m) => assert_eq!(m, "could not parse symbol: b"),
        _ => panic!("the binding leaked into the enclosing scope"),
    }
}

#[test]
fn do_returns_last_and_keeps_definitions() {
    let mut scope = Scope::new();
    match run(&mut scope, "(do (def! y 1) (+ y 2))") {
        LispValue::Int(v) => assert_eq!(v, 3),
        _ => panic!("expected the last value"),
    }
    match run(&mut scope, "y") {
        LispValue::Int(v) => assert_eq!(v, 1),
        _ => panic!("do definitions stay visible"),
    }
    match run(&mut scope, "(do)") {
        LispValue::Nil => {}
        _ => panic!("empty do is nil"),
    }
}

#[test]
fn if_only_false_and_nil_are_falsy() {
    let mut scope = Scope::new();
    match run(&mut scope, "(if false 1 2)") {
        LispValue::Int(v) => assert_eq!(v, 2),
        _ => panic!("false takes the else branch"),
    }
    match run(&mut scope, "(if false 1)") {
        LispValue::Nil => {}
        _ => panic!("missing else branch yields nil"),
    }
    match run(&mut scope, "(if 0 1 2)") {
        LispValue::Int(v) => assert_eq!(v, 1),
        _ => panic!("zero is truthy"),
    }
    match run(&mut scope, "(if nil 1 2)") {
        LispValue::Int(v) => assert_eq!(v, 2),
        _ => panic!("nil takes the else branch"),
    }
}

#[test]
fn lambda_applies() {
    let mut scope = Scope::new();
    match run(&mut scope, "((lambda (x) (* x x)) 5)") {
        LispValue::Int(v) => assert_eq!(v, 25),
        _ => panic!("expected the body value"),
    }
}

#[test]
fn lambda_captures_defining_scope() {
    let mut scope = Scope::new();
    run(&mut scope, "(def! y 10)");
    run(&mut scope, "(def! f (lambda (x) (+ x y)))");
    // a rebinding of y in a local scope must not affect the captured one
    match run(&mut scope, "(let* (y 1000) (f 1))") {
        LispValue::Int(v) => assert_eq!(v, 11),
        _ => panic!("expected the closure to use its defining scope"),
    }
}

#[test]
fn lambda_excess_arguments_is_error() {
    let mut scope = Scope::new();
    match run(&mut scope, "((lambda (x) x) 1 2)") {
        LispValue::Error(m) => assert_eq!(m, "function called with too many arguments"),
        _ => panic!("expected an error value"),
    }
}

#[test]
fn quote_returns_verbatim() {
    let mut scope = Scope::new();
    match run(&mut scope, "(quote (+ 1 2))") {
        LispValue::List(l) => assert_eq!(l.len(), 3),
        _ => panic!("expected the unevaluated list"),
    }
}

#[test]
fn eval_quote_round_trip() {
    let mut scope = Scope::new();
    match run(&mut scope, "(eval (quote (+ 1 2)))") {
        LispValue::Int(v) => assert_eq!(v, 3),
        _ => panic!("expected ordinary evaluation of the quoted form"),
    }
}

#[test]
fn atoms_swap_and_deref() {
    let mut scope = Scope::new();
    run(&mut scope, "(def! theatom (atom 1))");
    match run(&mut scope, "(atom? theatom)") {
        LispValue::Boolean(b) => assert!(b),
        _ => panic!("expected a boolean"),
    }
    match run(&mut scope, "(swap! theatom (lambda (a) (+ a 1)))") {
        LispValue::Int(v) => assert_eq!(v, 2),
        _ => panic!("expected the new cell content"),
    }
    match run(&mut scope, "(deref theatom)") {
        LispValue::Int(v) => assert_eq!(v, 2),
        _ => panic!("expected the mutated content"),
    }
}

#[test]
fn aliased_atoms_observe_mutation() {
    let mut scope = Scope::new();
    run(&mut scope, "(def! a (atom 1))");
    run(&mut scope, "(def! b a)");
    run(&mut scope, "(reset! b 7)");
    match run(&mut scope, "(deref a)") {
        LispValue::Int(v) => assert_eq!(v, 7),
        _ => panic!("every holder of the cell observes the mutation"),
    }
}

#[test]
fn reset_error_does_not_mutate() {
    let mut scope = Scope::new();
    run(&mut scope, "(def! a (atom 1))");
    match run(&mut scope, "(reset! a (+ 1 \"x\"))") {
        LispValue::Error(_) => {}
        _ => panic!("expected the error to be forwarded"),
    }
    match run(&mut scope, "(deref a)") {
        LispValue::Int(v) => assert_eq!(v, 1),
        _ => panic!("an error replacement must not mutate"),
    }
}

#[test]
fn atom_of_error_is_rejected() {
    let mut scope = Scope::new();
    match run(&mut scope, "(atom (+ 1 \"x\"))") {
        LispValue::Error(m) => assert_eq!(m, "cannot box error value"),
        _ => panic!("expected an error value"),
    }
}

#[test]
fn equality_and_comparisons() {
    let mut scope = Scope::new();
    match run(&mut scope, "(= 1 1)") {
        LispValue::Boolean(b) => assert!(b),
        _ => panic!("expected a boolean"),
    }
    match run(&mut scope, "(= 1 \"1\")") {
        LispValue::Boolean(b) => assert!(!b),
        _ => panic!("type mismatch compares unequal"),
    }
    match run(&mut scope, "(< 1 2)") {
        LispValue::Boolean(b) => assert!(b),
        _ => panic!("expected a boolean"),
    }
    match run(&mut scope, "(>= 2 2)") {
        LispValue::Boolean(b) => assert!(b),
        _ => panic!("expected a boolean"),
    }
    match run(&mut scope, "(> 1 \"x\")") {
        LispValue::Boolean(b) => assert!(!b),
        _ => panic!("heterogeneous comparison is false"),
    }
    match run(&mut scope, "(< 1 2 3)") {
        LispValue::Error(m) => assert_eq!(m, "< works with exactly two items to compare"),
        _ => panic!("expected an arity error"),
    }
}

#[test]
fn str_joins_renderings() {
    let mut scope = Scope::new();
    match run(&mut scope, "(str 1 2)") {
        LispValue::Str(s) => assert_eq!(s, "1 2"),
        _ => panic!("expected a string"),
    }
    match run(&mut scope, "(str -42)") {
        LispValue::Str(s) => assert_eq!(s, "-42"),
        _ => panic!("expected a string"),
    }
    match run(&mut scope, "(str true nil)") {
        LispValue::Str(s) => assert_eq!(s, "true nil"),
        _ => panic!("expected a string"),
    }
}

#[test]
fn read_string_reads_forms() {
    let mut scope = Scope::new();
    match run(&mut scope, "(eval (read-string \"(+ 2 3)\"))") {
        LispValue::Int(v) => assert_eq!(v, 5),
        _ => panic!("expected the read form to evaluate"),
    }
    match run(&mut scope, "(read-string 17)") {
        LispValue::Error(m) => assert_eq!(m, "read string needs a string argument"),
        _ => panic!("expected an error value"),
    }
}

#[test]
fn slurp_requests_missing_files() {
    let mut scope = Scope::new();
    match run(&mut scope, "(slurp \"notes.txt\")") {
        LispValue::Error(m) => assert_eq!(m, "slurp: file not read yet"),
        _ => panic!("expected the not-read-yet report"),
    }
    let requests = scope.take_requests();
    assert_eq!(requests.len(), 1);
    assert_eq!(requests[0], "notes.txt");
    assert!(scope.take_requests().is_empty());
    match run(&mut scope, "(slurp 5)") {
        LispValue::Error(m) => assert_eq!(m, "slurp needs a filename!"),
        _ => panic!("expected an error value"),
    }
}

#[test]
fn slurp_returns_supplied_file_text() {
    let mut scope = Scope::new();
    scope.supply_file(
        "notes.txt".to_string(),
        lispinrust::env::FileRead::Content("hello file".to_string()),
    );
    match run(&mut scope, "(slurp \"notes.txt\")") {
        LispValue::Str(s) => assert_eq!(s, "hello file"),
        _ => panic!("expected the file's text"),
    }
    scope.supply_file(
        "gone.txt".to_string(),
        lispinrust::env::FileRead::Failure("No such file or directory (os error 2)".to_string()),
    );
    match run(&mut scope, "(slurp \"gone.txt\")") {
        LispValue::Error(m) => assert_eq!(m, "No such file or directory (os error 2)"),
        _ => panic!("expected the host's failure message"),
    }
    // a later outcome for the same path wins
    scope.supply_file(
        "gone.txt".to_string(),
        lispinrust::env::FileRead::Content("recovered".to_string()),
    );
    match run(&mut scope, "(slurp \"gone.txt\")") {
        LispValue::Str(s) => assert_eq!(s, "recovered"),
        _ => panic!("expected the later outcome"),
    }
}

#[test]
fn slurp_retry_loop_commits_only_the_answered_attempt() {
    // the host loop the program runs: attempt on a copy, answer the
    // requests, retry, and commit the attempt that requested nothing
    let mut scope = Scope::new();
    let tokenizer = Tokenizer::new();
    let form = try_read_string(
        &tokenizer,
        "(do (def! loaded (slurp \"lib.lisp\")) (eval (read-string loaded)))".to_string(),
    )
    .expect("form");
    let mut result = LispValue::Nil;
    for _round in 0..4 {
        let mut attempt = scope.duplicate();
        result = eval_ast(&form, &mut attempt, 0, FUEL);
        let requests = attempt.take_requests();
        if requests.is_empty() {
            scope = attempt;
            break;
        }
        for path in requests {
            assert_eq!(path, "lib.lisp");
            scope.supply_file(path, lispinrust::env::FileRead::Content("(+ 1 2)".to_string()));
        }
    }
    match result {
        LispValue::Int(v) => assert_eq!(v, 3),
        _ => panic!("expected the loaded form's value"),
    }
    // the committed store holds the definition from the final attempt alone
    match run(&mut scope, "loaded") {
        LispValue::Str(s) => assert_eq!(s, "(+ 1 2)"),
        _ => panic!("expected the committed binding"),
    }
}

#[test]
fn unresolved_symbol_is_error() {
    let mut scope = Scope::new();
    match run(&mut scope, "zzz") {
        LispValue::Error(m) => assert_eq!(m, "could not parse symbol: zzz"),
        _ => panic!("expected an error value"),
    }
}

#[test]
fn def_arity_error() {
    let mut scope = Scope::new();
    match run(&mut scope, "(def! x)") {
        LispValue::Error(m) => assert_eq!(m, "incorrect number of args for definition"),
        _ => panic!("expected an error value"),
    }
}

#[test]
fn empty_list_is_nil() {
    let mut scope = Scope::new();
    match run(&mut scope, "()") {
        LispValue::Nil => {}
        _ => panic!("an empty form is nil"),
    }
}

#[test]
fn value_in_operator_position_returns_as_is() {
    let mut scope = Scope::new();
    match run(&mut scope, "(1 2 3)") {
        LispValue::Int(v) => assert_eq!(v, 1),
        _ => panic!("a non-callable operator value is returned as-is"),
    }
}

#[test]
fn if_arity_errors() {
    let mut scope = Scope::new();
    match run(&mut scope, "(if true)") {
        LispValue::Error(m) => {
            assert_eq!(m, "if statement needs at least one statement to execute")
        }
        _ => panic!("expected an arity error"),
    }
    match run(&mut scope, "(if true 1 2 3)") {
        LispValue::Error(m) => assert_eq!(m, "if statement can have at most two arms"),
        _ => panic!("expected an arity error"),
    }
}

#[test]
fn if_error_condition_is_forwarded() {
    let mut scope = Scope::new();
    match run(&mut scope, "(if (+ 1 \"x\") 1 2)") {
        LispValue::Error(m) => assert_eq!(m, "incompatible types"),
        _ => panic!("an error condition short-circuits"),
    }
}

#[test]
fn let_error_binding_aborts() {
    let mut scope = Scope::new();
    match run(&mut scope, "(let* (a (+ 1 \"x\") b 2) b)") {
        LispValue::Error(m) => assert_eq!(m, "incompatible types"),
        _ => panic!("an error binding aborts the form"),
    }
    match run(&mut scope, "(let* ((a) 1) a)") {
        LispValue::Error(m) => assert_eq!(m, "assignment list even argument be string symbol"),
        _ => panic!("expected an error value"),
    }
    match run(&mut scope, "(let* 5 a)") {
        LispValue::Error(m) => assert_eq!(m, "first argument to let* must be assignment list"),
        _ => panic!("expected an error value"),
    }
}

#[test]
fn lambda_missing_arguments_leave_parameters_unbound() {
    let mut scope = Scope::new();
    run(&mut scope, "(def! g (lambda (p q) p))");
    match run(&mut scope, "(g 9)") {
        LispValue::Int(v) => assert_eq!(v, 9),
        _ => panic!("the supplied argument binds positionally"),
    }
    run(&mut scope, "(def! h (lambda (p q) q))");
    match run(&mut scope, "(h 9)") {
        LispValue::Error(m) => assert_eq!(m, "could not parse symbol: q"),
        _ => panic!("a missing argument leaves its parameter unbound"),
    }
}

#[test]
fn lambda_argument_errors() {
    let mut scope = Scope::new();
    match run(&mut scope, "(lambda (x))") {
        LispValue::Error(m) => assert_eq!(m, "usage fn* (args list) (body)"),
        _ => panic!("expected an arity error"),
    }
    match run(&mut scope, "(lambda 5 x)") {
        LispValue::Error(m) => assert_eq!(m, "function args must be a list"),
        _ => panic!("expected an error value"),
    }
    match run(&mut scope, "(lambda ((a)) x)") {
        LispValue::Error(m) => assert_eq!(m, "function args list must be symbols"),
        _ => panic!("expected an error value"),
    }
}

#[test]
fn macro_binds_a_tagged_function() {
    let mut scope = Scope::new();
    match run(&mut scope, "(macro! m (lambda (x) x))") {
        LispValue::Macro(_) => {}
        _ => panic!("expected a macro value"),
    }
    match run(&mut scope, "m") {
        LispValue::Macro(_) => {}
        _ => panic!("the macro binding resolves"),
    }
    match run(&mut scope, "(macro! m 5)") {
        LispValue::Error(m) => {
            assert_eq!(m, "the second argument to macro! must be a function")
        }
        _ => panic!("expected an error value"),
    }
}

#[test]
fn prn_returns_nil() {
    let mut scope = Scope::new();
    match run(&mut scope, "(prn (+ 1 2))") {
        LispValue::Nil => {}
        _ => panic!("printing yields nil"),
    }
}

#[test]
fn quote_arity_error() {
    let mut scope = Scope::new();
    match run(&mut scope, "(quote 1 2)") {
        LispValue::Error(m) => assert_eq!(m, "quoting is only supported for a single argument"),
        _ => panic!("expected an arity error"),
    }
}

#[test]
fn str_renders_lists_and_atoms() {
    let mut scope = Scope::new();
    match run(&mut scope, "(str (quote (1 2)))") {
        LispValue::Str(s) => assert_eq!(s, "(symbol: 1, symbol: 2, )"),
        _ => panic!("expected a string"),
    }
    run(&mut scope, "(def! a (atom 5))");
    match run(&mut scope, "(str a)") {
        LispValue::Str(s) => assert_eq!(s, "Atom <5>"),
        _ => panic!("expected a string"),
    }
}

#[test]
fn equality_covers_simple_types_only() {
    // lists never compare equal, even to themselves: equality is defined
    // for the simple types alone and every other pairing is false
    let mut scope = Scope::new();
    match run(&mut scope, "(= (quote (1)) (quote (1)))") {
        LispValue::Boolean(b) => assert!(!b),
        _ => panic!("expected a boolean"),
    }
    match run(&mut scope, "(= nil nil)") {
        LispValue::Boolean(b) => assert!(!b),
        _ => panic!("expected a boolean"),
    }
}

#[test]
fn string_equality_is_structural() {
    let mut scope = Scope::new();
    match run(&mut scope, "(= \"ab\" \"ab\")") {
        LispValue::Boolean(b) => assert!(b),
        _ => panic!("expected a boolean"),
    }
    match run(&mut scope, "(= \"ab\" \"ac\")") {
        LispValue::Boolean(b) => assert!(!b),
        _ => panic!("expected a boolean"),
    }
}

#[test]
fn deep_recursion_yields_error_not_crash() {
    let mut scope = Scope::new();
    run(&mut scope, "(def! loop-forever (lambda (x) (loop-forever x)))");
    match run(&mut scope, "(loop-forever 1)") {
        LispValue::Error(m) => assert_eq!(m, "evaluation depth exceeded"),
        _ => panic!("unbounded recursion ends in an in-band error"),
    }
}
