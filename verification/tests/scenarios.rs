//! End-to-end scenarios and concrete instances of the language's laws.

use monkey_rust::eval::Program;
use monkey_rust::lexer::Lexer;
use monkey_rust::object::EvalError;
use monkey_rust::object::Object;
use monkey_rust::parser::Parser;

fn run(input: &str) -> Object {
    let lexer = Lexer::new(input);
    let parser = Parser::new(lexer);
    assert!(parser.errors.is_empty(), "parse errors: {:?}", parser.errors);
    let mut program = Program::new();
    program.eval(parser).unwrap()
}

fn run_err(input: &str) -> EvalError {
    let lexer = Lexer::new(input);
    let parser = Parser::new(lexer);
    assert!(parser.errors.is_empty(), "parse errors: {:?}", parser.errors);
    let mut program = Program::new();
    program.eval(parser).unwrap_err()
}

#[test]
fn scenario_arithmetic() {
    assert_eq!(run("(5 + 10 * 2 + 15 / 3) * 2 + -10;"), Object::Int(50));
}

#[test]
fn scenario_let_chain() {
    assert_eq!(run("let a = 5; let b = a; let c = a + b + 5; c;"), Object::Int(15));
}

#[test]
fn scenario_adder() {
    assert_eq!(
        run("let newAdder = fn(x){ fn(y){ x + y } }; let addTwo = newAdder(2); addTwo(3);"),
        Object::Int(5)
    );
}

#[test]
fn scenario_map() {
    let input = "let map = fn(arr,f){ let it = fn(a,acc){ if(len(a)==0){acc}else{ \
                 it(rest(a), push(acc, f(first(a)))) } }; it(arr, []) }; \
                 map([1,2,3,4], fn(x){ x*2 });";
    assert_eq!(run(input).display_string(), "[2, 4, 6, 8]");
}

#[test]
fn scenario_if_else() {
    assert_eq!(run("if (1 > 2) { 10; } else { 20; };"), Object::Int(20));
}

#[test]
fn scenario_fib() {
    assert_eq!(
        run("let fib = fn(x){ if(x<=2){1}else{ fib(x-1)+fib(x-2) } }; fib(10);"),
        Object::Int(55)
    );
}

#[test]
fn scenario_hash() {
    assert_eq!(
        run("{\"one\":1+1, \"t\"+\"wo\":2, 3:3, true:4}[\"one\"] + {1:10}[1];"),
        Object::Int(12)
    );
}

#[test]
fn scenario_negative_cases() {
    assert!(matches!(run_err("5 + true;"), EvalError::BinaryTypeError { .. }));
    assert!(matches!(run_err("-true;"), EvalError::UnaryTypeError { .. }));
    assert!(matches!(run_err("\"hello\" - \"world\";"), EvalError::BinaryTypeError { .. }));
    assert!(matches!(run_err("foobar;"), EvalError::UnknownIdentifier(_)));
    assert!(matches!(run_err("let x=1; let x=2;"), EvalError::Redefined(_)));
    assert_eq!(run("[1,2,3][-4]"), Object::Nil);
    assert!(matches!(run_err("{1:1}[fn(){}]"), EvalError::UnhashableKey(_)));
}

#[test]
fn law_whitespace_insensitivity() {
    // Adding whitespace between lexemes never changes the token stream.
    let terse = Lexer::new("let x=1+2;if(x<4){x}else{0}");
    let airy = Lexer::new("let  x\t=\n1 + 2 ;\n if ( x < 4 ) { x } else { 0 }");
    assert_eq!(terse.tokens, airy.tokens);
    assert_eq!(run("let x=1+2;if(x<4){x}else{0}"), Object::Int(3));
}

#[test]
fn law_let_scoping() {
    // A binding resolves to its value until an inner frame shadows it.
    assert_eq!(run("let x = 1; x;"), Object::Int(1));
    assert_eq!(run("let x = 1; let f = fn(x){ x }; f(9);"), Object::Int(9));
    assert_eq!(run("let x = 1; let f = fn(x){ x }; f(9); x;"), Object::Int(1));
}

#[test]
fn law_closure_capture() {
    // The closure keeps seeing the `x` it captured, whatever is bound to
    // `x` in other scopes afterwards.
    let input = "
        let mk = fn(x){ fn(y){ x + y } };
        let add3 = mk(3);
        let x = 100;
        add3(4);";
    assert_eq!(run(input), Object::Int(7));
}

#[test]
fn law_return_transparency() {
    // The value of fn(){ E }() equals the value of E, and an early return
    // short-circuits the rest of the body.
    assert_eq!(run("fn(){ 1 + 2 * 3 }();"), run("1 + 2 * 3;"));
    assert_eq!(run("fn(){ if (2 > 1) { 4 } }();"), run("if (2 > 1) { 4 };"));
    assert_eq!(run("fn(){ return 5; 1 }();"), Object::Int(5));
}

#[test]
fn law_array_index_negativity() {
    // arr[i] equals arr[n + i] for -n <= i < 0; out of range is nil.
    assert_eq!(run("[4,5,6][-1]"), run("[4,5,6][2]"));
    assert_eq!(run("[4,5,6][-2]"), run("[4,5,6][1]"));
    assert_eq!(run("[4,5,6][-3]"), run("[4,5,6][0]"));
    assert_eq!(run("[4,5,6][-4]"), Object::Nil);
    assert_eq!(run("[4,5,6][3]"), Object::Nil);
}

#[test]
fn law_hash_determinism() {
    // The last insertion under an equal key wins, and keys of different
    // kinds never collide.
    assert_eq!(run("{1: 2, 1: 3}[1]"), Object::Int(3));
    assert_eq!(run("{3:1}[\"3\"]"), Object::Nil);
    assert_eq!(run("{\"3\":1}[3]"), Object::Nil);
    assert_eq!(run("{true: 1}[\"true\"]"), Object::Nil);
    assert_eq!(run("{\"true\": 1}[true]"), Object::Nil);
}

#[test]
fn stack_overflow_guard() {
    let result = run_err("let f = fn(x){ f(x) }; f(1);");
    assert!(matches!(result, EvalError::StackOverflow));
}

#[test]
fn coercions() {
    let five = Object::Int(5);
    assert_eq!(five.into_string().unwrap(), "5");
    assert_eq!(Object::Bool(true).into_string().unwrap(), "true");
    assert_eq!(Object::String("x".to_owned()).into_string().unwrap(), "x");
    assert!(Object::Nil.into_string().is_err());
    assert_eq!(Object::Int(0).into_bool().unwrap(), false);
    assert_eq!(Object::String(String::new()).into_bool().unwrap(), false);
    assert_eq!(Object::Nil.into_bool().unwrap(), false);
    assert_eq!(Object::Int(7).as_typeof(), "int");
    assert_eq!(run("len").as_typeof(), "len");
    assert_eq!(run("{}").as_typeof(), "object");
}

#[test]
fn integer_coercion() {
    assert_eq!(Object::Int(7).into_int().unwrap(), 7);
    assert_eq!(Object::Bool(true).into_int().unwrap(), 1);
    assert_eq!(Object::Bool(false).into_int().unwrap(), 0);
    assert_eq!(Object::String("42".to_owned()).into_int().unwrap(), 42);
    assert_eq!(Object::String("-42".to_owned()).into_int().unwrap(), -42);
    assert_eq!(Object::String("+7".to_owned()).into_int().unwrap(), 7);
    assert_eq!(Object::String("007".to_owned()).into_int().unwrap(), 7);
    assert_eq!(
        Object::String("9223372036854775807".to_owned()).into_int().unwrap(),
        i64::MAX
    );
    assert_eq!(
        Object::String("-9223372036854775808".to_owned()).into_int().unwrap(),
        i64::MIN
    );
    assert!(Object::String("9223372036854775808".to_owned()).into_int().is_err());
    assert!(Object::String("1x".to_owned()).into_int().is_err());
    assert!(Object::String(String::new()).into_int().is_err());
    assert!(Object::Nil.into_int().is_err());
}
