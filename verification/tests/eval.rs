//! Evaluation tests: whole programs run against a fresh state.

use monkey_rust::eval::Program;
use monkey_rust::lexer::Lexer;
use monkey_rust::object::EvalError;
use monkey_rust::object::Object;
use monkey_rust::parser::Parser;

fn run(input: &str) -> Object {
    let lexer = Lexer::new(input);
    let parser = Parser::new(lexer);
    assert!(parser.errors.is_empty(), "parse errors: {:?}", parser.errors);
    let mut program = Program::new();
    program.eval(parser).unwrap()
}

fn run_err(input: &str) -> EvalError {
    let lexer = Lexer::new(input);
    let parser = Parser::new(lexer);
    assert!(parser.errors.is_empty(), "parse errors: {:?}", parser.errors);
    let mut program = Program::new();
    program.eval(parser).unwrap_err()
}

fn ints(values: &[i64]) -> Object {
    Object::Array(monkey_rust::object::Array(
        values.iter().map(|v| Object::Int(*v)).collect(),
    ))
}

#[test]
fn eval_numeric_expression() {
    assert_eq!(run("5;"), Object::Int(5));
    assert_eq!(run("-10;"), Object::Int(-10));
    assert_eq!(run("3 * (3 + 3) + 10;"), Object::Int(28));
    assert_eq!(run("(5 + 10 * 2 + 15 / 3) * 2 + -10;"), Object::Int(50));
}

#[test]
fn eval_recursive_fn() {
    let input = "
        let fib = fn(x) {
            if (x <= 2){
                1
            } else {
                fib(x - 1) + fib(x - 2)
            }
        };
        fib(10);
    ";
    assert_eq!(run(input), Object::Int(55));
}

#[test]
fn eval_array_map() {
    let input = "
    let map = fn(arr, f) {
        let iter = fn(arr, accumulated) {
            if (len(arr) == 0) {
                accumulated
            } else {
                iter(rest(arr), push(accumulated, f(first(arr))));
            }
        };
        iter(arr, []);
    };
    let a = [1, 2, 3, 4];
    let double = fn(x) { x * 2 };
    map(a, double);
    ";
    assert_eq!(run(input), ints(&[2, 4, 6, 8]));
}

#[test]
fn eval_boolean_expression() {
    let cases = [
        ("true;", true),
        ("false;", false),
        ("1 >= 2;", false),
        ("1 >= 1;", true),
        ("1 <= 2;", true),
        ("1 <= 1;", true),
        ("1 > 2;", false),
        ("1 > 1;", false),
        ("1 < 2;", true),
        ("1 < 1;", false),
        ("!!0", false),
        ("!!fn(x){}", true),
        ("true == true;", true),
        ("false != false;", false),
        ("!!\"\"", false),
        ("!!\"something\"", true),
    ];
    for (input, expected) in cases {
        assert_eq!(run(input), Object::Bool(expected), "input: {input}");
    }
}

#[test]
fn eval_not_expression() {
    let cases = [
        ("!5;", false),
        ("!!5;", true),
        ("!0;", true),
        ("!!0;", false),
        ("!true;", false),
        ("!!true;", true),
        ("!false;", true),
        ("!!false;", false),
    ];
    for (input, expected) in cases {
        assert_eq!(run(input), Object::Bool(expected), "input: {input}");
    }
}

#[test]
fn eval_array_literal() {
    let result = run("[1, 2 * 2, \"foo\", fn(x) { return x + 2; }]");
    match result {
        Object::Array(arr) => {
            assert_eq!(arr.0.len(), 4);
            assert_eq!(arr.0[0], Object::Int(1));
            assert_eq!(arr.0[1], Object::Int(4));
            assert_eq!(arr.0[2], Object::String("foo".to_owned()));
            assert!(matches!(arr.0[3], Object::Function(_)));
        },
        other => panic!("expected array, found: {:?}", other),
    }
}

#[test]
fn eval_array_index() {
    let cases = [
        ("[1, 2, 3][0]", Object::Int(1)),
        ("[1, 2, 3][1]", Object::Int(2)),
        ("[1, 2, 3][2]", Object::Int(3)),
        ("let i = 0; [1][i];", Object::Int(1)),
        ("[1, 2, 3][1 + 1];", Object::Int(3)),
        ("let myArray = [1, 2, 3]; myArray[2];", Object::Int(3)),
        (
            "let myArray = [1, 2, 3]; myArray[0] + myArray[1] + myArray[2];",
            Object::Int(6),
        ),
        ("let myArray = [1, 2, 3]; let i = myArray[0]; myArray[i]", Object::Int(2)),
        ("[1, 2, 3][3]", Object::Nil),
        ("[1, 2, 3][-1]", Object::Int(3)),
        ("[1, 2, 3][-3]", Object::Int(1)),
        ("[1, 2, 3][-4]", Object::Nil),
    ];
    for (input, expected) in cases {
        assert_eq!(run(input), expected, "input: {input}");
    }
}

#[test]
fn eval_hash_index() {
    let cases = [
        ("{\"foo\": 5}[\"foo\"]", Object::Int(5)),
        ("{\"foo\": 4}[\"bar\"]", Object::Nil),
        ("let key = \"foo\"; {\"foo\": 3}[key]", Object::Int(3)),
        ("{}[\"foo\"]", Object::Nil),
        ("{5: 2}[5]", Object::Int(2)),
        ("{true: 5}[true]", Object::Int(5)),
        ("{false: 5}[false]", Object::Int(5)),
        ("{\"true\": 5}[true]", Object::Nil),
        ("{true: 5}[\"true\"]", Object::Nil),
        ("{3: 1}[\"3\"]", Object::Nil),
        ("{\"3\": 1}[3]", Object::Nil),
    ];
    for (input, expected) in cases {
        assert_eq!(run(input), expected, "input: {input}");
    }
}

#[test]
fn eval_hash_literal() {
    let input = "
        let two = \"potato\";
        {
            \"one\": 1 + 1,
            two: 13,
            \"foo\" + \"bar\": 10,
            4: {1:1},
            true: [1,2],
            \"false\": 6
        };";
    let result = run(input);
    if let Object::HashTable(hash) = result {
        assert_eq!(hash.0.len(), 6);
        assert_eq!(hash.0[0].0, Object::String("one".to_owned()));
        assert_eq!(hash.0[0].1, Object::Int(2));
        assert_eq!(hash.0[1].0, Object::String("potato".to_owned()));
        assert_eq!(hash.0[1].1, Object::Int(13));
        assert_eq!(hash.0[2].0, Object::String("foobar".to_owned()));
        assert_eq!(hash.0[2].1, Object::Int(10));
        assert_eq!(hash.0[3].0, Object::Int(4));
        assert!(matches!(hash.0[3].1, Object::HashTable(_)));
        assert_eq!(hash.0[4].0, Object::Bool(true));
        assert_eq!(hash.0[4].1, ints(&[1, 2]));
        assert_eq!(hash.0[5].0, Object::String("false".to_owned()));
        assert_eq!(hash.0[5].1, Object::Int(6));
    } else {
        panic!("expected hash table");
    }
}

#[test]
fn eval_if_expression() {
    let cases = [
        ("if (true) { 10; };", Object::Int(10)),
        ("if (false) { 10; };", Object::Nil),
        ("if (1) { 10; };", Object::Int(10)),
        ("if (1 < 2) { 10; };", Object::Int(10)),
        ("if (1 > 2) { 10; };", Object::Nil),
        ("if (1 > 2) { 10; } else { 20; };", Object::Int(20)),
        ("if (1 < 2) { 10; } else { 20; };", Object::Int(10)),
    ];
    for (input, expected) in cases {
        assert_eq!(run(input), expected, "input: {input}");
    }
}

#[test]
fn eval_return_statement() {
    let cases = [
        ("return 10;", Object::Int(10)),
        ("return 10; 9;", Object::Int(10)),
        ("return 2 * 5; 9;", Object::Int(10)),
        ("9; return 2 * 5; 9;", Object::Int(10)),
        ("if (true) { return 10; }; return 9;", Object::Int(10)),
        ("if (true) { if (true) { return 10; }; return 1;};", Object::Int(10)),
    ];
    for (input, expected) in cases {
        assert_eq!(run(input), expected, "input: {input}");
    }
}

#[test]
fn eval_string_concat() {
    assert_eq!(run("\"hello\" + \"world\""), Object::String("helloworld".to_owned()));
}

#[test]
fn eval_builtin_len() {
    assert_eq!(run("len(\"\")"), Object::Int(0));
    assert_eq!(run("len(\"four\")"), Object::Int(4));
    assert_eq!(run("len(\"hello world\")"), Object::Int(11));
    assert!(matches!(run_err("len(1)"), EvalError::CoercionError { .. }));
    assert!(matches!(
        run_err("len(\"one\", \"two\")"),
        EvalError::Arity { expected: 1, got: 2 }
    ));
}

#[test]
fn eval_let_statements() {
    let cases = [
        ("let a = 5; a;", Object::Int(5)),
        ("let a = 5 * 5; a;", Object::Int(25)),
        ("let a = 5; let b = a; b;", Object::Int(5)),
        ("let a = 5; let b = a; let c = a + b + 5; c;", Object::Int(15)),
    ];
    for (input, expected) in cases {
        assert_eq!(run(input), expected, "input: {input}");
    }
}

#[test]
fn eval_function_declaration() {
    let result = run("fn(x) { x + 2; };");
    match result {
        Object::Function(f) => {
            assert_eq!(f.parameters.len(), 1);
            assert_eq!(f.body.0.len(), 1);
        },
        other => panic!("expected function, found: {:?}", other),
    }
}

#[test]
fn eval_function_call() {
    let cases = [
        ("let identity = fn(x) { x; }; identity(5);", Object::Int(5)),
        ("let identity = fn(x) { return x; }; identity(5);", Object::Int(5)),
        ("let double = fn(x) { x * 2; }; double(5);", Object::Int(10)),
        ("let add = fn(x, y) { x + y; }; add(5, 5);", Object::Int(10)),
        ("let add = fn(x, y) { x + y; }; add(5 + 5, add(5, 5));", Object::Int(20)),
        ("fn(x) { x; }(5)", Object::Int(5)),
    ];
    for (input, expected) in cases {
        assert_eq!(run(input), expected, "input: {input}");
    }
}

#[test]
fn eval_closure() {
    let cases = [
        (
            "
        let newAdder = fn(x) {fn(y) { x + y };};
        let addTwo = newAdder(2);
        addTwo(2);
        ",
            Object::Int(4),
        ),
        (
            "
        let newAdder = fn(x) {fn(y) { x + y };};
        let addTwo = newAdder(2);
        let addEight = newAdder(8);
        let addTen = fn(x) { addTwo(addEight(x)) };
        addTen(5);
        ",
            Object::Int(15),
        ),
        (
            "
        let add = fn(a, b) { a + b };
        let applyFunc = fn(a, b, func) { func(a, b) };
        applyFunc(10, 2, add);
        ",
            Object::Int(12),
        ),
    ];
    for (input, expected) in cases {
        assert_eq!(run(input), expected, "input: {input}");
    }
}

#[test]
fn eval_type_errors() {
    assert!(matches!(run_err("5 + true;"), EvalError::BinaryTypeError { .. }));
    assert!(matches!(run_err("5 + true; 5;"), EvalError::BinaryTypeError { .. }));
    assert!(matches!(run_err("-true;"), EvalError::UnaryTypeError { .. }));
    assert!(matches!(run_err("true + false;"), EvalError::BinaryTypeError { .. }));
    assert!(matches!(
        run_err("true + false + true + false;"),
        EvalError::BinaryTypeError { .. }
    ));
    assert!(matches!(run_err("5; true + false; 5"), EvalError::BinaryTypeError { .. }));
    assert!(matches!(
        run_err(
            "if (10 > 1) {
            if (10 > 1) {
                return true + false;
            };
            return 1;
        };"
        ),
        EvalError::BinaryTypeError { .. }
    ));
    assert!(matches!(run_err("foobar;"), EvalError::UnknownIdentifier(_)));
    assert!(matches!(run_err("let foo = 3; let foo = 4;"), EvalError::Redefined(_)));
    assert!(matches!(run_err("\"Hello\" - \"World\""), EvalError::BinaryTypeError { .. }));
}

#[test]
fn eval_division() {
    assert_eq!(run("7 / 2;"), Object::Int(3));
    assert_eq!(run("-7 / 2;"), Object::Int(-3));
    assert!(matches!(run_err("1 / 0;"), EvalError::DivisionByZero));
}

#[test]
fn eval_unhashable_key() {
    assert!(matches!(run_err("{1:1}[fn(){}]"), EvalError::UnhashableKey(_)));
    assert!(matches!(run_err("{fn(){}: 1}"), EvalError::UnhashableKey(_)));
}

#[test]
fn eval_rest_builtin() {
    assert_eq!(run("rest([1, 2, 3])"), ints(&[2, 3]));
    assert_eq!(run("rest([])"), Object::Nil);
    assert_eq!(run("first([7, 8])"), Object::Int(7));
    assert_eq!(run("first([])"), Object::Nil);
    assert_eq!(run("last([7, 8])"), Object::Int(8));
    assert_eq!(run("last([])"), Object::Nil);
    assert_eq!(run("push([1], 2)"), ints(&[1, 2]));
}

#[test]
fn eval_puts_output() {
    let lexer = Lexer::new("puts(1, \"two\", [3]);");
    let parser = Parser::new(lexer);
    assert!(parser.errors.is_empty());
    let mut program = Program::new();
    let result = program.eval(parser).unwrap();
    assert_eq!(result, Object::Nil);
    let lines: Vec<String> = program.env.output.clone();
    assert_eq!(lines, vec!["1".to_owned(), "two".to_owned(), "[3]".to_owned()]);
}

#[test]
fn eval_display_strings() {
    assert_eq!(run("[1, \"a\", nil]").display_string(), "[1, a, nil]");
    assert_eq!(run("{\"k\": 1, 2: true}").display_string(), "{k: 1, 2: true}");
    assert_eq!(run("fn(a, b) { a }").display_string(), "fn(a, b) {...}");
    assert_eq!(run("-42").display_string(), "-42");
    assert_eq!(run("len").display_string(), "len");
}
