//! Parser tests.

use monkey_rust::Identifier;
use monkey_rust::ast::BinaryOperator;
use monkey_rust::ast::Expression;
use monkey_rust::ast::Literal;
use monkey_rust::ast::Statement;
use monkey_rust::ast::UnaryOperator;
use monkey_rust::lexer::Lexer;
use monkey_rust::parser::Parser;

fn parse(input: &str) -> Parser {
    let lexer = Lexer::new(input);
    let program = Parser::new(lexer);
    assert!(program.errors.is_empty(), "errors: {:?}", program.errors);
    program
}

fn lit_int(i: i64) -> Expression {
    Expression::Literal(Literal::Int(i))
}

#[test]
fn parse_call_expression() {
    let input = "
    myFn();
    myFn(1,2);
    myFn(1, 2 * 3, -4 + 5);
    myFn(fn() {});
    fn() {}();
    fn(x) { return x; }(1);
    -myFn(1,2);
    myFn(fn(a,b) {return a + b;}(1,2));";
    let program = parse(input);
    assert_eq!(program.nodes.len(), 8);
    match &program.nodes[1] {
        Statement::Expression(e) => match &**e {
            Expression::Call(c) => {
                assert_eq!(c.arguments.len(), 2);
                assert_eq!(c.arguments[0], lit_int(1));
                assert_eq!(c.arguments[1], lit_int(2));
            },
            other => panic!("expected call, found {:?}", other),
        },
        other => panic!("expected expression statement, found {:?}", other),
    }
}

#[test]
fn parse_fn_expression() {
    let input = "
    fn() {};
    fn(x) { x; };
    fn(x, y, z) { return x + y + z; };";
    let program = parse(input);
    assert_eq!(program.nodes.len(), 3);
    match &program.nodes[2] {
        Statement::Expression(e) => match &**e {
            Expression::Function(f) => {
                assert_eq!(f.parameters.len(), 3);
                assert_eq!(f.body.0.len(), 1);
            },
            other => panic!("expected function, found {:?}", other),
        },
        other => panic!("expected expression statement, found {:?}", other),
    }
}

#[test]
fn parse_grouped_expression() {
    let input = "(5 + 5) * 5; -(5 + 5);";
    let program = parse(input);
    assert_eq!(program.nodes.len(), 2);
    match &program.nodes[0] {
        Statement::Expression(e) => match &**e {
            Expression::BinaryExp(b) => {
                assert_eq!(b.operator, BinaryOperator::Mul);
                assert!(matches!(*b.lhs, Expression::BinaryExp(_)));
                assert_eq!(*b.rhs, lit_int(5));
            },
            other => panic!("expected binary expression, found {:?}", other),
        },
        other => panic!("expected expression statement, found {:?}", other),
    }
}

#[test]
fn parse_if_expression() {
    let input = "if (x < y) { return x; };";
    let program = parse(input);
    assert_eq!(program.nodes.len(), 1);
    match &program.nodes[0] {
        Statement::Expression(e) => match &**e {
            Expression::If(f) => {
                assert!(f.alternative.is_none());
                assert_eq!(f.consequence.0.len(), 1);
            },
            other => panic!("expected if, found {:?}", other),
        },
        other => panic!("expected expression statement, found {:?}", other),
    }
}

#[test]
fn parse_if_else_expression() {
    let input = "
    if (x < y) { x; } else { y; };
    if (x < y) { return x; } else { return y; };
    if (x < y) { x == 3; } else { x != 1; };";
    let program = parse(input);
    assert_eq!(program.nodes.len(), 3);
    for node in &program.nodes {
        match node {
            Statement::Expression(e) => match &**e {
                Expression::If(f) => assert!(f.alternative.is_some()),
                other => panic!("expected if, found {:?}", other),
            },
            other => panic!("expected expression statement, found {:?}", other),
        }
    }
}

#[test]
fn parse_function_call_expression() {}

#[test]
fn parse_infix_expression() {
    let input = "
    5 + 5;
    5 - 5;
    5 * 5;
    5 / 5;
    5 > 5;
    5 < 5;
    5 == 5;
    5 != 5;";
    let program = parse(input);
    let expected = [
        BinaryOperator::Add,
        BinaryOperator::Sub,
        BinaryOperator::Mul,
        BinaryOperator::Div,
        BinaryOperator::Gt,
        BinaryOperator::Lt,
        BinaryOperator::Eq,
        BinaryOperator::NotEq,
    ];
    assert_eq!(program.nodes.len(), expected.len());
    for (node, op) in program.nodes.iter().zip(expected) {
        match node {
            Statement::Expression(e) => match &**e {
                Expression::BinaryExp(b) => {
                    assert_eq!(b.operator, op);
                    assert_eq!(*b.lhs, lit_int(5));
                    assert_eq!(*b.rhs, lit_int(5));
                },
                other => panic!("expected binary expression, found {:?}", other),
            },
            other => panic!("expected expression statement, found {:?}", other),
        }
    }
}

#[test]
fn parse_prefix_expression() {
    let input = "
    -1;
    !5;
    !!-2;";
    let program = parse(input);
    assert_eq!(
        program.nodes,
        [
            Statement::Expression(Box::new(Expression::UnaryExpression(
                monkey_rust::ast::UnaryExpression {
                    operator: UnaryOperator::Minus,
                    value: Box::new(lit_int(1)),
                }
            ))),
            Statement::Expression(Box::new(Expression::UnaryExpression(
                monkey_rust::ast::UnaryExpression {
                    operator: UnaryOperator::Not,
                    value: Box::new(lit_int(5)),
                }
            ))),
            Statement::Expression(Box::new(Expression::UnaryExpression(
                monkey_rust::ast::UnaryExpression {
                    operator: UnaryOperator::Not,
                    value: Box::new(Expression::UnaryExpression(
                        monkey_rust::ast::UnaryExpression {
                            operator: UnaryOperator::Not,
                            value: Box::new(Expression::UnaryExpression(
                                monkey_rust::ast::UnaryExpression {
                                    operator: UnaryOperator::Minus,
                                    value: Box::new(lit_int(2)),
                                }
                            )),
                        }
                    )),
                }
            ))),
        ]
    )
}

#[test]
fn parse_expression_statement_identifier() {
    let program = parse("foobar;");
    assert_eq!(
        program.nodes,
        [Statement::Expression(Box::new(Expression::Identifier(Identifier::new(
            "foobar".to_owned()
        ))))]
    )
}

#[test]
fn parse_expression_statement_integer_literal() {
    let program = parse("3;");
    assert_eq!(program.nodes, [Statement::Expression(Box::new(lit_int(3)))])
}

#[test]
fn parse_let_statement() {
    let input = "
    let x = false;
    let y = 10;
    let foobar = true;";
    let program = parse(input);
    assert_eq!(
        program.nodes,
        [
            Statement::Let {
                identifier: Identifier::new("x".to_owned()),
                value: Box::new(Expression::Literal(Literal::False)),
            },
            Statement::Let {
                identifier: Identifier::new("y".to_owned()),
                value: Box::new(lit_int(10)),
            },
            Statement::Let {
                identifier: Identifier::new("foobar".to_owned()),
                value: Box::new(Expression::Literal(Literal::True)),
            },
        ]
    )
}

#[test]
fn parse_return_statement() {
    let input = "
    return 5;
    return 10;
    return 993322;";
    let program = parse(input);
    assert_eq!(
        program.nodes,
        [
            Statement::Return(Box::new(lit_int(5))),
            Statement::Return(Box::new(lit_int(10))),
            Statement::Return(Box::new(lit_int(993322))),
        ]
    )
}

#[test]
fn check_parser_precedence() {
    let input = r#"
    -a * b;
    !-a;
    a + b + c;
    a + b - c;
    a * b * c;
    a * b / c;
    a + b / c;
    a + b * c + d / e - f;
    3 + 4; -5 * 5;
    5 > 4 == 3 < 4;
    5 < 4 != 3 > 4;
    3 + 4 * 5 == 3 * 1 + 4 * 5;
    true;
    false;
    3 > 5 == false;
    3 < 5 == true;
    1 + (2 + 3) + 4;
    (5 + 5) * 2;
    2 / (5 + 5);
    (5 + 5) * 2 * (5 + 5);
    -(5 + 5);
    !(true == true);
    a + add(b * c) + d;
    add(a, b, 1, 2 * 3, 4 + 5, add(6, 7 * 8));
    add(a + b + c * d / f + g);"#;
    let program = parse(input);
    assert_eq!(program.nodes.len(), 26);
    // `-a * b` groups as `(-a) * b`.
    match &program.nodes[0] {
        Statement::Expression(e) => match &**e {
            Expression::BinaryExp(b) => {
                assert_eq!(b.operator, BinaryOperator::Mul);
                assert!(matches!(*b.lhs, Expression::UnaryExpression(_)));
            },
            other => panic!("expected binary expression, found {:?}", other),
        },
        other => panic!("expected expression statement, found {:?}", other),
    }
    // `3 + 4 * 5 == 3 * 1 + 4 * 5` groups the equality last.
    match &program.nodes[12] {
        Statement::Expression(e) => match &**e {
            Expression::BinaryExp(b) => assert_eq!(b.operator, BinaryOperator::Eq),
            other => panic!("expected binary expression, found {:?}", other),
        },
        other => panic!("expected expression statement, found {:?}", other),
    }
}

#[test]
fn check_parser_precedence_2() {}

#[test]
fn parse_error_recovery() {
    // A bad statement adds its error, and parsing recovers at the next
    // statement boundary.
    let lexer = Lexer::new("let 5 = 3; let x = 1; x;");
    let program = Parser::new(lexer);
    assert_eq!(program.errors.len(), 1);
    assert_eq!(program.nodes.len(), 2);
}

#[test]
fn parse_array_and_hash_literals() {
    let program = parse("[1, 2]; {1: 2, \"a\": 3}; a[0];");
    assert_eq!(program.nodes.len(), 3);
    assert!(matches!(
        &program.nodes[0],
        Statement::Expression(e) if matches!(&**e, Expression::Literal(Literal::Array(_)))
    ));
    assert!(matches!(
        &program.nodes[1],
        Statement::Expression(e) if matches!(&**e, Expression::Literal(Literal::Hash(_)))
    ));
    assert!(matches!(
        &program.nodes[2],
        Statement::Expression(e) if matches!(&**e, Expression::IndexExpression(_))
    ));
}
