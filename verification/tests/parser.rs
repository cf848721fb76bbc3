use horse::ast::ASTIfStatement;
use horse::ast::Expr;
use horse::ast::AST;
use horse::builtin_types::register_builtins;
use horse::bytecode::compiler::compile_repl;
use horse::bytecode::support::block_is_supported;
use horse::lexer::tokenize;
use horse::lexer::Float;
use horse::lexer::Operator;
use horse::parser::parse_ast;
use horse::parser::ParseError;
use horse::runtime::interpreter::execute_program;
use horse::runtime::interpreter::ExecutionOutcome;
use horse::runtime::natives::NoHost;
use horse::runtime::vm::VM;

fn no_floats(_written: String) -> Option<Float> {
    None
}

fn parse(source: &str) -> Result<Vec<AST>, ParseError> {
    parse_ast(&tokenize(source, no_floats).unwrap())
}

fn number(i: i128) -> Expr {
    Expr::IntegerValue(i)
}

fn var(name: &str) -> Expr {
    Expr::Variable(name.to_string())
}

fn binary(lhs: Expr, op: Operator, rhs: Expr) -> Expr {
    Expr::BinaryOperation(Box::new(lhs), op, Box::new(rhs))
}

fn assign(name: &str, expression: Expr) -> AST {
    AST::Assign { path: vec![name.to_string()], expression }
}

#[test]
fn product_binds_closer_than_sum() {
    assert_eq!(
        parse("1 + 2 * 3"),
        Ok(vec![AST::StandaloneExpr(binary(
            number(1),
            Operator::Plus,
            binary(number(2), Operator::Multiply, number(3)),
        ))])
    );
}

#[test]
fn operators_of_one_level_group_from_the_left() {
    assert_eq!(
        parse("1 - 2 - 3"),
        Ok(vec![AST::StandaloneExpr(binary(
            binary(number(1), Operator::Minus, number(2)),
            Operator::Minus,
            number(3),
        ))])
    );
}

#[test]
fn parentheses_leave_no_node() {
    assert_eq!(
        parse("(1 + 2) * 3"),
        Ok(vec![AST::StandaloneExpr(binary(
            binary(number(1), Operator::Plus, number(2)),
            Operator::Multiply,
            number(3),
        ))])
    );
}

#[test]
fn comparison_binds_closer_than_and_and_or() {
    assert_eq!(
        parse("a < 1 and not b == 2 or c"),
        Ok(vec![AST::StandaloneExpr(binary(
            binary(
                binary(var("a"), Operator::Less, number(1)),
                Operator::And,
                Expr::UnaryExpression(
                    Operator::Not,
                    Box::new(binary(var("b"), Operator::Equals, number(2))),
                ),
            ),
            Operator::Or,
            var("c"),
        ))])
    );
}

#[test]
fn sign_binds_closer_than_product() {
    assert_eq!(
        parse("-a * b"),
        Ok(vec![AST::StandaloneExpr(binary(
            Expr::UnaryExpression(Operator::Minus, Box::new(var("a"))),
            Operator::Multiply,
            var("b"),
        ))])
    );
}

#[test]
fn calls_take_arguments() {
    assert_eq!(
        parse("f(1, g(), 2 % 3)(x)"),
        Ok(vec![AST::StandaloneExpr(Expr::FunctionCall(
            Box::new(Expr::FunctionCall(
                Box::new(var("f")),
                vec![
                    number(1),
                    Expr::FunctionCall(Box::new(var("g")), vec![]),
                    binary(number(2), Operator::Mod, number(3)),
                ],
            )),
            vec![var("x")],
        ))])
    );
}

#[test]
fn statements_stand_on_lines() {
    assert_eq!(
        parse("x = 0\n\nwhile x < 3: x = x + 1\nx\n"),
        Ok(vec![
            assign("x", number(0)),
            AST::WhileStatement {
                expression: binary(var("x"), Operator::Less, number(3)),
                body: vec![assign("x", binary(var("x"), Operator::Plus, number(1)))],
            },
            AST::StandaloneExpr(var("x")),
        ])
    );
}

#[test]
fn blocks_are_indented() {
    let source = "if a:\n    x = 1\n    if b:\n        break\nelif c:\n    x = 2\nelse:\n    x = 3\ny";
    assert_eq!(
        parse(source),
        Ok(vec![
            AST::IfStatement {
                true_branch: ASTIfStatement {
                    expression: var("a"),
                    statements: vec![
                        assign("x", number(1)),
                        AST::IfStatement {
                            true_branch: ASTIfStatement {
                                expression: var("b"),
                                statements: vec![AST::Break],
                            },
                            elifs: vec![],
                            final_else: None,
                        },
                    ],
                },
                elifs: vec![ASTIfStatement {
                    expression: var("c"),
                    statements: vec![assign("x", number(2))],
                }],
                final_else: Some(vec![assign("x", number(3))]),
            },
            AST::StandaloneExpr(var("y")),
        ])
    );
}

#[test]
fn empty_text_is_the_empty_program() {
    assert_eq!(parse(""), Ok(vec![]));
    assert_eq!(parse("\n\n"), Ok(vec![]));
}

#[test]
fn errors_name_the_token() {
    assert_eq!(parse("1 +"), Err(ParseError::UnexpectedEnd));
    assert_eq!(parse("1 2"), Err(ParseError::UnexpectedToken(1)));
    assert_eq!(parse("(1"), Err(ParseError::UnexpectedEnd));
    assert_eq!(parse("x\n    y"), Err(ParseError::Indentation(3)));
    assert_eq!(parse("while x\n    y"), Err(ParseError::UnexpectedToken(2)));
    assert_eq!(parse("1 << 2"), Err(ParseError::UnexpectedToken(1)));
    assert_eq!(parse("if x:\ny"), Err(ParseError::UnexpectedToken(4)));
}

#[test]
fn what_the_parser_gives_the_compiler_accepts() {
    let source = "x = 0\nwhile x < 3:\n    if x == 1: x = x + 2\n    else: x = x + 1\nx";
    let ast = parse(source).unwrap();
    assert!(block_is_supported(&ast));
    let mut vm = VM::new();
    register_builtins(&mut vm);
    let program = compile_repl(ast);
    assert_eq!(execute_program(&mut vm, &NoHost, program), ExecutionOutcome::Finished);
    let top = vm.get_stack_offset(-1);
    assert_eq!(vm.get_raw_data_of_pyobj(top).take_int(), 3);
}

#[test]
fn an_operator_that_is_read_owes_its_right_operand() {
    assert_eq!(parse("1 + )"), Err(ParseError::UnexpectedToken(2)));
    assert_eq!(parse("not"), Err(ParseError::UnexpectedEnd));
    assert_eq!(parse("f(1,"), Err(ParseError::UnexpectedEnd));
    assert_eq!(parse("f(1 2)"), Err(ParseError::UnexpectedToken(3)));
    assert_eq!(parse("x ="), Err(ParseError::UnexpectedEnd));
    assert_eq!(parse("(1 2"), Err(ParseError::UnexpectedToken(2)));
    assert_eq!(parse(")"), Err(ParseError::UnexpectedToken(0)));
}

#[test]
fn bodies_and_branches_that_go_wrong() {
    assert_eq!(parse("if x:"), Err(ParseError::UnexpectedEnd));
    assert_eq!(parse("if x: 1\nelse 2"), Err(ParseError::UnexpectedToken(6)));
    assert_eq!(parse("if x: 1\nelif y 2"), Err(ParseError::UnexpectedToken(7)));
    assert_eq!(parse("x\n        y"), Err(ParseError::Indentation(4)));
    assert_eq!(parse("x\ny z"), Err(ParseError::UnexpectedToken(3)));
    assert_eq!(
        parse("f(1)(2)"),
        Ok(vec![AST::StandaloneExpr(Expr::FunctionCall(
            Box::new(Expr::FunctionCall(Box::new(var("f")), vec![number(1)])),
            vec![number(2)],
        ))])
    );
}
