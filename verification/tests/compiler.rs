use horse::ast::ASTIfStatement;
use horse::ast::Expr;
use horse::ast::FunctionParameter;
use horse::ast::AST;
use horse::bytecode::compiler::compile;
use horse::bytecode::compiler::compile_repl;
use horse::bytecode::program::Const;
use horse::bytecode::program::Instruction;
use horse::bytecode::support::block_is_supported;
use horse::lexer::Operator;

fn number(i: i128) -> Expr {
    Expr::IntegerValue(i)
}

fn var(name: &str) -> Expr {
    Expr::Variable(name.to_string())
}

fn binary(lhs: Expr, op: Operator, rhs: Expr) -> Expr {
    Expr::BinaryOperation(Box::new(lhs), op, Box::new(rhs))
}

fn assign(name: &str, expression: Expr) -> AST {
    AST::Assign { path: vec![name.to_string()], expression }
}

#[test]
fn compiles_one_plus_one_for_script() {
    let ast = vec![AST::StandaloneExpr(binary(number(1), Operator::Plus, number(1)))];
    assert!(block_is_supported(&ast));
    let program = compile(ast);
    assert_eq!(program.version, 1);
    assert_eq!(program.code_objects.len(), 1);
    let main = &program.code_objects[0];
    assert!(main.main);
    assert_eq!(main.objname, "__main__");
    assert_eq!(main.consts, vec![Const::Integer(1), Const::NoneValue]);
    assert_eq!(
        main.instructions,
        vec![
            Instruction::LoadConst(0),
            Instruction::LoadConst(0),
            Instruction::BinaryAdd,
            Instruction::PopTop,
            Instruction::LoadConst(1),
            Instruction::ReturnValue,
        ]
    );
}

#[test]
fn compiles_one_plus_one_for_repl() {
    let ast = vec![AST::StandaloneExpr(binary(number(1), Operator::Plus, number(1)))];
    let program = compile_repl(ast);
    assert_eq!(
        program.code_objects[0].instructions,
        vec![
            Instruction::LoadConst(0),
            Instruction::LoadConst(0),
            Instruction::BinaryAdd,
            Instruction::LoadConst(1),
            Instruction::ReturnValue,
        ]
    );
}

#[test]
fn compiles_while_loop_with_absolute_jumps() {
    // x = 0
    // while x < 3: x = x + 1
    // x
    let ast = vec![
        assign("x", number(0)),
        AST::WhileStatement {
            expression: binary(var("x"), Operator::Less, number(3)),
            body: vec![assign("x", binary(var("x"), Operator::Plus, number(1)))],
        },
        AST::StandaloneExpr(var("x")),
    ];
    let program = compile(ast);
    let main = &program.code_objects[0];
    assert_eq!(main.names, vec!["x".to_string()]);
    assert_eq!(
        main.instructions,
        vec![
            Instruction::LoadConst(0),
            Instruction::StoreName(0),
            Instruction::LoadName(0),
            Instruction::LoadConst(1),
            Instruction::CompareLessThan,
            Instruction::JumpIfFalseAndPopStack(11),
            Instruction::LoadName(0),
            Instruction::LoadConst(2),
            Instruction::BinaryAdd,
            Instruction::StoreName(0),
            Instruction::JumpUnconditional(2),
            Instruction::LoadName(0),
            Instruction::PopTop,
            Instruction::LoadConst(3),
            Instruction::ReturnValue,
        ]
    );
}

#[test]
fn compiles_function_with_default() {
    // def f(a, b=10): return a + b
    // f(5)
    let ast = vec![
        AST::DeclareFunction {
            function_name: "f".to_string(),
            parameters: vec![
                FunctionParameter::Simple("a".to_string()),
                FunctionParameter::DefaultValue("b".to_string(), number(10)),
            ],
            body: vec![AST::Return(Some(binary(var("a"), Operator::Plus, var("b"))))],
        },
        AST::StandaloneExpr(Expr::FunctionCall(Box::new(var("f")), vec![number(5)])),
    ];
    let program = compile(ast);
    assert_eq!(program.code_objects.len(), 2);
    let f = &program.code_objects[1];
    assert_eq!(f.objname, "f");
    assert!(!f.main);
    assert_eq!(f.params, vec!["a".to_string(), "b".to_string()]);
    assert_eq!(f.names, vec!["a".to_string(), "b".to_string()]);
    assert_eq!(
        f.instructions,
        vec![
            Instruction::LoadName(0),
            Instruction::LoadName(1),
            Instruction::BinaryAdd,
            Instruction::ReturnValue,
        ]
    );
    let main = &program.code_objects[0];
    assert_eq!(
        main.instructions,
        vec![
            Instruction::LoadConst(0),
            Instruction::BuildList { number_elements: 1 },
            Instruction::LoadConst(1),
            Instruction::LoadConst(2),
            Instruction::MakeFunction(true),
            Instruction::StoreName(0),
            Instruction::LoadName(0),
            Instruction::LoadConst(3),
            Instruction::CallFunction { number_arguments: 1 },
            Instruction::PopTop,
            Instruction::LoadConst(4),
            Instruction::ReturnValue,
        ]
    );
    assert_eq!(main.consts.len(), 5);
    assert_eq!(main.consts[2], Const::String("f".to_string()));
    match &main.consts[1] {
        Const::CodeObject(code) => assert_eq!(code, f),
        other => panic!("expected a code object, found {:?}", other),
    }
}

#[test]
fn compiles_if_elif_else_as_nested_ifs() {
    // if a: 1
    // elif b: 2
    // else: 3
    let ast = vec![AST::IfStatement {
        true_branch: ASTIfStatement {
            expression: var("a"),
            statements: vec![AST::StandaloneExpr(number(1))],
        },
        elifs: vec![ASTIfStatement {
            expression: var("b"),
            statements: vec![AST::StandaloneExpr(number(2))],
        }],
        final_else: Some(vec![AST::StandaloneExpr(number(3))]),
    }];
    let program = compile(ast);
    assert_eq!(
        program.code_objects[0].instructions,
        vec![
            Instruction::LoadGlobal(0),
            Instruction::JumpIfFalseAndPopStack(5),
            Instruction::LoadConst(0),
            Instruction::PopTop,
            Instruction::JumpUnconditional(12),
            Instruction::LoadGlobal(1),
            Instruction::JumpIfFalseAndPopStack(10),
            Instruction::LoadConst(1),
            Instruction::PopTop,
            Instruction::JumpUnconditional(12),
            Instruction::LoadConst(2),
            Instruction::PopTop,
            Instruction::LoadConst(3),
            Instruction::ReturnValue,
        ]
    );
}

#[test]
fn rejects_parenthesized_expression() {
    let ast = vec![AST::StandaloneExpr(Expr::Parenthesized(Box::new(number(1))))];
    assert!(!block_is_supported(&ast));
}
