use horse::ast::Expr;
use horse::ast::FunctionParameter;
use horse::ast::AST;
use horse::bytecode::compiler::build_fully_qualified_name;
use horse::bytecode::compiler::compile;
use horse::bytecode::compiler::compile_ast;
use horse::bytecode::compiler::compile_ast_internal;
use horse::bytecode::compiler::compile_expr;
use horse::bytecode::compiler::compile_repl;
use horse::bytecode::compiler::generate_assign_path;
use horse::bytecode::compiler::make_code_object;
use horse::bytecode::compiler::process_constval;
use horse::bytecode::compiler::resolve_loads_stores;
use horse::bytecode::program::CodeObject;
use horse::bytecode::program::Const;
use horse::bytecode::program::Instruction;
use horse::bytecode::support::block_is_supported;
use horse::bytecode::support::code_is_runnable;
use horse::bytecode::tables::ConstTable;
use horse::lexer::Float;
use horse::lexer::Operator;

fn number(i: i128) -> Expr {
    Expr::IntegerValue(i)
}

fn var(name: &str) -> Expr {
    Expr::Variable(name.to_string())
}

fn binary(lhs: Expr, op: Operator, rhs: Expr) -> Expr {
    Expr::BinaryOperation(Box::new(lhs), op, Box::new(rhs))
}

fn assign(name: &str, expression: Expr) -> AST {
    AST::Assign { path: vec![name.to_string()], expression }
}

fn unit(instructions: Vec<Instruction>, params: Vec<&str>) -> CodeObject {
    CodeObject {
        instructions,
        names: vec![],
        params: params.into_iter().map(String::from).collect(),
        consts: vec![],
        main: false,
        objname: "f".to_string(),
    }
}

fn load(name: &str) -> Instruction {
    Instruction::UnresolvedLoadName(name.to_string())
}

fn store(name: &str) -> Instruction {
    Instruction::UnresolvedStoreName(name.to_string())
}

#[test]
fn constants_are_interned_in_order_of_first_use() {
    let mut table = ConstTable::new();
    assert_eq!(
        process_constval(Const::Integer(5), &mut table),
        vec![Instruction::LoadConst(0)]
    );
    assert_eq!(
        process_constval(Const::String("a".to_string()), &mut table),
        vec![Instruction::LoadConst(1)]
    );
    assert_eq!(
        process_constval(Const::Integer(5), &mut table),
        vec![Instruction::LoadConst(0)]
    );
    assert_eq!(
        process_constval(Const::Float(Float(5.0f64.to_bits())), &mut table),
        vec![Instruction::LoadConst(2)]
    );
    assert_eq!(
        process_constval(Const::Boolean(true), &mut table),
        vec![Instruction::LoadConst(3)]
    );
    assert_eq!(
        process_constval(Const::NoneValue, &mut table),
        vec![Instruction::LoadConst(4)]
    );
    assert_eq!(table.len(), 5);
    assert_eq!(
        table.to_vec(),
        vec![
            Const::Integer(5),
            Const::String("a".to_string()),
            Const::Integer(5).clone(),
            Const::Boolean(true),
            Const::NoneValue,
        ]
        .into_iter()
        .enumerate()
        .map(|(i, c)| if i == 2 { Const::Float(Float(5.0f64.to_bits())) } else { c })
        .collect::<Vec<Const>>()
    );
}

#[test]
fn logical_operators_call_methods() {
    let mut table = ConstTable::new();
    let code = compile_expr(&binary(var("a"), Operator::Xor, var("b")), &mut table);
    assert_eq!(
        code,
        vec![
            load("a"),
            Instruction::LoadAttr("__xor__".to_string()),
            load("b"),
            Instruction::CallFunction { number_arguments: 1 },
        ]
    );
    let code = compile_expr(
        &Expr::UnaryExpression(Operator::Not, Box::new(var("a"))),
        &mut table,
    );
    assert_eq!(
        code,
        vec![
            load("a"),
            Instruction::LoadAttr("__not__".to_string()),
            Instruction::CallFunction { number_arguments: 0 },
        ]
    );
}

#[test]
fn every_arithmetic_and_comparison_operator_has_its_opcode() {
    let cases = vec![
        (Operator::Plus, Instruction::BinaryAdd),
        (Operator::Minus, Instruction::BinarySubtract),
        (Operator::Multiply, Instruction::BinaryMultiply),
        (Operator::Divide, Instruction::BinaryTrueDivision),
        (Operator::Mod, Instruction::BinaryModulus),
        (Operator::Less, Instruction::CompareLessThan),
        (Operator::Greater, Instruction::CompareGreaterThan),
        (Operator::Equals, Instruction::CompareEquals),
        (Operator::NotEquals, Instruction::CompareNotEquals),
        (Operator::LessEquals, Instruction::CompareLessEquals),
        (Operator::GreaterEquals, Instruction::CompareGreaterEquals),
    ];
    for (op, opcode) in cases {
        let mut table = ConstTable::new();
        let code = compile_expr(&binary(var("a"), op, var("b")), &mut table);
        assert_eq!(code, vec![load("a"), load("b"), opcode]);
    }
}

#[test]
fn index_member_array_and_call() {
    let mut table = ConstTable::new();
    let e = Expr::FunctionCall(
        Box::new(Expr::MemberAccess(
            Box::new(Expr::IndexAccess(
                Box::new(Expr::Array(vec![number(1), number(2)])),
                Box::new(number(0)),
            )),
            "f".to_string(),
        )),
        vec![number(2), Expr::NoneValue],
    );
    assert_eq!(
        compile_expr(&e, &mut table),
        vec![
            Instruction::LoadConst(0),
            Instruction::LoadConst(1),
            Instruction::BuildList { number_elements: 2 },
            Instruction::LoadConst(2),
            Instruction::IndexAccess,
            Instruction::LoadAttr("f".to_string()),
            Instruction::LoadConst(1),
            Instruction::LoadConst(3),
            Instruction::CallFunction { number_arguments: 2 },
        ]
    );
}

#[test]
fn unsupported_trees_are_told_apart() {
    let shift = binary(number(1), Operator::BitShiftLeft, number(2));
    assert!(!block_is_supported(&vec![AST::StandaloneExpr(shift)]));
    let unary = Expr::UnaryExpression(Operator::Multiply, Box::new(number(1)));
    assert!(!block_is_supported(&vec![AST::Raise(unary)]));
    assert!(!block_is_supported(&vec![AST::Assign { path: vec![], expression: number(1) }]));
    let nested = AST::WhileStatement {
        expression: number(1),
        body: vec![AST::Return(Some(Expr::Parenthesized(Box::new(number(1)))))],
    };
    assert!(!block_is_supported(&vec![nested]));
    assert!(block_is_supported(&vec![AST::Break, AST::Return(None)]));
}

#[test]
fn slots_parameters_first_then_stores_then_loads() {
    let mut code = unit(
        vec![
            load("g"),
            load("b"),
            store("x"),
            load("x"),
            load("g"),
            Instruction::UnresolvedStoreAttr("attr".to_string()),
            load("a"),
            store("a"),
            Instruction::PopTop,
        ],
        vec!["a", "b"],
    );
    resolve_loads_stores(&mut code);
    assert_eq!(code.names, vec!["a", "b", "x", "attr", "g"]);
    assert_eq!(
        code.instructions,
        vec![
            Instruction::LoadGlobal(4),
            Instruction::LoadName(1),
            Instruction::StoreName(2),
            Instruction::LoadName(2),
            Instruction::LoadGlobal(4),
            Instruction::StoreAttr(3),
            Instruction::LoadName(0),
            Instruction::StoreName(0),
            Instruction::PopTop,
        ]
    );
    assert!(!code_is_runnable(&unit(vec![load("x")], vec![])));
    assert!(code_is_runnable(&code));
}

#[test]
fn dotted_targets_load_all_but_the_last_component() {
    let path: Vec<String> = vec!["a".into(), "b".into(), "c".into()];
    assert_eq!(
        generate_assign_path(&path, true),
        vec![
            load("a"),
            Instruction::LoadAttr("b".to_string()),
            Instruction::UnresolvedStoreAttr("c".to_string()),
        ]
    );
    assert_eq!(
        generate_assign_path(&path[1..], false),
        vec![
            Instruction::LoadAttr("b".to_string()),
            Instruction::UnresolvedStoreAttr("c".to_string()),
        ]
    );
    assert_eq!(
        generate_assign_path(&path[2..], true),
        vec![Instruction::UnresolvedStoreAttr("c".to_string())]
    );
    assert_eq!(generate_assign_path(&[], true), vec![]);
}

#[test]
fn qualified_names_are_joined_by_dots() {
    assert_eq!(build_fully_qualified_name(None, "f"), "f");
    assert_eq!(build_fully_qualified_name(Some("C".to_string()), "f"), "C.f");
    assert_eq!(build_fully_qualified_name(Some("A.B".to_string()), ""), "A.B.");
}

#[test]
fn return_is_added_only_where_it_is_missing() {
    let mut table = ConstTable::new();
    let code = make_code_object(vec![Instruction::PopTop], "f".to_string(), &mut table, true);
    assert_eq!(
        code.instructions,
        vec![Instruction::PopTop, Instruction::LoadConst(0), Instruction::ReturnValue]
    );
    assert_eq!(code.consts, vec![Const::NoneValue]);
    assert_eq!(table.len(), 1);
    assert_eq!(code.objname, "f");
    assert!(!code.main);

    let code = make_code_object(vec![Instruction::ReturnValue], "f".to_string(), &mut table, true);
    assert_eq!(code.instructions, vec![Instruction::ReturnValue]);

    let mut table = ConstTable::new();
    let code = make_code_object(vec![], "f".to_string(), &mut table, true);
    assert_eq!(code.instructions, vec![Instruction::LoadConst(0), Instruction::ReturnValue]);

    let mut table = ConstTable::new();
    let code = make_code_object(vec![Instruction::PopTop], "f".to_string(), &mut table, false);
    assert_eq!(code.instructions, vec![Instruction::PopTop]);
    assert_eq!(table.len(), 0);
}

#[test]
fn offset_moves_every_jump() {
    let ast = || {
        vec![AST::WhileStatement { expression: var("c"), body: vec![AST::Break] }]
    };
    let mut results = vec![];
    let mut table = ConstTable::new();
    let at_zero = compile_ast(ast(), 0, &mut results, &mut table);
    assert_eq!(
        at_zero.instructions,
        vec![
            load("c"),
            Instruction::JumpIfFalseAndPopStack(4),
            Instruction::JumpUnconditional(4),
            Instruction::JumpUnconditional(0),
            Instruction::LoadConst(0),
            Instruction::ReturnValue,
        ]
    );
    assert_eq!(at_zero.objname, "__main__");
    let mut table = ConstTable::new();
    let moved = compile_ast_internal(
        ast(),
        10,
        Some("unit".to_string()),
        false,
        &mut results,
        &mut table,
    );
    assert_eq!(
        moved.instructions,
        vec![
            load("c"),
            Instruction::JumpIfFalseAndPopStack(14),
            Instruction::JumpUnconditional(14),
            Instruction::JumpUnconditional(10),
        ]
    );
    assert_eq!(moved.objname, "unit");
    assert!(results.is_empty());
}

#[test]
fn break_leaves_the_innermost_loop() {
    // while a:
    //     for i in l:
    //         break
    //     break
    let ast = vec![AST::WhileStatement {
        expression: var("a"),
        body: vec![
            AST::ForStatement {
                item_name: "i".to_string(),
                list_expression: var("l"),
                body: vec![AST::Break],
            },
            AST::Break,
        ],
    }];
    let program = compile(ast);
    assert_eq!(
        program.code_objects[0].instructions,
        vec![
            Instruction::LoadGlobal(1),
            Instruction::JumpIfFalseAndPopStack(11),
            Instruction::LoadGlobal(2),
            Instruction::LoadAttr("__iter__".to_string()),
            Instruction::CallFunction { number_arguments: 0 },
            Instruction::ForIter(9),
            Instruction::StoreName(0),
            Instruction::JumpUnconditional(9),
            Instruction::JumpUnconditional(5),
            Instruction::JumpUnconditional(11),
            Instruction::JumpUnconditional(0),
            Instruction::LoadConst(0),
            Instruction::ReturnValue,
        ]
    );
}

#[test]
fn loops_inside_branches_jump_to_absolute_targets() {
    // if a:
    //     while b: x = 1
    let ast = vec![AST::IfStatement {
        true_branch: horse::ast::ASTIfStatement {
            expression: var("a"),
            statements: vec![AST::WhileStatement {
                expression: var("b"),
                body: vec![assign("x", number(1))],
            }],
        },
        elifs: vec![],
        final_else: None,
    }];
    let program = compile(ast);
    assert_eq!(
        program.code_objects[0].instructions,
        vec![
            Instruction::LoadGlobal(1),
            Instruction::JumpIfFalseAndPopStack(7),
            Instruction::LoadGlobal(2),
            Instruction::JumpIfFalseAndPopStack(7),
            Instruction::LoadConst(0),
            Instruction::StoreName(0),
            Instruction::JumpUnconditional(2),
            Instruction::LoadConst(1),
            Instruction::ReturnValue,
        ]
    );
}

#[test]
fn classes_and_methods_get_qualified_names() {
    // class C:
    //     def m(self): return
    let ast = vec![AST::ClassDeclaration {
        class_name: "C".to_string(),
        body: vec![AST::DeclareFunction {
            function_name: "m".to_string(),
            parameters: vec![FunctionParameter::Simple("self".to_string())],
            body: vec![AST::Return(None)],
        }],
    }];
    let program = compile(ast);
    assert_eq!(program.code_objects.len(), 3);
    let names: Vec<&str> = program.code_objects.iter().map(|c| c.objname.as_str()).collect();
    assert_eq!(names, vec!["__main__", "C.m", "C"]);
    let method = &program.code_objects[1];
    assert_eq!(method.instructions, vec![Instruction::LoadConst(0), Instruction::ReturnValue]);
    assert_eq!(method.consts, vec![Const::NoneValue]);
    let class = &program.code_objects[2];
    assert_eq!(
        class.instructions,
        vec![
            Instruction::BuildList { number_elements: 0 },
            Instruction::LoadConst(0),
            Instruction::LoadConst(1),
            Instruction::MakeFunction(false),
            Instruction::StoreName(0),
            Instruction::LoadConst(2),
            Instruction::ReturnValue,
        ]
    );
    assert_eq!(class.consts[1], Const::String("C.m".to_string()));
    assert_eq!(class.names, vec!["m"]);
    let main = &program.code_objects[0];
    assert_eq!(
        main.instructions,
        vec![
            Instruction::LoadConst(0),
            Instruction::LoadConst(1),
            Instruction::MakeClass,
            Instruction::StoreName(0),
            Instruction::LoadConst(2),
            Instruction::ReturnValue,
        ]
    );
    assert_eq!(main.consts[0], Const::CodeObject(class.clone()));
}

#[test]
fn raise_is_followed_by_return_none() {
    let program = compile(vec![AST::Raise(var("e"))]);
    assert_eq!(
        program.code_objects[0].instructions,
        vec![
            Instruction::LoadGlobal(0),
            Instruction::Raise,
            Instruction::LoadConst(0),
            Instruction::ReturnValue,
        ]
    );
}

#[test]
fn repl_leaves_code_alone_that_ends_in_no_expression() {
    // if c: 1
    let ast = || {
        vec![AST::IfStatement {
            true_branch: horse::ast::ASTIfStatement {
                expression: var("c"),
                statements: vec![AST::StandaloneExpr(number(1))],
            },
            elifs: vec![],
            final_else: None,
        }]
    };
    assert_eq!(
        compile(ast()).code_objects[0].instructions,
        vec![
            Instruction::LoadGlobal(0),
            Instruction::JumpIfFalseAndPopStack(4),
            Instruction::LoadConst(0),
            Instruction::PopTop,
            Instruction::LoadConst(1),
            Instruction::ReturnValue,
        ]
    );
    assert_eq!(compile_repl(ast()), compile(ast()));
    // x = 1 is no expression: nothing is trimmed
    let stored = || vec![assign("x", number(1))];
    assert_eq!(
        compile_repl(stored()).code_objects[0].instructions,
        compile(stored()).code_objects[0].instructions
    );
}

#[test]
fn every_jump_of_a_compiled_program_lands_inside_its_unit() {
    let ast = vec![
        AST::DeclareFunction {
            function_name: "f".to_string(),
            parameters: vec![FunctionParameter::DefaultValue("a".to_string(), number(1))],
            body: vec![
                AST::ForStatement {
                    item_name: "i".to_string(),
                    list_expression: var("a"),
                    body: vec![AST::IfStatement {
                        true_branch: horse::ast::ASTIfStatement {
                            expression: var("i"),
                            statements: vec![AST::Break],
                        },
                        elifs: vec![horse::ast::ASTIfStatement {
                            expression: var("j"),
                            statements: vec![AST::Return(Some(var("i")))],
                        }],
                        final_else: Some(vec![AST::Raise(var("i"))]),
                    }],
                },
                AST::WhileStatement { expression: var("a"), body: vec![] },
            ],
        },
        AST::StandaloneExpr(var("f")),
    ];
    let program = compile(ast);
    for code in &program.code_objects {
        assert!(code_is_runnable(code));
        for instruction in &code.instructions {
            match instruction {
                Instruction::JumpUnconditional(t)
                | Instruction::JumpIfFalseAndPopStack(t)
                | Instruction::ForIter(t) => assert!(*t <= code.instructions.len()),
                Instruction::LoadConst(i) => assert!(*i < code.consts.len()),
                Instruction::LoadName(s)
                | Instruction::LoadGlobal(s)
                | Instruction::StoreName(s)
                | Instruction::StoreAttr(s) => assert!(*s < code.names.len()),
                _ => {}
            }
        }
    }
}
