use horse::ast::Expr;
use horse::ast::FunctionParameter;
use horse::ast::AST;
use horse::builtin_types::register_builtins;
use horse::bytecode::compiler::compile;
use horse::bytecode::compiler::compile_repl;
use horse::lexer::Operator;
use horse::runtime::datamodel::BuiltInTypeData;
use horse::runtime::datamodel::PyObjectStructure;
use horse::runtime::interpreter::execute_program;
use horse::runtime::interpreter::ExecutionOutcome;
use horse::runtime::natives::NoHost;
use horse::runtime::vm::VM;

fn number(i: i128) -> Expr {
    Expr::IntegerValue(i)
}

fn var(name: &str) -> Expr {
    Expr::Variable(name.to_string())
}

fn binary(lhs: Expr, op: Operator, rhs: Expr) -> Expr {
    Expr::BinaryOperation(Box::new(lhs), op, Box::new(rhs))
}

fn assign(name: &str, expression: Expr) -> AST {
    AST::Assign { path: vec![name.to_string()], expression }
}

fn call(callee: Expr, arguments: Vec<Expr>) -> Expr {
    Expr::FunctionCall(Box::new(callee), arguments)
}

fn member(object: Expr, name: &str) -> Expr {
    Expr::MemberAccess(Box::new(object), name.to_string())
}

fn machine() -> VM {
    let mut vm = VM::new();
    register_builtins(&mut vm);
    vm
}

fn top_int(vm: &VM) -> i128 {
    let top = vm.get_stack_offset(-1);
    vm.get_raw_data_of_pyobj(top).take_int()
}

#[test]
fn repl_one_plus_one_leaves_two() {
    let mut vm = machine();
    let program = compile_repl(vec![AST::StandaloneExpr(binary(
        number(1),
        Operator::Plus,
        number(1),
    ))]);
    assert_eq!(execute_program(&mut vm, &NoHost, program), ExecutionOutcome::Finished);
    assert_eq!(vm.stack.len(), 1);
    assert_eq!(top_int(&vm), 2);
    assert!(vm.frames.is_empty());
}

#[test]
fn script_leaves_empty_stack() {
    let mut vm = machine();
    let program = compile(vec![AST::StandaloneExpr(binary(
        number(1),
        Operator::Plus,
        number(1),
    ))]);
    assert_eq!(execute_program(&mut vm, &NoHost, program), ExecutionOutcome::Finished);
    assert!(vm.stack.is_empty());
    assert!(vm.frames.is_empty());
}

#[test]
fn while_loop_counts_to_three() {
    let mut vm = machine();
    let program = compile_repl(vec![
        assign("x", number(0)),
        AST::WhileStatement {
            expression: binary(var("x"), Operator::Less, number(3)),
            body: vec![assign("x", binary(var("x"), Operator::Plus, number(1)))],
        },
        AST::StandaloneExpr(var("x")),
    ]);
    assert_eq!(execute_program(&mut vm, &NoHost, program), ExecutionOutcome::Finished);
    assert_eq!(top_int(&vm), 3);
}

#[test]
fn function_with_default_argument() {
    // def f(a, b=10): return a + b
    // f(5)
    let mut vm = machine();
    let program = compile_repl(vec![
        AST::DeclareFunction {
            function_name: "f".to_string(),
            parameters: vec![
                FunctionParameter::Simple("a".to_string()),
                FunctionParameter::DefaultValue("b".to_string(), number(10)),
            ],
            body: vec![AST::Return(Some(binary(var("a"), Operator::Plus, var("b"))))],
        },
        AST::StandaloneExpr(call(var("f"), vec![number(5)])),
    ]);
    assert_eq!(execute_program(&mut vm, &NoHost, program), ExecutionOutcome::Finished);
    assert_eq!(top_int(&vm), 15);
}

#[test]
fn all_defaults_are_bound_without_arguments() {
    // def f(a=1, b=2): return a * 10 + b
    // f()
    let mut vm = machine();
    let program = compile_repl(vec![
        AST::DeclareFunction {
            function_name: "f".to_string(),
            parameters: vec![
                FunctionParameter::DefaultValue("a".to_string(), number(1)),
                FunctionParameter::DefaultValue("b".to_string(), number(2)),
            ],
            body: vec![AST::Return(Some(binary(
                binary(var("a"), Operator::Multiply, number(10)),
                Operator::Plus,
                var("b"),
            )))],
        },
        AST::StandaloneExpr(call(var("f"), vec![])),
    ]);
    assert_eq!(execute_program(&mut vm, &NoHost, program), ExecutionOutcome::Finished);
    assert_eq!(top_int(&vm), 12);
}

#[test]
fn class_with_init_sets_attribute() {
    // class C:
    //     def __init__(self): self.x = 1
    // C().x
    let mut vm = machine();
    let program = compile_repl(vec![
        AST::ClassDeclaration {
            class_name: "C".to_string(),
            body: vec![AST::DeclareFunction {
                function_name: "__init__".to_string(),
                parameters: vec![FunctionParameter::Simple("self".to_string())],
                body: vec![AST::Assign {
                    path: vec!["self".to_string(), "x".to_string()],
                    expression: number(1),
                }],
            }],
        },
        AST::StandaloneExpr(member(call(var("C"), vec![]), "x")),
    ]);
    assert_eq!(execute_program(&mut vm, &NoHost, program), ExecutionOutcome::Finished);
    assert_eq!(top_int(&vm), 1);
}

#[test]
fn for_loop_sums_list() {
    // total = 0
    // for i in [1, 2, 3]: total = total + i
    // total
    let mut vm = machine();
    let program = compile_repl(vec![
        assign("total", number(0)),
        AST::ForStatement {
            item_name: "i".to_string(),
            list_expression: Expr::Array(vec![number(1), number(2), number(3)]),
            body: vec![assign("total", binary(var("total"), Operator::Plus, var("i")))],
        },
        AST::StandaloneExpr(var("total")),
    ]);
    assert_eq!(execute_program(&mut vm, &NoHost, program), ExecutionOutcome::Finished);
    assert_eq!(top_int(&vm), 6);
    assert_eq!(vm.stack.len(), 1);
}

#[test]
fn for_loop_over_empty_list_skips_body() {
    // x = 7
    // for i in []: x = 0
    // x
    let mut vm = machine();
    let program = compile_repl(vec![
        assign("x", number(7)),
        AST::ForStatement {
            item_name: "i".to_string(),
            list_expression: Expr::Array(vec![]),
            body: vec![assign("x", number(0))],
        },
        AST::StandaloneExpr(var("x")),
    ]);
    assert_eq!(execute_program(&mut vm, &NoHost, program), ExecutionOutcome::Finished);
    assert_eq!(top_int(&vm), 7);
}

#[test]
fn unknown_name_raises_name_error() {
    let mut vm = machine();
    let program = compile(vec![AST::StandaloneExpr(var("nothing"))]);
    match execute_program(&mut vm, &NoHost, program) {
        ExecutionOutcome::Raised(exception) => {
            assert_eq!(
                vm.exception_message(exception),
                "NameError: name 'nothing' is not defined"
            );
        }
        other => panic!("expected an exception, got {:?}", other),
    }
    assert!(vm.frames.is_empty());
}

#[test]
fn list_index_out_of_range_raises_index_error() {
    let mut vm = machine();
    let program = compile(vec![AST::StandaloneExpr(Expr::IndexAccess(
        Box::new(Expr::Array(vec![number(1)])),
        Box::new(number(5)),
    ))]);
    match execute_program(&mut vm, &NoHost, program) {
        ExecutionOutcome::Raised(exception) => {
            assert_eq!(vm.exception_message(exception), "IndexError: list index out of range");
        }
        other => panic!("expected an exception, got {:?}", other),
    }
}

#[test]
fn list_repr_and_str() {
    let mut vm = machine();
    let list = Expr::Array(vec![number(1), number(-2), Expr::StringValue("a'b".to_string())]);
    let program = compile_repl(vec![AST::StandaloneExpr(call(member(list, "__repr__"), vec![]))]);
    assert_eq!(execute_program(&mut vm, &NoHost, program), ExecutionOutcome::Finished);
    let top = vm.get_stack_offset(-1);
    assert_eq!(vm.get_raw_data_of_pyobj(top).take_string(), "[1,-2,'a\\'b']");

    let list = Expr::Array(vec![number(1), number(2)]);
    let program = compile_repl(vec![AST::StandaloneExpr(call(member(list, "__str__"), vec![]))]);
    assert_eq!(execute_program(&mut vm, &NoHost, program), ExecutionOutcome::Finished);
    let top = vm.get_stack_offset(-1);
    assert_eq!(vm.get_raw_data_of_pyobj(top).take_string(), "[1, 2]");
}

#[test]
fn list_equality_is_pairwise() {
    let mut vm = machine();
    let cases = vec![
        (vec![], vec![], true),
        (vec![1, 2, 3], vec![1, 2, 3], true),
        (vec![1, 2, 3], vec![1, 2, 4], false),
        (vec![1, 2], vec![1, 2, 3], false),
        (vec![2, 1], vec![1, 2], false),
    ];
    for (a, b, expected) in cases {
        let lhs = Expr::Array(a.into_iter().map(number).collect());
        let rhs = Expr::Array(b.into_iter().map(number).collect());
        let program = compile_repl(vec![AST::StandaloneExpr(binary(lhs, Operator::Equals, rhs))]);
        assert_eq!(execute_program(&mut vm, &NoHost, program), ExecutionOutcome::Finished);
        let top = vm.get_stack_offset(-1);
        let wanted = if expected {
            vm.builtin_type_addrs.true_val
        } else {
            vm.builtin_type_addrs.false_val
        };
        assert_eq!(top, wanted);
    }
}

#[test]
fn bound_method_is_loaded_for_list_append() {
    let mut vm = machine();
    let program = compile_repl(vec![AST::StandaloneExpr(member(Expr::Array(vec![]), "append"))]);
    assert_eq!(execute_program(&mut vm, &NoHost, program), ExecutionOutcome::Finished);
    let top = vm.get_stack_offset(-1);
    match &vm.get_pyobj_byaddr(top).structure {
        PyObjectStructure::BoundMethod { .. } => {}
        other => panic!("expected a bound method, got {:?}", other),
    }
}

#[test]
fn append_and_extend_change_the_list_in_place() {
    // l = [1]
    // l.append(2)
    // l.extend([3, 4])
    // l.__len__()
    let mut vm = machine();
    let program = compile_repl(vec![
        assign("l", Expr::Array(vec![number(1)])),
        AST::StandaloneExpr(call(member(var("l"), "append"), vec![number(2)])),
        AST::StandaloneExpr(call(
            member(var("l"), "extend"),
            vec![Expr::Array(vec![number(3), number(4)])],
        )),
        AST::StandaloneExpr(call(member(var("l"), "__len__"), vec![])),
    ]);
    assert_eq!(execute_program(&mut vm, &NoHost, program), ExecutionOutcome::Finished);
    assert_eq!(top_int(&vm), 4);
    let list = vm.get_local(0).unwrap();
    match vm.get_raw_data_of_pyobj(list) {
        BuiltInTypeData::List(items) => {
            let values: Vec<i128> =
                items.iter().map(|a| vm.get_raw_data_of_pyobj(*a).take_int()).collect();
            assert_eq!(values, vec![1, 2, 3, 4]);
        }
        other => panic!("expected a list, got {:?}", other),
    }
}

#[test]
fn runs_out_of_steps() {
    // while True: x = 1
    let mut vm = machine();
    vm.steps_left = 1000;
    let program = compile(vec![AST::WhileStatement {
        expression: Expr::BooleanValue(true),
        body: vec![assign("x", number(1))],
    }]);
    assert_eq!(execute_program(&mut vm, &NoHost, program), ExecutionOutcome::OutOfSteps);
    assert_eq!(vm.steps_left, 0);
    assert!(vm.frames.is_empty());
}
