use horse::ast::ASTIfStatement;
use horse::ast::Expr;
use horse::ast::FunctionParameter;
use horse::ast::AST;
use horse::builtin_types::register_builtins;
use horse::bytecode::compiler::compile;
use horse::bytecode::compiler::compile_repl;
use horse::bytecode::program::CodeObject;
use horse::bytecode::program::Instruction;
use horse::bytecode::program::Program;
use horse::lexer::Operator;
use horse::runtime::attributes::Attribute;
use horse::runtime::datamodel::BuiltInTypeData;
use horse::runtime::datamodel::NativeFunction;
use horse::runtime::datamodel::PyObjectStructure;
use horse::runtime::frames::bind_arguments;
use horse::runtime::interpreter::call_method;
use horse::runtime::interpreter::execute_program;
use horse::runtime::interpreter::ExecutionOutcome;
use horse::runtime::interpreter::Fault;
use horse::runtime::names::NameMap;
use horse::runtime::natives::NoHost;
use horse::runtime::vm::BUILTIN_MODULE;
use horse::runtime::vm::VM;

fn number(i: i128) -> Expr {
    Expr::IntegerValue(i)
}

fn text(s: &str) -> Expr {
    Expr::StringValue(s.to_string())
}

fn var(name: &str) -> Expr {
    Expr::Variable(name.to_string())
}

fn binary(lhs: Expr, op: Operator, rhs: Expr) -> Expr {
    Expr::BinaryOperation(Box::new(lhs), op, Box::new(rhs))
}

fn assign(name: &str, expression: Expr) -> AST {
    AST::Assign { path: vec![name.to_string()], expression }
}

fn call(callee: Expr, arguments: Vec<Expr>) -> Expr {
    Expr::FunctionCall(Box::new(callee), arguments)
}

fn member(object: Expr, name: &str) -> Expr {
    Expr::MemberAccess(Box::new(object), name.to_string())
}

fn machine() -> VM {
    let mut vm = VM::new();
    register_builtins(&mut vm);
    vm
}

fn evaluate(vm: &mut VM, program: Vec<AST>) -> usize {
    let program = compile_repl(program);
    assert_eq!(execute_program(vm, &NoHost, program), ExecutionOutcome::Finished);
    vm.get_stack_offset(-1)
}

fn evaluate_int(program: Vec<AST>) -> i128 {
    let mut vm = machine();
    let top = evaluate(&mut vm, program);
    vm.get_raw_data_of_pyobj(top).take_int()
}

fn evaluate_text(program: Vec<AST>) -> String {
    let mut vm = machine();
    let top = evaluate(&mut vm, program);
    vm.get_raw_data_of_pyobj(top).take_string().clone()
}

fn failure(program: Vec<AST>) -> String {
    let mut vm = machine();
    match execute_program(&mut vm, &NoHost, compile(program)) {
        ExecutionOutcome::Raised(exception) => {
            assert_eq!(vm.pending_exception, Some(exception));
            assert!(vm.frames.is_empty());
            vm.exception_message(exception)
        }
        other => panic!("expected an exception, got {:?}", other),
    }
}

fn chooses(condition: Expr) -> i128 {
    evaluate_int(vec![
        AST::IfStatement {
            true_branch: ASTIfStatement {
                expression: condition,
                statements: vec![assign("x", number(1))],
            },
            elifs: vec![],
            final_else: Some(vec![assign("x", number(0))]),
        },
        AST::StandaloneExpr(var("x")),
    ])
}

#[test]
fn integers_compute_and_wrap() {
    let e = |op, a, b| evaluate_int(vec![AST::StandaloneExpr(binary(number(a), op, number(b)))]);
    assert_eq!(e(Operator::Plus, 2, 3), 5);
    assert_eq!(e(Operator::Minus, 2, 3), -1);
    assert_eq!(e(Operator::Multiply, -4, 3), -12);
    assert_eq!(e(Operator::Plus, i128::MAX, 1), i128::MIN);
    assert_eq!(e(Operator::Minus, i128::MIN, 1), i128::MAX);
    assert_eq!(e(Operator::Multiply, i128::MAX, 2), -2);
    let negated = evaluate_int(vec![AST::StandaloneExpr(Expr::UnaryExpression(
        Operator::Minus,
        Box::new(number(5)),
    ))]);
    assert_eq!(negated, -5);
    let same = evaluate_int(vec![AST::StandaloneExpr(Expr::UnaryExpression(
        Operator::Plus,
        Box::new(number(5)),
    ))]);
    assert_eq!(same, 5);
}

#[test]
fn comparisons_answer_the_singletons() {
    let cases = vec![
        (Operator::Less, 1, 2, true),
        (Operator::Less, 2, 2, false),
        (Operator::Greater, 3, 2, true),
        (Operator::LessEquals, 2, 2, true),
        (Operator::GreaterEquals, 1, 2, false),
        (Operator::Equals, 2, 2, true),
        (Operator::NotEquals, 2, 2, false),
        (Operator::NotEquals, 1, 2, true),
    ];
    for (op, a, b, expected) in cases {
        let mut vm = machine();
        let top = evaluate(&mut vm, vec![AST::StandaloneExpr(binary(number(a), op, number(b)))]);
        let wanted = if expected {
            vm.builtin_type_addrs.true_val
        } else {
            vm.builtin_type_addrs.false_val
        };
        assert_eq!(top, wanted, "{:?} {} {}", op, a, b);
    }
}

#[test]
fn equality_does_not_depend_on_the_order() {
    let values = vec![number(1), number(2), text("a"), text("b"), Expr::BooleanValue(true)];
    for a in 0..values.len() {
        for b in 0..values.len() {
            let make = |i: usize| match &values[i] {
                Expr::IntegerValue(i) => number(*i),
                Expr::StringValue(s) => text(s),
                _ => Expr::BooleanValue(true),
            };
            let mut vm = machine();
            let one = evaluate(
                &mut vm,
                vec![AST::StandaloneExpr(binary(make(a), Operator::Equals, make(b)))],
            );
            let other = evaluate(
                &mut vm,
                vec![AST::StandaloneExpr(binary(make(b), Operator::Equals, make(a)))],
            );
            assert_eq!(one, other);
        }
    }
}

#[test]
fn truth_values_combine() {
    let e = |op, a, b| {
        evaluate_int(vec![AST::StandaloneExpr(binary(
            Expr::BooleanValue(a),
            op,
            Expr::BooleanValue(b),
        ))])
    };
    assert_eq!(e(Operator::And, true, true), 1);
    assert_eq!(e(Operator::And, true, false), 0);
    assert_eq!(e(Operator::Or, false, true), 1);
    assert_eq!(e(Operator::Or, false, false), 0);
    assert_eq!(e(Operator::Xor, true, true), 0);
    assert_eq!(e(Operator::Xor, true, false), 1);
    let negated = evaluate_int(vec![AST::StandaloneExpr(Expr::UnaryExpression(
        Operator::Not,
        Box::new(Expr::BooleanValue(true)),
    ))]);
    assert_eq!(negated, 0);
    // a truth value is an integer too
    assert_eq!(
        evaluate_int(vec![AST::StandaloneExpr(binary(
            Expr::BooleanValue(true),
            Operator::Plus,
            number(1)
        ))]),
        2
    );
}

#[test]
fn what_counts_as_true() {
    assert_eq!(chooses(number(0)), 0);
    assert_eq!(chooses(number(7)), 1);
    assert_eq!(chooses(text("")), 0);
    assert_eq!(chooses(text("a")), 1);
    assert_eq!(chooses(Expr::Array(vec![])), 0);
    assert_eq!(chooses(Expr::Array(vec![number(0)])), 1);
    assert_eq!(chooses(Expr::NoneValue), 0);
    assert_eq!(chooses(Expr::BooleanValue(false)), 0);
    assert_eq!(chooses(Expr::BooleanValue(true)), 1);
}

#[test]
fn a_class_decides_what_counts_as_true() {
    // class Never:
    //     def __bool__(self): return False
    // if Never(): x = 1
    // else: x = 0
    let class = AST::ClassDeclaration {
        class_name: "Never".to_string(),
        body: vec![AST::DeclareFunction {
            function_name: "__bool__".to_string(),
            parameters: vec![FunctionParameter::Simple("self".to_string())],
            body: vec![AST::Return(Some(Expr::BooleanValue(false)))],
        }],
    };
    let result = evaluate_int(vec![
        class,
        AST::IfStatement {
            true_branch: ASTIfStatement {
                expression: call(var("Never"), vec![]),
                statements: vec![assign("x", number(1))],
            },
            elifs: vec![],
            final_else: Some(vec![assign("x", number(0))]),
        },
        AST::StandaloneExpr(var("x")),
    ]);
    assert_eq!(result, 0);
}

#[test]
fn texts_of_scalars() {
    let repr = |e| evaluate_text(vec![AST::StandaloneExpr(call(member(e, "__repr__"), vec![]))]);
    assert_eq!(repr(number(0)), "0");
    assert_eq!(repr(number(1234567890)), "1234567890");
    assert_eq!(repr(number(i128::MAX)), "170141183460469231731687303715884105727");
    assert_eq!(repr(number(i128::MIN)), "-170141183460469231731687303715884105728");
    assert_eq!(repr(text("it's")), "'it\\'s'");
    assert_eq!(repr(text("a\\b")), "'a\\\\b'");
    assert_eq!(repr(Expr::BooleanValue(true)), "True");
    assert_eq!(repr(Expr::BooleanValue(false)), "False");
    assert_eq!(repr(Expr::NoneValue), "None");
    assert_eq!(repr(Expr::Array(vec![])), "[]");
    let length = evaluate_int(vec![AST::StandaloneExpr(call(
        member(text("héllo"), "__len__"),
        vec![],
    ))]);
    assert_eq!(length, 5);
}

#[test]
fn empty_list_has_no_items_and_equals_the_empty_list() {
    let length = evaluate_int(vec![AST::StandaloneExpr(call(
        member(Expr::Array(vec![]), "__len__"),
        vec![],
    ))]);
    assert_eq!(length, 0);
    let mut vm = machine();
    let top = evaluate(
        &mut vm,
        vec![AST::StandaloneExpr(call(
            member(Expr::Array(vec![]), "__eq__"),
            vec![Expr::Array(vec![])],
        ))],
    );
    assert_eq!(top, vm.builtin_type_addrs.true_val);
    let top = evaluate(
        &mut vm,
        vec![AST::StandaloneExpr(binary(
            Expr::Array(vec![]),
            Operator::NotEquals,
            Expr::Array(vec![]),
        ))],
    );
    assert_eq!(top, vm.builtin_type_addrs.false_val);
    let top = evaluate(
        &mut vm,
        vec![AST::StandaloneExpr(binary(Expr::Array(vec![]), Operator::Equals, number(0)))],
    );
    assert_eq!(top, vm.builtin_type_addrs.false_val);
}

#[test]
fn lists_concatenate_and_index() {
    let picked = evaluate_int(vec![AST::StandaloneExpr(Expr::IndexAccess(
        Box::new(binary(
            Expr::Array(vec![number(1), number(2)]),
            Operator::Plus,
            Expr::Array(vec![number(3)]),
        )),
        Box::new(number(2)),
    ))]);
    assert_eq!(picked, 3);
    assert_eq!(
        failure(vec![AST::StandaloneExpr(Expr::IndexAccess(
            Box::new(Expr::Array(vec![number(1)])),
            Box::new(number(-1)),
        ))]),
        "IndexError: list index out of range"
    );
    assert_eq!(
        failure(vec![AST::StandaloneExpr(Expr::IndexAccess(
            Box::new(Expr::Array(vec![number(1)])),
            Box::new(text("a")),
        ))]),
        "TypeError: list indices must be integers"
    );
    assert_eq!(
        failure(vec![AST::StandaloneExpr(binary(
            Expr::Array(vec![]),
            Operator::Plus,
            number(1)
        ))]),
        "TypeError: can only concatenate list to list"
    );
}

#[test]
fn errors_of_the_machine() {
    assert_eq!(
        failure(vec![AST::StandaloneExpr(member(number(1), "nothing"))]),
        "AttributeError: object has no attribute 'nothing'"
    );
    assert_eq!(
        failure(vec![AST::StandaloneExpr(call(number(1), vec![]))]),
        "TypeError: object is not callable"
    );
    assert_eq!(
        failure(vec![AST::StandaloneExpr(binary(number(1), Operator::Divide, number(2)))]),
        "TypeError: unsupported operand: 'int' has no __truediv__"
    );
    assert_eq!(
        failure(vec![AST::StandaloneExpr(binary(number(1), Operator::Plus, text("a")))]),
        "TypeError: unsupported operand for an integer operation"
    );
    let function = AST::DeclareFunction {
        function_name: "f".to_string(),
        parameters: vec![
            FunctionParameter::Simple("a".to_string()),
            FunctionParameter::DefaultValue("b".to_string(), number(1)),
        ],
        body: vec![],
    };
    let with = |arguments| {
        vec![
            AST::DeclareFunction {
                function_name: "f".to_string(),
                parameters: vec![
                    FunctionParameter::Simple("a".to_string()),
                    FunctionParameter::DefaultValue("b".to_string(), number(1)),
                ],
                body: vec![],
            },
            AST::StandaloneExpr(call(var("f"), arguments)),
        ]
    };
    assert_eq!(
        failure(with(vec![])),
        "TypeError: the arguments do not fit the function's parameters"
    );
    assert_eq!(
        failure(with(vec![number(1), number(2), number(3)])),
        "TypeError: the arguments do not fit the function's parameters"
    );
    let mut vm = machine();
    evaluate(&mut vm, vec![function, AST::StandaloneExpr(call(var("f"), vec![number(1)]))]);
    assert_eq!(
        failure(vec![AST::Raise(call(var("TypeError"), vec![]))]),
        "TypeError"
    );
}

#[test]
fn instance_attribute_hides_the_method_and_is_not_bound() {
    // class C:
    //     def m(self): return 1
    // c = C()
    // c.m = 5
    // c.m
    let mut vm = machine();
    let class = AST::ClassDeclaration {
        class_name: "C".to_string(),
        body: vec![AST::DeclareFunction {
            function_name: "m".to_string(),
            parameters: vec![FunctionParameter::Simple("self".to_string())],
            body: vec![AST::Return(Some(number(1)))],
        }],
    };
    let top = evaluate(
        &mut vm,
        vec![
            class,
            assign("c", call(var("C"), vec![])),
            AST::StandaloneExpr(member(var("c"), "m")),
        ],
    );
    match &vm.get_pyobj_byaddr(top).structure {
        PyObjectStructure::BoundMethod { .. } => {}
        other => panic!("expected a bound method, got {:?}", other),
    }
    let instance = vm.get_local(1).unwrap();
    let five = vm.new_int(5);
    vm.set_attribute(instance, "m".to_string(), five);
    assert_eq!(vm.resolve_attribute(instance, "m"), Some(Attribute::Value(five)));
    assert_eq!(vm.resolve_attribute(instance, "other"), None);
}

#[test]
fn methods_are_found_in_the_types_that_a_type_extends() {
    let mut vm = machine();
    let base = vm.create_type(BUILTIN_MODULE, "Base", None);
    let derived = vm.create_type(BUILTIN_MODULE, "Derived", Some(base));
    assert!(vm.register_bounded_func(BUILTIN_MODULE, "Base", "m", NativeFunction::ListLen));
    assert!(vm.register_bounded_func(BUILTIN_MODULE, "Base", "n", NativeFunction::ListLen));
    assert!(vm.register_bounded_func(BUILTIN_MODULE, "Derived", "m", NativeFunction::ListIter));
    assert!(!vm.register_bounded_func(BUILTIN_MODULE, "Missing", "m", NativeFunction::ListIter));
    assert_eq!(vm.find_member(BUILTIN_MODULE, "Derived"), Some(derived));
    let native = |vm: &VM, found: Option<usize>| match &vm.get_pyobj_byaddr(found.unwrap()).structure
    {
        PyObjectStructure::NativeFunction { function } => *function,
        other => panic!("expected a native function, got {:?}", other),
    };
    assert_eq!(native(&vm, vm.find_in_types(derived, "m")), NativeFunction::ListIter);
    assert_eq!(native(&vm, vm.find_in_types(derived, "n")), NativeFunction::ListLen);
    assert_eq!(native(&vm, vm.find_in_types(base, "m")), NativeFunction::ListLen);
    assert_eq!(vm.find_in_types(base, "x"), None);
    assert_eq!(vm.get_pyobj_type_name(derived), "type");
}

#[test]
fn arguments_fill_the_first_slots_and_defaults_the_rest() {
    assert_eq!(
        bind_arguments(2, 3, &vec![], &vec![7, 8]),
        Some(vec![Some(7), Some(8), None])
    );
    assert_eq!(
        bind_arguments(2, 3, &vec![5], &vec![7, 8]),
        Some(vec![Some(5), Some(8), None])
    );
    assert_eq!(
        bind_arguments(3, 3, &vec![5, 6], &vec![9]),
        Some(vec![Some(5), Some(6), Some(9)])
    );
    assert_eq!(bind_arguments(3, 3, &vec![5], &vec![9]), None);
    assert_eq!(bind_arguments(1, 1, &vec![5, 6], &vec![]), None);
    assert_eq!(bind_arguments(0, 2, &vec![], &vec![]), Some(vec![None, None]));
    assert_eq!(bind_arguments(1, 0, &vec![1], &vec![]), None);
}

#[test]
fn names_map_to_the_last_address_entered() {
    let mut names = NameMap::new();
    assert_eq!(names.get("a"), None);
    names.insert("a".to_string(), 1);
    names.insert("b".to_string(), 2);
    names.insert("a".to_string(), 3);
    assert_eq!(names.get("a"), Some(3));
    assert_eq!(names.get("b"), Some(2));
    assert_eq!(names.get(""), None);
    let copy = names.clone();
    assert_eq!(copy.get("a"), Some(3));
}

#[test]
fn globals_are_seen_inside_functions() {
    // x = 41
    // def f(): return x + 1
    // f()
    let result = evaluate_int(vec![
        assign("x", number(41)),
        AST::DeclareFunction {
            function_name: "f".to_string(),
            parameters: vec![],
            body: vec![AST::Return(Some(binary(var("x"), Operator::Plus, number(1))))],
        },
        AST::StandaloneExpr(call(var("f"), vec![])),
    ]);
    assert_eq!(result, 42);
}

#[test]
fn globals_live_on_between_programs() {
    let mut vm = machine();
    let program = compile_repl(vec![assign("x", number(2))]);
    assert_eq!(execute_program(&mut vm, &NoHost, program), ExecutionOutcome::Finished);
    assert!(vm.stack.is_empty());
    let top = evaluate(
        &mut vm,
        vec![AST::StandaloneExpr(binary(var("x"), Operator::Multiply, number(21)))],
    );
    assert_eq!(vm.get_raw_data_of_pyobj(top).take_int(), 42);
}

#[test]
fn recursion_runs_in_frames_of_its_own() {
    // def sum(n):
    //     if n == 0: return 0
    //     return n + sum(n - 1)
    // sum(100)
    let result = evaluate_int(vec![
        AST::DeclareFunction {
            function_name: "sum".to_string(),
            parameters: vec![FunctionParameter::Simple("n".to_string())],
            body: vec![
                AST::IfStatement {
                    true_branch: ASTIfStatement {
                        expression: binary(var("n"), Operator::Equals, number(0)),
                        statements: vec![AST::Return(Some(number(0)))],
                    },
                    elifs: vec![],
                    final_else: None,
                },
                AST::Return(Some(binary(
                    var("n"),
                    Operator::Plus,
                    call(var("sum"), vec![binary(var("n"), Operator::Minus, number(1))]),
                ))),
            ],
        },
        AST::StandaloneExpr(call(var("sum"), vec![number(100)])),
    ]);
    assert_eq!(result, 5050);
}

#[test]
fn a_function_that_ends_without_return_answers_none() {
    // def f(c):
    //     if c: return 1
    // f(0)
    let mut vm = machine();
    let top = evaluate(
        &mut vm,
        vec![
            AST::DeclareFunction {
                function_name: "f".to_string(),
                parameters: vec![FunctionParameter::Simple("c".to_string())],
                body: vec![AST::IfStatement {
                    true_branch: ASTIfStatement {
                        expression: var("c"),
                        statements: vec![AST::Return(Some(number(1)))],
                    },
                    elifs: vec![],
                    final_else: None,
                }],
            },
            AST::StandaloneExpr(call(var("f"), vec![number(0)])),
        ],
    );
    assert_eq!(top, vm.builtin_type_addrs.none_val);
}

#[test]
fn bytecode_of_a_function_is_listed() {
    // def f(a): return a
    // f.__bytecode__()
    // The type of functions has no methods of its own; the listing is asked of the machine.
    let mut vm = machine();
    let top = evaluate(
        &mut vm,
        vec![
            AST::DeclareFunction {
                function_name: "f".to_string(),
                parameters: vec![FunctionParameter::Simple("a".to_string())],
                body: vec![AST::Return(Some(member(var("a"), "b")))],
            },
            AST::StandaloneExpr(var("f")),
        ],
    );
    assert_eq!(
        vm.get_function_bytecode(top),
        Some("LoadName(0)\nLoadAttr(\"b\")\nReturnValue\n".to_string())
    );
    assert_eq!(vm.get_function_bytecode(vm.builtin_type_addrs.none_val), None);
    let code = match &vm.get_pyobj_byaddr(top).structure {
        PyObjectStructure::Function { code, .. } => *code,
        other => panic!("expected a function, got {:?}", other),
    };
    let listed = call_method(&mut vm, &NoHost, code, "__bytecode__", vec![]).unwrap();
    assert_eq!(
        vm.get_raw_data_of_pyobj(listed).take_string(),
        "LoadName(0)\nLoadAttr(\"b\")\nReturnValue\n"
    );
}

#[test]
fn programs_that_cannot_be_loaded_are_refused() {
    let mut vm = machine();
    let empty = Program { version: 1, code_objects: vec![] };
    assert_eq!(
        execute_program(&mut vm, &NoHost, empty),
        ExecutionOutcome::Fault(Fault::InvalidProgram)
    );
    let unit = |instructions| CodeObject {
        instructions,
        names: vec![],
        params: vec![],
        consts: vec![],
        main: true,
        objname: "__main__".to_string(),
    };
    for bad in [
        vec![Instruction::LoadConst(0)],
        vec![Instruction::JumpUnconditional(2)],
        vec![Instruction::LoadName(0)],
        vec![Instruction::UnresolvedLoadName("x".to_string())],
    ] {
        let program = Program { version: 1, code_objects: vec![unit(bad)] };
        assert_eq!(
            execute_program(&mut vm, &NoHost, program),
            ExecutionOutcome::Fault(Fault::InvalidProgram)
        );
    }
    let underflow = Program { version: 1, code_objects: vec![unit(vec![Instruction::PopTop])] };
    assert_eq!(
        execute_program(&mut vm, &NoHost, underflow),
        ExecutionOutcome::Fault(Fault::StackUnderflow)
    );
    let stray = Program {
        version: 1,
        code_objects: vec![unit(vec![Instruction::UnresolvedBreak])],
    };
    assert_eq!(
        execute_program(&mut vm, &NoHost, stray),
        ExecutionOutcome::Fault(Fault::UnresolvedInstruction)
    );
    assert!(vm.frames.is_empty());
}

#[test]
fn objects_keep_their_addresses() {
    let mut vm = machine();
    let before = vm.heap.len();
    let list = evaluate(&mut vm, vec![AST::StandaloneExpr(Expr::Array(vec![number(1)]))]);
    assert!(list >= before);
    let again = evaluate(&mut vm, vec![AST::StandaloneExpr(Expr::Array(vec![number(2)]))]);
    assert_ne!(list, again);
    match vm.get_raw_data_of_pyobj(list) {
        BuiltInTypeData::List(items) => {
            assert_eq!(vm.get_raw_data_of_pyobj(items[0]).take_int(), 1)
        }
        other => panic!("expected a list, got {:?}", other),
    }
    assert_eq!(vm.try_get_pyobj(vm.heap.len()).is_none(), true);
    assert!(vm.try_get_raw_data(vm.builtin_type_addrs.none_val).is_none());
}

#[test]
fn the_host_without_functions_raises() {
    let mut vm = machine();
    vm.register_function(BUILTIN_MODULE, "outside", NativeFunction::External(1));
    assert_eq!(
        failure_in(&mut vm, vec![AST::StandaloneExpr(call(var("outside"), vec![]))]),
        "TypeError: the host provides no functions"
    );
}

fn failure_in(vm: &mut VM, program: Vec<AST>) -> String {
    match execute_program(vm, &NoHost, compile(program)) {
        ExecutionOutcome::Raised(exception) => vm.exception_message(exception),
        other => panic!("expected an exception, got {:?}", other),
    }
}

fn left_by(program: Program) -> usize {
    let mut vm = machine();
    assert_eq!(execute_program(&mut vm, &NoHost, program), ExecutionOutcome::Finished);
    vm.stack.len()
}

fn counting_loop() -> Vec<AST> {
    // f takes a default; x counts to 3 in a loop that a break leaves;
    // the items of a list are added up; a class is declared.
    vec![
        AST::DeclareFunction {
            function_name: "f".to_string(),
            parameters: vec![
                FunctionParameter::Simple("a".to_string()),
                FunctionParameter::DefaultValue("b".to_string(), number(10)),
            ],
            body: vec![AST::Return(Some(binary(var("a"), Operator::Plus, var("b"))))],
        },
        assign("x", number(0)),
        AST::WhileStatement {
            expression: Expr::BooleanValue(true),
            body: vec![
                assign("x", binary(var("x"), Operator::Plus, number(1))),
                AST::IfStatement {
                    true_branch: ASTIfStatement {
                        expression: binary(var("x"), Operator::Equals, number(3)),
                        statements: vec![AST::Break],
                    },
                    elifs: vec![],
                    final_else: Some(vec![AST::StandaloneExpr(call(var("f"), vec![var("x")]))]),
                },
            ],
        },
        assign("sum", number(0)),
        AST::ForStatement {
            item_name: "i".to_string(),
            list_expression: Expr::Array(vec![number(1), number(2), number(3)]),
            body: vec![assign("sum", binary(var("sum"), Operator::Plus, var("i")))],
        },
        AST::ClassDeclaration {
            class_name: "C".to_string(),
            body: vec![assign("kind", number(7))],
        },
    ]
}

#[test]
fn a_script_leaves_no_value_on_the_stack() {
    assert_eq!(left_by(compile(vec![])), 0);
    assert_eq!(left_by(compile(vec![AST::StandaloneExpr(number(1))])), 0);
    assert_eq!(left_by(compile(counting_loop())), 0);
    assert_eq!(left_by(compile(vec![assign("x", number(1)), AST::Return(Some(var("x")))])), 0);
    let mut vm = machine();
    assert_eq!(
        execute_program(&mut vm, &NoHost, compile(counting_loop())),
        ExecutionOutcome::Finished
    );
    let x = vm.globals.get("x").unwrap();
    assert_eq!(vm.get_raw_data_of_pyobj(x).take_int(), 3);
    let sum = vm.globals.get("sum").unwrap();
    assert_eq!(vm.get_raw_data_of_pyobj(sum).take_int(), 6);
}

#[test]
fn interactive_use_keeps_the_value_of_a_trailing_expression_only() {
    assert_eq!(left_by(compile_repl(vec![AST::StandaloneExpr(number(1))])), 1);
    let mut shown = counting_loop();
    shown.push(AST::StandaloneExpr(binary(var("x"), Operator::Plus, var("sum"))));
    let mut vm = machine();
    assert_eq!(execute_program(&mut vm, &NoHost, compile_repl(shown)), ExecutionOutcome::Finished);
    assert_eq!(vm.stack.len(), 1);
    assert_eq!(vm.get_raw_data_of_pyobj(vm.stack[0]).take_int(), 9);
    assert_eq!(left_by(compile_repl(counting_loop())), 0);
    assert_eq!(left_by(compile_repl(vec![])), 0);
    assert_eq!(left_by(compile_repl(vec![assign("x", number(1))])), 0);
}

#[test]
fn what_a_definition_without_defaults_and_a_break_in_a_for_loop_leave() {
    // The list of the default values is taken off the stack only where
    // there is a default value.
    let plain = AST::DeclareFunction {
        function_name: "f".to_string(),
        parameters: vec![],
        body: vec![AST::Return(Some(number(1)))],
    };
    let mut vm = machine();
    assert_eq!(
        execute_program(&mut vm, &NoHost, compile(vec![plain])),
        ExecutionOutcome::Finished
    );
    assert_eq!(vm.stack.len(), 1);
    assert_eq!(vm.get_raw_data_of_pyobj(vm.stack[0]).take_list().len(), 0);
    // A loop over a list that is left by a break leaves its iterator.
    let left = AST::ForStatement {
        item_name: "i".to_string(),
        list_expression: Expr::Array(vec![number(1), number(2)]),
        body: vec![AST::Break],
    };
    assert_eq!(left_by(compile(vec![left])), 1);
}

#[test]
fn remainders_of_integers() {
    let remainder = |a: i128, b: i128| {
        evaluate_int(vec![AST::StandaloneExpr(binary(number(a), Operator::Mod, number(b)))])
    };
    assert_eq!(remainder(7, 3), 1);
    assert_eq!(remainder(-7, 3), 2);
    assert_eq!(remainder(7, -3), 1);
    assert_eq!(remainder(-7, -3), 2);
    assert_eq!(remainder(6, 3), 0);
    assert_eq!(remainder(i128::MIN, -1), 0);
    assert_eq!(remainder(i128::MAX, i128::MIN), i128::MAX);
    assert_eq!(
        failure(vec![AST::StandaloneExpr(binary(number(7), Operator::Mod, number(0)))]),
        "ZeroDivisionError: integer modulo by zero"
    );
}

#[test]
fn what_the_errors_of_lists_say() {
    let list = || Expr::Array(vec![number(1), number(2)]);
    let item = |index: Expr| {
        vec![AST::StandaloneExpr(Expr::IndexAccess(Box::new(list()), Box::new(index)))]
    };
    assert_eq!(failure(item(number(2))), "IndexError: list index out of range");
    assert_eq!(failure(item(number(-1))), "IndexError: list index out of range");
    assert_eq!(failure(item(text("a"))), "TypeError: list indices must be integers");
    assert_eq!(
        failure(vec![AST::StandaloneExpr(binary(list(), Operator::Plus, number(1)))]),
        "TypeError: can only concatenate list to list"
    );
    assert_eq!(
        failure(vec![AST::StandaloneExpr(binary(text("a"), Operator::Plus, number(1)))]),
        "TypeError: can only concatenate str to str"
    );
    assert_eq!(
        failure(vec![AST::StandaloneExpr(var("nothing"))]),
        "NameError: name 'nothing' is not defined"
    );
}

#[test]
fn interactive_use_trims_only_behind_a_trailing_expression() {
    let choice = || {
        vec![AST::IfStatement {
            true_branch: ASTIfStatement {
                expression: Expr::BooleanValue(true),
                statements: vec![AST::StandaloneExpr(number(1))],
            },
            elifs: vec![],
            final_else: None,
        }]
    };
    assert_eq!(compile_repl(choice()), compile(choice()));
    assert_eq!(left_by(compile_repl(choice())), 0);
    let returned = || vec![AST::StandaloneExpr(number(1)), AST::Return(Some(number(2)))];
    assert_eq!(compile_repl(returned()), compile(returned()));
    assert_eq!(left_by(compile_repl(returned())), 0);
    let shown = || vec![assign("x", number(1)), AST::StandaloneExpr(var("x"))];
    assert_eq!(
        compile_repl(shown()).code_objects[0].instructions.len() + 1,
        compile(shown()).code_objects[0].instructions.len()
    );
}

#[test]
fn lists_of_scalars_are_equal_whichever_is_asked() {
    let items = |values: Vec<Expr>| Expr::Array(values);
    let equal = |a: Expr, b: Expr| {
        let mut vm = machine();
        let top = evaluate(
            &mut vm,
            vec![AST::StandaloneExpr(binary(a, Operator::Equals, b))],
        );
        top == vm.builtin_type_addrs.true_val
    };
    let one = || items(vec![number(1), text("a"), Expr::BooleanValue(true)]);
    let same = || items(vec![number(1), text("a"), Expr::BooleanValue(true)]);
    let other = || items(vec![number(1), text("b"), Expr::BooleanValue(true)]);
    let longer = || items(vec![number(1), text("a"), Expr::BooleanValue(true), number(0)]);
    let mixed = || items(vec![Expr::BooleanValue(true), text("a"), number(1)]);
    assert!(equal(one(), same()) && equal(same(), one()));
    assert!(!equal(one(), other()) && !equal(other(), one()));
    assert!(!equal(one(), longer()) && !equal(longer(), one()));
    assert!(equal(one(), mixed()) && equal(mixed(), one()));
    assert!(equal(items(vec![]), items(vec![])));
}
