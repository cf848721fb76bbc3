use horse::ast::Expr;
use horse::ast::FunctionParameter;
use horse::ast::AST;
use horse::builtin_types::int_type::int_binary;
use horse::builtin_types::register_builtins;
use horse::bytecode::compiler::compile_repl;
use horse::lexer::tokenize;
use horse::lexer::Float;
use horse::lexer::Operator;
use horse::parser::parse_ast;
use horse::runtime::datamodel::BuiltInTypeData;
use horse::runtime::datamodel::CallParams;
use horse::runtime::datamodel::IntOperation;
use horse::runtime::datamodel::NativeFunction;
use horse::runtime::datamodel::PyObjectStructure;
use horse::runtime::interpreter::execute_program;
use horse::runtime::interpreter::ExecutionOutcome;
use horse::runtime::names::MemoryAddress;
use horse::runtime::natives::NativeHost;
use horse::runtime::vm::BUILTIN_MODULE;
use horse::runtime::vm::VM;

const ADD: u64 = 1;
const SUBTRACT: u64 = 2;
const MULTIPLY: u64 = 3;
const DIVIDE: u64 = 4;
const NEGATE: u64 = 5;
const SIN: u64 = 6;
const COS: u64 = 7;
const TANH: u64 = 8;
const LOWER: u64 = 9;

/// The numbers with a fraction, which the library leaves to its host.
struct Numbers;

fn as_number(vm: &VM, addr: MemoryAddress) -> Option<f64> {
    match vm.try_get_raw_data(addr) {
        Some(BuiltInTypeData::Float(f)) => Some(f64::from_bits(f.0)),
        Some(BuiltInTypeData::Int(i)) => Some(*i as f64),
        _ => None,
    }
}

fn is_int(vm: &VM, addr: MemoryAddress) -> bool {
    matches!(vm.try_get_raw_data(addr), Some(BuiltInTypeData::Int(_)))
}

fn new_number(vm: &mut VM, value: f64) -> MemoryAddress {
    let kind = vm.builtin_type_addrs.float;
    vm.allocate_type_byaddr_raw(kind, BuiltInTypeData::Float(Float(value.to_bits())))
}

impl NativeHost for Numbers {
    fn call_external(&self, id: u64, vm: &mut VM, params: CallParams) -> MemoryAddress {
        let mut operands: Vec<MemoryAddress> = Vec::new();
        if let Some(receiver) = params.bound_pyobj {
            operands.push(receiver);
        }
        operands.extend(params.params.iter().copied());
        if id == LOWER {
            return match vm.try_get_raw_data(operands[0]) {
                Some(BuiltInTypeData::String(text)) => {
                    let lowered = text.to_lowercase();
                    vm.new_string(lowered)
                }
                _ => vm.type_error("lower takes a string"),
            };
        }
        let values: Option<Vec<f64>> = operands.iter().map(|a| as_number(vm, *a)).collect();
        let values = match values {
            Some(values) => values,
            None => return vm.type_error("a number is needed"),
        };
        if values.len() == 2 && operands.iter().all(|a| is_int(vm, *a)) {
            let operation = match id {
                ADD => Some(IntOperation::Add),
                SUBTRACT => Some(IntOperation::Subtract),
                MULTIPLY => Some(IntOperation::Multiply),
                _ => None,
            };
            if let Some(operation) = operation {
                return int_binary(vm, params, operation);
            }
        }
        let result = match (id, values.as_slice()) {
            (ADD, [a, b]) => a + b,
            (SUBTRACT, [a, b]) => a - b,
            (MULTIPLY, [a, b]) => a * b,
            (DIVIDE, [a, b]) => a / b,
            (NEGATE, [a]) => -a,
            (SIN, [a]) => a.sin(),
            (COS, [a]) => a.cos(),
            (TANH, [a]) => a.tanh(),
            _ => return vm.type_error("wrong arguments"),
        };
        new_number(vm, result)
    }
}

fn machine() -> VM {
    let mut vm = VM::new();
    register_builtins(&mut vm);
    for kind in ["int", "float"] {
        for (name, id) in [
            ("__add__", ADD),
            ("__sub__", SUBTRACT),
            ("__mul__", MULTIPLY),
            ("__truediv__", DIVIDE),
        ] {
            assert!(vm.register_bounded_func(
                BUILTIN_MODULE,
                kind,
                name,
                NativeFunction::External(id)
            ));
        }
    }
    assert!(vm.register_bounded_func(
        BUILTIN_MODULE,
        "float",
        "__neg__",
        NativeFunction::External(NEGATE)
    ));
    assert!(vm.register_bounded_func(
        BUILTIN_MODULE,
        "str",
        "lower",
        NativeFunction::External(LOWER)
    ));
    vm.register_function(BUILTIN_MODULE, "sin", NativeFunction::External(SIN));
    vm.register_function(BUILTIN_MODULE, "cos", NativeFunction::External(COS));
    vm.register_function(BUILTIN_MODULE, "tanh", NativeFunction::External(TANH));
    vm
}

fn run(vm: &mut VM, source: Vec<AST>) {
    let program = compile_repl(source);
    assert_eq!(execute_program(vm, &Numbers, program), ExecutionOutcome::Finished);
}

fn read_float(written: String) -> Option<Float> {
    written.parse::<f64>().ok().map(|value| Float(value.to_bits()))
}

fn run_text(vm: &mut VM, source: &str) {
    let tokens = tokenize(source, read_float).unwrap();
    let expr = parse_ast(&tokens).unwrap();
    run(vm, expr);
}

fn expression(e: Expr) -> Vec<AST> {
    vec![AST::StandaloneExpr(e)]
}

fn number(i: i128) -> Expr {
    Expr::IntegerValue(i)
}

fn fraction(value: f64) -> Expr {
    Expr::FloatValue(Float(value.to_bits()))
}

fn binary(lhs: Expr, op: Operator, rhs: Expr) -> Expr {
    Expr::BinaryOperation(Box::new(lhs), op, Box::new(rhs))
}

fn negative(e: Expr) -> Expr {
    Expr::UnaryExpression(Operator::Minus, Box::new(e))
}

fn call(name: &str, argument: Expr) -> Expr {
    Expr::FunctionCall(Box::new(Expr::Variable(name.to_string())), vec![argument])
}

fn five_ninths() -> Expr {
    binary(fraction(5.0), Operator::Divide, fraction(9.0))
}

fn take_float(vm: &VM, addr: MemoryAddress) -> f64 {
    f64::from_bits(vm.get_raw_data_of_pyobj(addr).take_float().0)
}

#[test]
fn test_literal_int_1() {
    let mut vm = machine();
    run_text(&mut vm, "1");
    let stack_pop = vm.get_stack_offset(-1);
    let stack_value = vm.get_raw_data_of_pyobj(stack_pop).take_int();
    assert_eq!(stack_value, 1);
}

#[test]
fn test_literal_float_1() {
    let mut vm = machine();
    run_text(&mut vm, "1.0");
    let stack_pop = vm.get_stack_offset(-1);
    let stack_value = take_float(&vm, stack_pop);
    assert_eq!(stack_value, 1.0);
}

#[test]
fn test_literal_boolean_true() {
    let mut vm = machine();
    run_text(&mut vm, "True");
    let stack_pop = vm.get_stack_offset(-1);
    let stack_value = vm.get_raw_data_of_pyobj(stack_pop).take_int();
    assert_eq!(stack_value, 1);
}

#[test]
fn test_literal_boolean_false() {
    let mut vm = machine();
    run_text(&mut vm, "False");
    let stack_pop = vm.get_stack_offset(-1);
    let stack_value = vm.get_raw_data_of_pyobj(stack_pop).take_int();
    assert_eq!(stack_value, 0);
}

#[test]
fn test_1_plus_1() {
    let mut vm = machine();
    run_text(&mut vm, "1 + 1");
    let stack_pop = vm.get_stack_offset(-1);
    let stack_value = vm.get_raw_data_of_pyobj(stack_pop).take_int();
    assert_eq!(stack_value, 2);
}

#[test]
fn test_1_plus_float_3_5() {
    let mut vm = machine();
    run_text(&mut vm, "1 + 3.5");
    let stack_pop = vm.get_stack_offset(-1);
    let stack_value = take_float(&vm, stack_pop);
    assert_eq!(stack_value, 4.5);
}

#[test]
fn test_neg() {
    //-(5.0 / 9.0)
    let expected_result = -(5.0_f64 / 9.0_f64);
    let mut vm = machine();
    run_text(&mut vm, "-(5.0 / 9.0)");
    let stack_pop = vm.get_stack_offset(-1);
    let stack_value = take_float(&vm, stack_pop);
    assert_eq!(stack_value, expected_result);
}

#[test]
fn test_div_neg_mul() {
    //-(5.0 / 9.0) * 32)
    let expected_result = -(5.0_f64 / 9.0_f64) * 32.0_f64;
    let mut vm = machine();
    run_text(&mut vm, "-(5.0 / 9.0) * 32.0");
    let stack_pop = vm.get_stack_offset(-1);
    let stack_value = take_float(&vm, stack_pop);
    assert_eq!(stack_value, expected_result);
}

#[test]
fn test_div_minus_div() {
    //(1 - (5.0 / 9.0))
    let expected_result = 1.0_f64 - (5.0_f64 / 9.0_f64);
    let mut vm = machine();
    run_text(&mut vm, "1.0 - (5.0 / 9.0)");
    let stack_pop = vm.get_stack_offset(-1);
    let stack_value = take_float(&vm, stack_pop);
    assert_eq!(stack_value, expected_result);
}

#[test]
fn test_fahrenheit() {
    let expected_result = (-(5.0_f64 / 9.0_f64) * 32.0_f64) / (1.0_f64 - (5.0_f64 / 9.0_f64));
    let mut vm = machine();
    run_text(&mut vm, "(-(5.0 / 9.0) * 32.0) / (1.0 - (5.0 / 9.0))");
    let stack_pop = vm.get_stack_offset(-1);
    let stack_value = take_float(&vm, stack_pop);
    assert_eq!(stack_value, expected_result);
}

#[test]
fn test_function_calls_with_complex_expr() {
    let expected_result = (-(5.0_f64 / 9.0_f64) * 32.0_f64).sin().cos()
        / (1.0_f64.cos() - (5.0_f64 / 9.0_f64)).tanh();
    let mut vm = machine();
    run_text(
        &mut vm,
        "cos(sin(-(5.0 / 9.0) * 32.0)) / tanh(cos(1.0) - (5.0 / 9.0))",
    );
    let stack_pop = vm.get_stack_offset(-1);
    let stack_value = take_float(&vm, stack_pop);
    assert_eq!(stack_value, expected_result);
}

#[test]
fn test_fcall() {
    let expected_result = 1.0_f64.sin();
    let mut vm = machine();
    run_text(&mut vm, "sin(1.0)");
    let stack_pop = vm.get_stack_offset(-1);
    let stack_value = take_float(&vm, stack_pop);
    assert_eq!(stack_value, expected_result);
}

#[test]
fn test_bind_local() {
    let mut vm = machine();
    run_text(&mut vm, "x = 1 + 2");
    let x = vm.get_local(0).unwrap();
    let stack_value = vm.get_raw_data_of_pyobj(x).take_int();
    assert_eq!(stack_value, 3);
}

#[test]
fn test_string_concat() {
    let mut vm = machine();
    run_text(&mut vm, "\"abc\" + 'cde'");
    let stack_top = vm.get_stack_offset(-1);
    let stack_value = vm.get_raw_data_of_pyobj(stack_top).take_string();
    assert_eq!(stack_value, "abccde");
}

#[test]
fn boolean_and() {
    let mut vm = machine();
    run_text(&mut vm, "True and False");
    let stack_top = vm.get_stack_offset(-1);
    let stack_value = vm.get_raw_data_of_pyobj(stack_top).take_int();
    assert_eq!(stack_value, 0);
}

#[test]
fn load_method_with_loadattr_instruction() -> Result<(), String> {
    let mut vm = machine();
    // "abc".lower
    run(
        &mut vm,
        expression(Expr::MemberAccess(
            Box::new(Expr::StringValue("abc".to_string())),
            "lower".to_string(),
        )),
    );
    let stack_top = vm.get_stack_offset(-1);
    let stack_value = vm.get_pyobj_byaddr(stack_top);
    match &stack_value.structure {
        PyObjectStructure::BoundMethod { .. } => Ok(()),
        _ => Err("Did not load attribute, which should be a bound method".into()),
    }
}

#[test]
fn load_module_property_with_loadattr_instruction() -> Result<(), String> {
    let mut vm = machine();
    // __builtins__.float
    run(
        &mut vm,
        expression(Expr::MemberAccess(
            Box::new(Expr::Variable("__builtins__".to_string())),
            "float".to_string(),
        )),
    );
    let stack_top = vm.get_stack_offset(-1);
    let stack_value = vm.get_pyobj_byaddr(stack_top);
    match &stack_value.structure {
        PyObjectStructure::Type { name, functions: _, supertype: _ } => {
            if name == "float" {
                Ok(())
            } else {
                Err("Loaded an attribute with name != float from module __builtins__".into())
            }
        }
        _ => Err("Did not load attribute, which should be a native type called float (from module __builtins__)".into()),
    }
}

#[test]
fn runs_classdef() -> Result<(), String> {
    let mut vm = machine();
    // class SomeClass:
    //     def __init__(self):
    //         self.x = 1
    run(
        &mut vm,
        vec![AST::ClassDeclaration {
            class_name: "SomeClass".to_string(),
            body: vec![AST::DeclareFunction {
                function_name: "__init__".to_string(),
                parameters: vec![FunctionParameter::Simple("self".to_string())],
                body: vec![AST::Assign {
                    path: vec!["self".to_string(), "x".to_string()],
                    expression: number(1),
                }],
            }],
        }],
    );
    Ok(())
}

#[test]
fn calls_bound_method_of_the_host() {
    let mut vm = machine();
    // "ABC".lower()
    run(
        &mut vm,
        expression(Expr::FunctionCall(
            Box::new(Expr::MemberAccess(
                Box::new(Expr::StringValue("ABC".to_string())),
                "lower".to_string(),
            )),
            vec![],
        )),
    );
    let stack_top = vm.get_stack_offset(-1);
    assert_eq!(vm.get_raw_data_of_pyobj(stack_top).take_string(), "abc");
}

fn written(vm: &mut VM, value: Expr) -> String {
    let repr = Expr::FunctionCall(
        Box::new(Expr::MemberAccess(Box::new(value), "__repr__".to_string())),
        vec![],
    );
    run(vm, expression(repr));
    let top = vm.get_stack_offset(-1);
    vm.get_raw_data_of_pyobj(top).take_string().clone()
}

#[test]
fn what_repr_writes_reads_back_as_the_value() {
    for value in [0, 7, 42, i128::MAX, -7, -1234567890, i128::MIN + 1] {
        let mut vm = machine();
        let text = written(&mut vm, number(value));
        run_text(&mut vm, &text);
        let top = vm.get_stack_offset(-1);
        assert_eq!(vm.get_raw_data_of_pyobj(top).take_int(), value);
    }
    for value in ["", "plain", "it's", "a\\b", "two\nlines", "tab\there", "say \"hi\""] {
        let mut vm = machine();
        let text = written(&mut vm, Expr::StringValue(value.to_string()));
        run_text(&mut vm, &text);
        let top = vm.get_stack_offset(-1);
        assert_eq!(vm.get_raw_data_of_pyobj(top).take_string(), value);
    }
    let mut vm = machine();
    let text = written(&mut vm, Expr::BooleanValue(true));
    run_text(&mut vm, &text);
    assert_eq!(vm.get_stack_offset(-1), vm.builtin_type_addrs.true_val);
    let text = written(&mut vm, Expr::BooleanValue(false));
    run_text(&mut vm, &text);
    assert_eq!(vm.get_stack_offset(-1), vm.builtin_type_addrs.false_val);
    let text = written(&mut vm, Expr::NoneValue);
    run_text(&mut vm, &text);
    assert_eq!(vm.get_stack_offset(-1), vm.builtin_type_addrs.none_val);
}
