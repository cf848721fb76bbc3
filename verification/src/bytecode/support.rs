//! Tests for what the compiler accepts.

use vstd::prelude::*;
use crate::ast::ASTIfStatement;
use crate::ast::Expr;
use crate::ast::FunctionParameter;
use crate::ast::AST;
use crate::bytecode::closed::instruction_closed;
use crate::bytecode::closed::names_resolved;
use crate::bytecode::closed::unit_closed;
use crate::bytecode::closed::unit_loadable;
use crate::bytecode::closed::unit_runnable;
use crate::bytecode::program::ConstView;
use crate::bytecode::lowering::loaded_name;
use crate::bytecode::lowering::stored_name;
use crate::bytecode::program::CodeObject;
use crate::bytecode::program::Const;
use crate::bytecode::program::Instruction;
use crate::bytecode::lowering::binary_method;
use crate::bytecode::lowering::binary_opcode;
use crate::bytecode::lowering::block_supported;
use crate::bytecode::lowering::branch_count;
use crate::bytecode::lowering::defaults_supported;
use crate::bytecode::lowering::expr_supported;
use crate::bytecode::lowering::stmt_supported;
use crate::bytecode::lowering::unary_method;
use crate::lexer::Operator;

verus! {

/// Whether `op` can stand between two operands.
pub fn is_binary_operator(op: Operator) -> (r: bool)
    ensures
        r == (binary_opcode(op) is Some || binary_method(op) is Some),
{
    match op {
        Operator::Plus
        | Operator::Mod
        | Operator::Minus
        | Operator::Multiply
        | Operator::Divide
        | Operator::Less
        | Operator::Greater
        | Operator::Equals
        | Operator::GreaterEquals
        | Operator::LessEquals
        | Operator::NotEquals
        | Operator::And
        | Operator::Or
        | Operator::Xor => true,
        _ => false,
    }
}

/// Whether `op` can stand in front of an operand.
pub fn is_unary_operator(op: Operator) -> (r: bool)
    ensures
        r == (unary_method(op) is Some),
{
    match op {
        Operator::Plus | Operator::Not | Operator::Minus => true,
        _ => false,
    }
}

/// Whether the compiler accepts the expression.
pub fn expr_is_supported(e: &Expr) -> (r: bool)
    ensures
        r == expr_supported(*e),
    decreases *e, 0nat,
{
    match e {
        Expr::IntegerValue(_) => true,
        Expr::FloatValue(_) => true,
        Expr::BooleanValue(_) => true,
        Expr::StringValue(_) => true,
        Expr::NoneValue => true,
        Expr::Variable(_) => true,
        Expr::MemberAccess(object, _) => expr_is_supported(object),
        Expr::IndexAccess(object, index) => expr_is_supported(object) && expr_is_supported(index),
        Expr::Array(items) => exprs_are_supported(items),
        Expr::FunctionCall(callee, arguments) => expr_is_supported(callee) && exprs_are_supported(
            arguments,
        ),
        Expr::BinaryOperation(lhs, op, rhs) => is_binary_operator(*op) && expr_is_supported(lhs)
            && expr_is_supported(rhs),
        Expr::UnaryExpression(op, operand) => is_unary_operator(*op) && expr_is_supported(operand),
        Expr::Parenthesized(_) => false,
    }
}

/// Whether the compiler accepts each of the expressions.
pub fn exprs_are_supported(es: &Vec<Expr>) -> (r: bool)
    ensures
        r == forall|i: int| 0 <= i < es.len() ==> expr_supported(#[trigger] es[i]),
    decreases *es, es.len(),
{
    let mut i: usize = 0;
    while i < es.len()
        invariant
            i <= es.len(),
            forall|j: int| 0 <= j < i ==> expr_supported(#[trigger] es[j]),
        decreases es.len() - i,
    {
        if !expr_is_supported(&es[i]) {
            return false;
        }
        i += 1;
    }
    true
}

/// Whether the compiler accepts the default value of each parameter.
pub fn defaults_are_supported(parameters: &Vec<FunctionParameter>) -> (r: bool)
    ensures
        r == defaults_supported(parameters@),
{
    let mut i: usize = 0;
    while i < parameters.len()
        invariant
            i <= parameters.len(),
            forall|k: int|
                0 <= k < i ==> match #[trigger] parameters@[k] {
                    FunctionParameter::Simple(_) => true,
                    FunctionParameter::DefaultValue(_, value) => expr_supported(value),
                },
        decreases parameters.len() - i,
    {
        match &parameters[i] {
            FunctionParameter::Simple(_) => {},
            FunctionParameter::DefaultValue(_, value) => {
                if !expr_is_supported(value) {
                    return false;
                }
            },
        }
        i += 1;
    }
    true
}

/// Whether the compiler accepts a condition and the statements it guards.
fn branch_is_supported(b: &ASTIfStatement) -> (r: bool)
    ensures
        r == (expr_supported(b.expression) && block_supported(
            b.statements@,
            b.statements.len() as nat,
        )),
    decreases *b, 0nat,
{
    expr_is_supported(&b.expression) && block_is_supported(&b.statements)
}

/// Whether the compiler accepts the `elif`s of an `if` statement from the
/// `j`-th on.
fn elifs_are_supported_from(s: &AST, j: usize) -> (r: bool)
    requires
        *s is IfStatement,
        j < branch_count(*s),
    ensures
        r == forall|k: int|
            j <= k < branch_count(*s) - 1 ==> expr_supported(
                (#[trigger] s->elifs[k]).expression,
            ) && block_supported(s->elifs[k].statements@, s->elifs[k].statements.len() as nat),
    decreases *s, branch_count(*s) - j,
{
    match s {
        AST::IfStatement { elifs, .. } => {
            if j < elifs.len() {
                branch_is_supported(&elifs[j]) && elifs_are_supported_from(s, j + 1)
            } else {
                true
            }
        },
        _ => true,
    }
}

/// Whether the compiler accepts the statement.
pub fn statement_is_supported(s: &AST) -> (r: bool)
    ensures
        r == stmt_supported(*s),
    decreases *s, branch_count(*s) + 1,
{
    match s {
        AST::Assign { path, expression } => path.len() >= 1 && expr_is_supported(expression),
        AST::StandaloneExpr(e) => expr_is_supported(e),
        AST::Return(Some(e)) => expr_is_supported(e),
        AST::Return(None) => true,
        AST::IfStatement { true_branch, elifs, final_else } => {
            branch_is_supported(true_branch) && elifs_are_supported_from(s, 0) && match final_else {
                Some(stmts) => block_is_supported(stmts),
                None => true,
            }
        },
        AST::WhileStatement { expression, body } => expr_is_supported(expression)
            && block_is_supported(body),
        AST::ForStatement { item_name, list_expression, body } => expr_is_supported(
            list_expression,
        ) && block_is_supported(body),
        AST::DeclareFunction { function_name, parameters, body } => defaults_are_supported(
            parameters,
        ) && block_is_supported(body),
        AST::ClassDeclaration { class_name, body } => block_is_supported(body),
        AST::Raise(e) => expr_is_supported(e),
        AST::Break => true,
    }
}

/// Whether the compiler accepts the statements: every assignment has a
/// target, no parenthesized expression is left, and every operator stands
/// where the instruction set has a lowering for it.
pub fn block_is_supported(stmts: &Vec<AST>) -> (r: bool)
    ensures
        r == block_supported(stmts@, stmts.len() as nat),
    decreases *stmts, 1nat,
{
    let mut i: usize = 0;
    while i < stmts.len()
        invariant
            i <= stmts.len(),
            block_supported(stmts@, i as nat),
        decreases stmts.len() - i,
    {
        if !statement_is_supported(&stmts[i]) {
            proof {
                lemma_unsupported(stmts@, stmts.len() as nat, i as int);
            }
            return false;
        }
        i += 1;
    }
    true
}

/// A block with a statement that cannot be lowered cannot be lowered.
proof fn lemma_unsupported(stmts: Seq<AST>, n: nat, k: int)
    requires
        0 <= k < n <= stmts.len(),
        !stmt_supported(stmts[k]),
    ensures
        !block_supported(stmts, n),
    decreases n,
{
    if k < n - 1 {
        lemma_unsupported(stmts, (n - 1) as nat, k);
    }
}

/// Whether the instruction stays inside a unit with `len` instructions,
/// `consts` constants and `names` names, and names nothing that it loads or
/// stores.
pub fn instruction_is_closed(i: &Instruction, len: usize, consts: usize, names: usize) -> (r: bool)
    ensures
        r == (instruction_closed(i.deep_view(), 0, len as int, consts as int, names as int)
            && stored_name(i.deep_view()) is None && loaded_name(i.deep_view()) is None),
{
    match i {
        Instruction::LoadConst(c) => *c < consts,
        Instruction::LoadName(s) => *s < names,
        Instruction::LoadGlobal(s) => *s < names,
        Instruction::StoreName(s) => *s < names,
        Instruction::StoreAttr(s) => *s < names,
        Instruction::JumpUnconditional(t) => *t <= len,
        Instruction::JumpIfFalseAndPopStack(t) => *t <= len,
        Instruction::ForIter(t) => *t <= len,
        Instruction::UnresolvedLoadName(_) => false,
        Instruction::UnresolvedStoreName(_) => false,
        Instruction::UnresolvedStoreAttr(_) => false,
        _ => true,
    }
}

/// A unit that can be run: its jumps, constant indices and name slots stay
/// inside it, no instruction names what it loads or stores, and each
/// parameter has a slot.
pub open spec fn code_runnable(code: CodeObject) -> bool {
    &&& unit_closed(code.deep_view())
    &&& names_resolved(code.deep_view().instructions)
    &&& code.params.len() <= code.names.len()
}

/// Whether the unit can be run.
pub fn code_is_runnable(code: &CodeObject) -> (r: bool)
    ensures
        r == code_runnable(*code),
{
    if code.params.len() > code.names.len() {
        return false;
    }
    let ghost unit = code.deep_view();
    let len = code.instructions.len();
    let consts = code.consts.len();
    let names = code.names.len();
    assert(unit.instructions.len() == len && unit.consts.len() == consts && unit.names.len()
        == names);
    let mut k: usize = 0;
    while k < len
        invariant
            k <= len == code.instructions.len(),
            unit == code.deep_view(),
            unit.instructions.len() == len && unit.consts.len() == consts && unit.names.len()
                == names,
            forall|j: int|
                0 <= j < k ==> instruction_closed(
                    #[trigger] unit.instructions[j],
                    0,
                    len as int,
                    consts as int,
                    names as int,
                ) && stored_name(unit.instructions[j]) is None && loaded_name(unit.instructions[j])
                    is None,
        decreases len - k,
    {
        assert(unit.instructions[k as int] == code.instructions[k as int].deep_view());
        if !instruction_is_closed(&code.instructions[k], len, consts, names) {
            return false;
        }
        k += 1;
    }
    true
}

/// A unit that can be loaded: it can be run, and so can every unit among
/// its constants, and among theirs.
pub open spec fn loadable(code: CodeObject) -> bool
    decreases code,
{
    code_runnable(code) && forall|k: int|
        0 <= k < code.consts.len() ==> ((#[trigger] code.consts[k]) matches Const::CodeObject(
            inner,
        ) ==> loadable(inner))
}

/// A unit can be loaded exactly if its value says so.
pub proof fn lemma_loadable_view(code: CodeObject)
    ensures
        loadable(code) == unit_loadable(code.deep_view()),
    decreases code,
{
    let unit = code.deep_view();
    assert(unit.params.len() == code.params.len());
    assert(unit.names.len() == code.names.len());
    assert(unit.consts.len() == code.consts.len());
    assert(code_runnable(code) == unit_runnable(unit));
    assert forall|k: int| 0 <= k < code.consts.len() implies ((#[trigger] code.consts[k])
        matches Const::CodeObject(inner) ==> loadable(inner) == unit_loadable(
        inner.deep_view(),
    )) by {
        if let Const::CodeObject(inner) = code.consts[k] {
            lemma_loadable_view(inner);
        }
    }
    if loadable(code) {
        assert forall|k: int| 0 <= k < unit.consts.len() implies ((#[trigger] unit.consts[k])
            matches ConstView::CodeObject(inner) ==> unit_loadable(inner)) by {
            let c = code.consts[k];
            assert(unit.consts[k] == c.deep_view());
        }
    }
    if unit_loadable(unit) {
        assert forall|k: int| 0 <= k < code.consts.len() implies ((#[trigger] code.consts[k])
            matches Const::CodeObject(inner) ==> loadable(inner)) by {
            let c = code.consts[k];
            assert(unit.consts[k] == c.deep_view());
        }
    }
}

} // verus!
