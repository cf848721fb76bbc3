//! What the compiler emits, as mathematical functions of the syntax tree.
//!
//! Every statement lowers to code whose jump targets count from the
//! statement's own first instruction; where code is placed behind other code,
//! its targets are shifted by the number of instructions in front of it.

use vstd::prelude::*;
use crate::ast::ASTIfStatement;
use crate::ast::Expr;
use crate::ast::FunctionParameter;
use crate::ast::AST;
use crate::bytecode::program::CodeObjectView;
use crate::bytecode::program::ConstView;
use crate::bytecode::program::InstructionView;
use crate::bytecode::program::ProgramView;
use crate::bytecode::tables::first_index;
use crate::bytecode::tables::intern;
use crate::lexer::Operator;

verus! {

/// Instructions together with the constant table they were emitted against.
pub struct ExprCode {
    pub code: Seq<InstructionView>,
    pub consts: Seq<ConstView>,
}

/// The opcode of an arithmetic or comparison operator.
pub open spec fn binary_opcode(op: Operator) -> Option<InstructionView> {
    match op {
        Operator::Plus => Some(InstructionView::BinaryAdd),
        Operator::Mod => Some(InstructionView::BinaryModulus),
        Operator::Minus => Some(InstructionView::BinarySubtract),
        Operator::Multiply => Some(InstructionView::BinaryMultiply),
        Operator::Divide => Some(InstructionView::BinaryTrueDivision),
        Operator::Less => Some(InstructionView::CompareLessThan),
        Operator::Greater => Some(InstructionView::CompareGreaterThan),
        Operator::Equals => Some(InstructionView::CompareEquals),
        Operator::GreaterEquals => Some(InstructionView::CompareGreaterEquals),
        Operator::LessEquals => Some(InstructionView::CompareLessEquals),
        Operator::NotEquals => Some(InstructionView::CompareNotEquals),
        _ => None,
    }
}

/// The method that a logical operator between two operands calls on the
/// left one.
pub open spec fn binary_method(op: Operator) -> Option<Seq<char>> {
    match op {
        Operator::And => Some("__and__"@),
        Operator::Or => Some("__or__"@),
        Operator::Xor => Some("__xor__"@),
        _ => None,
    }
}

/// The method that a prefix operator calls on its operand.
pub open spec fn unary_method(op: Operator) -> Option<Seq<char>> {
    match op {
        Operator::Plus => Some("__pos__"@),
        Operator::Not => Some("__not__"@),
        Operator::Minus => Some("__neg__"@),
        _ => None,
    }
}

/// The expressions that can be lowered: no parenthesized node is left, and
/// every operator stands where the instruction set has a lowering for it.
pub open spec fn expr_supported(e: Expr) -> bool
    decreases e,
{
    match e {
        Expr::IntegerValue(_) => true,
        Expr::FloatValue(_) => true,
        Expr::BooleanValue(_) => true,
        Expr::StringValue(_) => true,
        Expr::NoneValue => true,
        Expr::Variable(_) => true,
        Expr::MemberAccess(object, _) => expr_supported(*object),
        Expr::IndexAccess(object, index) => expr_supported(*object) && expr_supported(*index),
        Expr::Array(items) => forall|i: int|
            0 <= i < items.len() ==> expr_supported(#[trigger] items[i]),
        Expr::FunctionCall(callee, arguments) => expr_supported(*callee) && forall|i: int|
            0 <= i < arguments.len() ==> expr_supported(#[trigger] arguments[i]),
        Expr::BinaryOperation(lhs, op, rhs) => (binary_opcode(op) is Some || binary_method(op)
            is Some) && expr_supported(*lhs) && expr_supported(*rhs),
        Expr::UnaryExpression(op, operand) => unary_method(op) is Some && expr_supported(
            *operand,
        ),
        Expr::Parenthesized(_) => false,
    }
}

/// Loading the constant `c`: one instruction, with `c` interned.
pub open spec fn load_const(consts: Seq<ConstView>, c: ConstView) -> ExprCode {
    ExprCode {
        code: seq![InstructionView::LoadConst(first_index(consts, c))],
        consts: intern(consts, c),
    }
}

/// The code of an expression: operands left to right, the operation last.
pub open spec fn lower_expr(e: Expr, consts: Seq<ConstView>) -> ExprCode
    decreases e, 0nat,
{
    match e {
        Expr::IntegerValue(i) => load_const(consts, ConstView::Integer(i)),
        Expr::FloatValue(f) => load_const(consts, ConstView::Float(f.0)),
        Expr::BooleanValue(b) => load_const(consts, ConstView::Boolean(b)),
        Expr::StringValue(s) => load_const(consts, ConstView::String(s@)),
        Expr::NoneValue => load_const(consts, ConstView::NoneValue),
        Expr::Variable(name) => ExprCode {
            code: seq![InstructionView::UnresolvedLoadName(name@)],
            consts,
        },
        Expr::MemberAccess(object, name) => {
            let a = lower_expr(*object, consts);
            ExprCode { code: a.code.push(InstructionView::LoadAttr(name@)), consts: a.consts }
        },
        Expr::IndexAccess(object, index) => {
            let a = lower_expr(*object, consts);
            let b = lower_expr(*index, a.consts);
            ExprCode {
                code: (a.code + b.code).push(InstructionView::IndexAccess),
                consts: b.consts,
            }
        },
        Expr::Array(items) => {
            let a = lower_exprs(items@, items.len() as nat, consts);
            ExprCode {
                code: a.code.push(
                    InstructionView::BuildList { number_elements: items.len() as int },
                ),
                consts: a.consts,
            }
        },
        Expr::FunctionCall(callee, arguments) => {
            let a = lower_expr(*callee, consts);
            let b = lower_exprs(arguments@, arguments.len() as nat, a.consts);
            ExprCode {
                code: (a.code + b.code).push(
                    InstructionView::CallFunction { number_arguments: arguments.len() as int },
                ),
                consts: b.consts,
            }
        },
        Expr::BinaryOperation(lhs, op, rhs) => {
            let a = lower_expr(*lhs, consts);
            let b = lower_expr(*rhs, a.consts);
            match binary_method(op) {
                Some(method) => ExprCode {
                    code: (a.code.push(InstructionView::LoadAttr(method)) + b.code).push(
                        InstructionView::CallFunction { number_arguments: 1 },
                    ),
                    consts: b.consts,
                },
                None => ExprCode {
                    code: (a.code + b.code).push(binary_opcode(op).unwrap()),
                    consts: b.consts,
                },
            }
        },
        Expr::UnaryExpression(op, operand) => {
            let a = lower_expr(*operand, consts);
            ExprCode {
                code: a.code.push(InstructionView::LoadAttr(unary_method(op).unwrap())).push(
                    InstructionView::CallFunction { number_arguments: 0 },
                ),
                consts: a.consts,
            }
        },
        Expr::Parenthesized(inner) => lower_expr(*inner, consts),
    }
}

/// The code of the first `n` of the expressions `es`, one after the other.
pub open spec fn lower_exprs(es: Seq<Expr>, n: nat, consts: Seq<ConstView>) -> ExprCode
    decreases es, n,
{
    if n == 0 || n > es.len() {
        ExprCode { code: Seq::empty(), consts }
    } else {
        let a = lower_exprs(es, (n - 1) as nat, consts);
        let b = lower_expr(es[n - 1], a.consts);
        ExprCode { code: a.code + b.code, consts: b.consts }
    }
}

/// An instruction placed `by` instructions further on: its jump target, if
/// it has one, moves along.
pub open spec fn shift_instruction(i: InstructionView, by: int) -> InstructionView {
    match i {
        InstructionView::JumpUnconditional(t) => InstructionView::JumpUnconditional(t + by),
        InstructionView::JumpIfFalseAndPopStack(t) => InstructionView::JumpIfFalseAndPopStack(
            t + by,
        ),
        InstructionView::ForIter(t) => InstructionView::ForIter(t + by),
        _ => i,
    }
}

/// Code placed `by` instructions further on.
pub open spec fn shift(code: Seq<InstructionView>, by: int) -> Seq<InstructionView> {
    Seq::new(code.len(), |k: int| shift_instruction(code[k], by))
}

/// A `break` that still waits for its loop becomes a jump to `target`.
pub open spec fn patch_break(i: InstructionView, target: int) -> InstructionView {
    match i {
        InstructionView::UnresolvedBreak => InstructionView::JumpUnconditional(target),
        _ => i,
    }
}

/// Code in which every waiting `break` jumps to `target`.
pub open spec fn patch_breaks(code: Seq<InstructionView>, target: int) -> Seq<InstructionView> {
    Seq::new(code.len(), |k: int| patch_break(code[k], target))
}

/// The name of a nested unit: the enclosing unit's name, a dot, its own.
pub open spec fn qualified_name(prefix: Option<Seq<char>>, name: Seq<char>) -> Seq<char> {
    match prefix {
        Some(p) => p + seq!['.'] + name,
        None => name,
    }
}

/// The value of an optional name.
pub open spec fn prefix_view(prefix: Option<String>) -> Option<Seq<char>> {
    match prefix {
        Some(p) => Some(p@),
        None => None,
    }
}

/// The name under which a unit is compiled.
pub open spec fn unit_name(prefix: Option<Seq<char>>) -> Seq<char> {
    match prefix {
        Some(p) => p,
        None => "__main__"@,
    }
}

/// The code that stores into the target `path` of an assignment: a plain
/// name is stored by name; of a dotted target, the first component is loaded
/// by name, the middle ones as attributes, and the last one is stored as an
/// attribute.
pub open spec fn assign_target(path: Seq<Seq<char>>) -> Seq<InstructionView> {
    if path.len() == 1 {
        seq![InstructionView::UnresolvedStoreName(path[0])]
    } else {
        assign_path(path, true)
    }
}

/// The code for the components `parts` of a dotted target, of which the last
/// is stored as an attribute and the others are loaded: by name the one in
/// front if `is_first`, as attributes the others.
pub open spec fn assign_path(parts: Seq<Seq<char>>, is_first: bool) -> Seq<InstructionView> {
    Seq::new(
        parts.len(),
        |k: int|
            if k == parts.len() - 1 {
                InstructionView::UnresolvedStoreAttr(parts[k])
            } else if k == 0 && is_first {
                InstructionView::UnresolvedLoadName(parts[k])
            } else {
                InstructionView::LoadAttr(parts[k])
            },
    )
}

/// Whether `code` is without a final return.
pub open spec fn lacks_return(code: Seq<InstructionView>) -> bool {
    code.len() == 0 || code.last() != InstructionView::ReturnValue
}

/// The constants of a unit once its code is finished: `None` is interned
/// where a return is added.
pub open spec fn finish_consts(
    code: Seq<InstructionView>,
    consts: Seq<ConstView>,
    ensure_return: bool,
) -> Seq<ConstView> {
    if ensure_return && lacks_return(code) {
        intern(consts, ConstView::NoneValue)
    } else {
        consts
    }
}

/// The code of a finished unit: where a return is asked for and the code
/// does not end in one, `return None` is added.
pub open spec fn finish_code(
    code: Seq<InstructionView>,
    consts: Seq<ConstView>,
    ensure_return: bool,
) -> Seq<InstructionView> {
    if ensure_return && lacks_return(code) {
        code.push(InstructionView::LoadConst(first_index(consts, ConstView::NoneValue))).push(
            InstructionView::ReturnValue,
        )
    } else {
        code
    }
}

/// The unit made of `code`: no names assigned yet, no parameters, not the
/// top-level unit.
pub open spec fn finish_unit(
    code: Seq<InstructionView>,
    objname: Seq<char>,
    consts: Seq<ConstView>,
    ensure_return: bool,
) -> CodeObjectView {
    CodeObjectView {
        instructions: finish_code(code, consts, ensure_return),
        names: Seq::empty(),
        params: Seq::empty(),
        consts: finish_consts(code, consts, ensure_return),
        main: false,
        objname,
    }
}

/// The name that an instruction stores under before slots are assigned.
pub open spec fn stored_name(i: InstructionView) -> Option<Seq<char>> {
    match i {
        InstructionView::UnresolvedStoreName(n) => Some(n),
        InstructionView::UnresolvedStoreAttr(n) => Some(n),
        _ => None,
    }
}

/// The name that an instruction loads before slots are assigned.
pub open spec fn loaded_name(i: InstructionView) -> Option<Seq<char>> {
    match i {
        InstructionView::UnresolvedLoadName(n) => Some(n),
        _ => None,
    }
}

/// `names`, followed by each name stored by one of the first `n` instructions, in
/// the order of first occurrence.
pub open spec fn names_with_stores(
    code: Seq<InstructionView>,
    n: nat,
    names: Seq<Seq<char>>,
) -> Seq<Seq<char>>
    decreases n,
{
    if n == 0 || n > code.len() {
        names
    } else {
        let before = names_with_stores(code, (n - 1) as nat, names);
        match stored_name(code[n - 1]) {
            Some(name) => intern(before, name),
            None => before,
        }
    }
}

/// `names`, followed by each name loaded by one of the first `n` instructions, in
/// the order of first occurrence.
pub open spec fn names_with_loads(
    code: Seq<InstructionView>,
    n: nat,
    names: Seq<Seq<char>>,
) -> Seq<Seq<char>>
    decreases n,
{
    if n == 0 || n > code.len() {
        names
    } else {
        let before = names_with_loads(code, (n - 1) as nat, names);
        match loaded_name(code[n - 1]) {
            Some(name) => intern(before, name),
            None => before,
        }
    }
}

/// An instruction with its name replaced by the name's slot in `names`. A
/// load is local if the slot is one of the first `locals`, global otherwise.
pub open spec fn resolve_instruction(
    i: InstructionView,
    names: Seq<Seq<char>>,
    locals: int,
) -> InstructionView {
    match i {
        InstructionView::UnresolvedLoadName(n) => if first_index(names, n) < locals {
            InstructionView::LoadName(first_index(names, n))
        } else {
            InstructionView::LoadGlobal(first_index(names, n))
        },
        InstructionView::UnresolvedStoreName(n) => InstructionView::StoreName(
            first_index(names, n),
        ),
        InstructionView::UnresolvedStoreAttr(n) => InstructionView::StoreAttr(
            first_index(names, n),
        ),
        _ => i,
    }
}

/// The local names of a unit: its parameters, followed by the names it stores.
pub open spec fn local_names(unit: CodeObjectView) -> Seq<Seq<char>> {
    names_with_stores(unit.instructions, unit.instructions.len(), unit.params)
}

/// All names of a unit: the local ones, followed by the names it only loads.
pub open spec fn all_names(unit: CodeObjectView) -> Seq<Seq<char>> {
    names_with_loads(unit.instructions, unit.instructions.len(), local_names(unit))
}

/// A unit with slots in place of names. The parameters take the first
/// slots, in order; the names the unit stores follow, and last the names it
/// only loads, each in the order of first occurrence. A name that is a
/// parameter or is stored anywhere in the unit is loaded as a local, any
/// other as a global.
pub open spec fn resolve_unit(unit: CodeObjectView) -> CodeObjectView {
    CodeObjectView {
        instructions: Seq::new(
            unit.instructions.len(),
            |k: int|
                resolve_instruction(
                    unit.instructions[k],
                    all_names(unit),
                    local_names(unit).len() as int,
                ),
        ),
        names: all_names(unit),
        params: unit.params,
        consts: unit.consts,
        main: unit.main,
        objname: unit.objname,
    }
}

/// Code, the constant table it was emitted against, and the nested units
/// finished so far.
pub struct BlockCode {
    pub code: Seq<InstructionView>,
    pub consts: Seq<ConstView>,
    pub units: Seq<CodeObjectView>,
}

/// The names of the parameters, in order.
pub open spec fn param_names(parameters: Seq<FunctionParameter>) -> Seq<Seq<char>> {
    Seq::new(
        parameters.len(),
        |k: int|
            match parameters[k] {
                FunctionParameter::Simple(name) => name@,
                FunctionParameter::DefaultValue(name, _) => name@,
            },
    )
}

/// How many of the first `n` parameters have a default value.
pub open spec fn default_count(parameters: Seq<FunctionParameter>, n: nat) -> nat
    decreases n,
{
    if n == 0 || n > parameters.len() {
        0
    } else {
        default_count(parameters, (n - 1) as nat) + match parameters[n - 1] {
            FunctionParameter::Simple(_) => 0nat,
            FunctionParameter::DefaultValue(_, _) => 1nat,
        }
    }
}

/// The code of the default values among the first `n` parameters, in order.
pub open spec fn lower_defaults(
    parameters: Seq<FunctionParameter>,
    n: nat,
    consts: Seq<ConstView>,
) -> ExprCode
    decreases n,
{
    if n == 0 || n > parameters.len() {
        ExprCode { code: Seq::empty(), consts }
    } else {
        let a = lower_defaults(parameters, (n - 1) as nat, consts);
        match parameters[n - 1] {
            FunctionParameter::Simple(_) => a,
            FunctionParameter::DefaultValue(_, value) => {
                let b = lower_expr(value, a.consts);
                ExprCode { code: a.code + b.code, consts: b.consts }
            },
        }
    }
}

/// Whether every default value can be lowered.
pub open spec fn defaults_supported(parameters: Seq<FunctionParameter>) -> bool {
    forall|k: int|
        0 <= k < parameters.len() ==> match #[trigger] parameters[k] {
            FunctionParameter::Simple(_) => true,
            FunctionParameter::DefaultValue(_, value) => expr_supported(value),
        }
}

/// The number of conditions of an `if` statement; 0 for other statements.
pub open spec fn branch_count(s: AST) -> nat {
    match s {
        AST::IfStatement { elifs, .. } => elifs.len() as nat + 1,
        _ => 0,
    }
}

/// The `j`-th condition of an `if` statement with its statements: the `if`
/// itself is number 0, the `elif`s follow.
pub open spec fn branch(s: AST, j: nat) -> ASTIfStatement
    recommends
        j < branch_count(s),
{
    match s {
        AST::IfStatement { true_branch, elifs, .. } => if j == 0 {
            true_branch
        } else {
            elifs[j - 1]
        },
        _ => arbitrary(),
    }
}

/// The statements that can be lowered: targets of assignments have at least
/// one component, and every expression can be lowered.
pub open spec fn stmt_supported(s: AST) -> bool
    decreases s, 0nat,
{
    match s {
        AST::Assign { path, expression } => path.len() >= 1 && expr_supported(expression),
        AST::StandaloneExpr(e) => expr_supported(e),
        AST::Return(Some(e)) => expr_supported(e),
        AST::Return(None) => true,
        AST::IfStatement { true_branch, elifs, final_else } => {
            &&& expr_supported(true_branch.expression)
            &&& block_supported(true_branch.statements@, true_branch.statements.len() as nat)
            &&& forall|j: int|
                0 <= j < elifs.len() ==> expr_supported((#[trigger] elifs[j]).expression)
                    && block_supported(elifs[j].statements@, elifs[j].statements.len() as nat)
            &&& match final_else {
                Some(stmts) => block_supported(stmts@, stmts.len() as nat),
                None => true,
            }
        },
        AST::WhileStatement { expression, body } => expr_supported(expression)
            && block_supported(body@, body.len() as nat),
        AST::ForStatement { item_name, list_expression, body } => expr_supported(list_expression)
            && block_supported(body@, body.len() as nat),
        AST::DeclareFunction { function_name, parameters, body } => defaults_supported(
            parameters@,
        ) && block_supported(body@, body.len() as nat),
        AST::ClassDeclaration { class_name, body } => block_supported(body@, body.len() as nat),
        AST::Raise(e) => expr_supported(e),
        AST::Break => true,
    }
}

/// Whether the first `n` statements can be lowered.
pub open spec fn block_supported(stmts: Seq<AST>, n: nat) -> bool
    decreases stmts, n,
{
    if n == 0 || n > stmts.len() {
        true
    } else {
        block_supported(stmts, (n - 1) as nat) && stmt_supported(stmts[n - 1])
    }
}

/// A condition, the code to run if it holds, and the code to run if not.
pub open spec fn if_else_code(
    condition: Seq<InstructionView>,
    taken: Seq<InstructionView>,
    otherwise: Seq<InstructionView>,
) -> Seq<InstructionView> {
    let c = condition.len() as int;
    let t = taken.len() as int;
    let e = otherwise.len() as int;
    (condition.push(InstructionView::JumpIfFalseAndPopStack(c + t + 2)) + shift(taken, c + 1)).push(
        InstructionView::JumpUnconditional(c + t + 2 + e),
    ) + shift(otherwise, c + t + 2)
}

/// A condition and the code to run if it holds.
pub open spec fn if_code(
    condition: Seq<InstructionView>,
    taken: Seq<InstructionView>,
) -> Seq<InstructionView> {
    let c = condition.len() as int;
    let t = taken.len() as int;
    condition.push(InstructionView::JumpIfFalseAndPopStack(c + t + 1)) + shift(taken, c + 1)
}

/// A loop that runs `body` while `condition` holds. A `break` in the body
/// leaves the loop.
pub open spec fn while_code(
    condition: Seq<InstructionView>,
    body: Seq<InstructionView>,
) -> Seq<InstructionView> {
    let c = condition.len() as int;
    let b = body.len() as int;
    (condition.push(InstructionView::JumpIfFalseAndPopStack(c + b + 2)) + patch_breaks(
        shift(body, c + 1),
        c + b + 2,
    )).push(InstructionView::JumpUnconditional(0))
}

/// A loop that runs `body` once for each item of what `iterable` leaves on
/// the stack, with the item stored under `item`. A `break` in the body
/// leaves the loop.
pub open spec fn for_code(
    iterable: Seq<InstructionView>,
    item: Seq<char>,
    body: Seq<InstructionView>,
) -> Seq<InstructionView> {
    let h = iterable.len() as int + 2;
    let b = body.len() as int;
    (iterable.push(InstructionView::LoadAttr("__iter__"@)).push(
        InstructionView::CallFunction { number_arguments: 0 },
    ).push(InstructionView::ForIter(h + b + 3)).push(InstructionView::UnresolvedStoreName(item))
        + patch_breaks(shift(body, h + 2), h + b + 3)).push(InstructionView::JumpUnconditional(h))
}

/// The code that makes the function or class `unit` and stores it.
pub open spec fn definition_code(
    unit: CodeObjectView,
    maker: Seq<InstructionView>,
    name: Seq<char>,
    consts: Seq<ConstView>,
) -> ExprCode {
    let code_const = ConstView::CodeObject(unit);
    let with_code = intern(consts, code_const);
    let name_const = ConstView::String(unit.objname);
    ExprCode {
        code: (seq![
            InstructionView::LoadConst(first_index(consts, code_const)),
            InstructionView::LoadConst(first_index(with_code, name_const)),
        ] + maker).push(InstructionView::UnresolvedStoreName(name)),
        consts: intern(with_code, name_const),
    }
}

/// The code of a statement, with jump targets counted from its first
/// instruction. `prefix` is the name of the enclosing unit, if it has one.
pub open spec fn lower_stmt(
    s: AST,
    prefix: Option<Seq<char>>,
    consts: Seq<ConstView>,
    units: Seq<CodeObjectView>,
) -> BlockCode
    decreases s, branch_count(s) + 1,
{
    match s {
        AST::Assign { path, expression } => {
            let e = lower_expr(expression, consts);
            BlockCode {
                code: e.code + assign_target(path.deep_view()),
                consts: e.consts,
                units,
            }
        },
        AST::StandaloneExpr(expression) => {
            let e = lower_expr(expression, consts);
            BlockCode { code: e.code.push(InstructionView::PopTop), consts: e.consts, units }
        },
        AST::Return(Some(expression)) => {
            let e = lower_expr(expression, consts);
            BlockCode { code: e.code.push(InstructionView::ReturnValue), consts: e.consts, units }
        },
        AST::Return(None) => BlockCode {
            code: load_const(consts, ConstView::NoneValue).code.push(InstructionView::ReturnValue),
            consts: intern(consts, ConstView::NoneValue),
            units,
        },
        AST::IfStatement { .. } => lower_if(s, 0, prefix, consts, units),
        AST::WhileStatement { expression, body } => {
            let e = lower_expr(expression, consts);
            let b = lower_block(body@, body.len() as nat, prefix, e.consts, units);
            BlockCode { code: while_code(e.code, b.code), consts: b.consts, units: b.units }
        },
        AST::ForStatement { item_name, list_expression, body } => {
            let e = lower_expr(list_expression, consts);
            let b = lower_block(body@, body.len() as nat, prefix, e.consts, units);
            BlockCode {
                code: for_code(e.code, item_name@, b.code),
                consts: b.consts,
                units: b.units,
            }
        },
        AST::DeclareFunction { function_name, parameters, body } => {
            let qualname = qualified_name(prefix, function_name@);
            let inner = lower_block(
                body@,
                body.len() as nat,
                Some(qualname),
                Seq::empty(),
                units,
            );
            let unit = resolve_unit(
                CodeObjectView {
                    params: param_names(parameters@),
                    ..finish_unit(inner.code, qualname, inner.consts, true)
                },
            );
            let defaults = lower_defaults(parameters@, parameters.len() as nat, consts);
            let k = default_count(parameters@, parameters.len() as nat);
            let definition = definition_code(
                unit,
                seq![InstructionView::MakeFunction(k > 0)],
                function_name@,
                defaults.consts,
            );
            BlockCode {
                code: defaults.code.push(InstructionView::BuildList { number_elements: k as int })
                    + definition.code,
                consts: definition.consts,
                units: inner.units.push(unit),
            }
        },
        AST::ClassDeclaration { class_name, body } => {
            let qualname = qualified_name(prefix, class_name@);
            let inner = lower_block(
                body@,
                body.len() as nat,
                Some(qualname),
                Seq::empty(),
                units,
            );
            let unit = resolve_unit(finish_unit(inner.code, qualname, inner.consts, true));
            let definition = definition_code(
                unit,
                seq![InstructionView::MakeClass],
                class_name@,
                consts,
            );
            BlockCode {
                code: definition.code,
                consts: definition.consts,
                units: inner.units.push(unit),
            }
        },
        AST::Raise(expression) => {
            let e = lower_expr(expression, consts);
            BlockCode {
                code: e.code.push(InstructionView::Raise).push(
                    InstructionView::LoadConst(first_index(e.consts, ConstView::NoneValue)),
                ).push(InstructionView::ReturnValue),
                consts: intern(e.consts, ConstView::NoneValue),
                units,
            }
        },
        AST::Break => BlockCode { code: seq![InstructionView::UnresolvedBreak], consts, units },
    }
}

/// The code of an `if` statement from its `j`-th condition on: what follows
/// that condition's statements, be it another condition or the final
/// `else`, is its else branch.
pub open spec fn lower_if(
    s: AST,
    j: nat,
    prefix: Option<Seq<char>>,
    consts: Seq<ConstView>,
    units: Seq<CodeObjectView>,
) -> BlockCode
    decreases s, branch_count(s) - j,
{
    if j >= branch_count(s) {
        BlockCode { code: Seq::empty(), consts, units }
    } else {
        let condition = lower_expr(branch(s, j).expression, consts);
        let taken = lower_block(
            branch(s, j).statements@,
            branch(s, j).statements.len() as nat,
            prefix,
            condition.consts,
            units,
        );
        if j + 1 < branch_count(s) {
            let otherwise = lower_if(s, j + 1, prefix, taken.consts, taken.units);
            BlockCode {
                code: if_else_code(condition.code, taken.code, otherwise.code),
                consts: otherwise.consts,
                units: otherwise.units,
            }
        } else {
            match s {
                AST::IfStatement { final_else: Some(stmts), .. } => {
                    let otherwise = lower_block(
                        stmts@,
                        stmts.len() as nat,
                        prefix,
                        taken.consts,
                        taken.units,
                    );
                    BlockCode {
                        code: if_else_code(condition.code, taken.code, otherwise.code),
                        consts: otherwise.consts,
                        units: otherwise.units,
                    }
                },
                _ => BlockCode {
                    code: if_code(condition.code, taken.code),
                    consts: taken.consts,
                    units: taken.units,
                },
            }
        }
    }
}

/// The code of the first `n` statements of `stmts`: each statement's code
/// shifted behind the code before it.
pub open spec fn lower_block(
    stmts: Seq<AST>,
    n: nat,
    prefix: Option<Seq<char>>,
    consts: Seq<ConstView>,
    units: Seq<CodeObjectView>,
) -> BlockCode
    decreases stmts, n,
{
    if n == 0 || n > stmts.len() {
        BlockCode { code: Seq::empty(), consts, units }
    } else {
        let a = lower_block(stmts, (n - 1) as nat, prefix, consts, units);
        let b = lower_stmt(stmts[n - 1], prefix, a.consts, a.units);
        BlockCode {
            code: a.code + shift(b.code, a.code.len() as int),
            consts: b.consts,
            units: b.units,
        }
    }
}

/// The unit compiled from the statements `ast`, placed `offset` instructions
/// into the code it is meant for, before names are given slots.
pub open spec fn lower_unit(
    ast: Seq<AST>,
    offset: int,
    prefix: Option<Seq<char>>,
    ensure_return: bool,
    consts: Seq<ConstView>,
    units: Seq<CodeObjectView>,
) -> CodeObjectView {
    let block = lower_block(ast, ast.len(), prefix, consts, units);
    finish_unit(shift(block.code, offset), unit_name(prefix), block.consts, ensure_return)
}

/// The top-level unit of a program: the statements compiled from an empty
/// table, ended by a return, marked as the main unit, with slots assigned.
pub open spec fn main_unit(ast: Seq<AST>) -> CodeObjectView {
    resolve_unit(
        CodeObjectView {
            main: true,
            ..lower_unit(ast, 0, None, true, Seq::empty(), Seq::empty())
        },
    )
}

/// The nested units of a program, in the order in which they are finished:
/// a function or class after the ones declared inside it.
pub open spec fn nested_units(ast: Seq<AST>) -> Seq<CodeObjectView> {
    lower_block(ast, ast.len(), None, Seq::empty(), Seq::empty()).units
}

/// The compiled program: the top-level unit, then the nested ones.
pub open spec fn lower_program(ast: Seq<AST>) -> ProgramView {
    ProgramView { version: 1, code_objects: seq![main_unit(ast)] + nested_units(ast) }
}

/// Whether the statements end in an expression statement: the one whose
/// value interactive use keeps.
pub open spec fn ends_in_expression(ast: Seq<AST>) -> bool {
    ast.len() > 0 && ast.last() is StandaloneExpr
}

/// The code `code` of the top-level unit of the statements `ast` for
/// interactive use. Where the statements end in an expression
/// statement, the code ends in the expression's code, the instruction
/// that discards its value, and `return None`: that one instruction is
/// taken out, so that the value stays on the stack. Any other code stays
/// as it is.
pub open spec fn repl_code(ast: Seq<AST>, code: Seq<InstructionView>) -> Seq<InstructionView> {
    if ends_in_expression(ast) && code.len() >= 3 {
        code.remove(code.len() - 3)
    } else {
        code
    }
}

/// The program compiled for interactive use: as [`lower_program`], with
/// the top-level unit's code as [`repl_code`] gives it.
pub open spec fn lower_repl(ast: Seq<AST>) -> ProgramView {
    let main = main_unit(ast);
    ProgramView {
        version: 1,
        code_objects: seq![
            CodeObjectView { instructions: repl_code(ast, main.instructions), ..main },
        ] + nested_units(ast),
    }
}

} // verus!
