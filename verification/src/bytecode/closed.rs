//! What holds of all compiled code: jumps land inside the code they belong
//! to, and every index has an entry in the table it points into.

use vstd::prelude::*;
use crate::ast::Expr;
use crate::ast::FunctionParameter;
use crate::ast::AST;
use crate::bytecode::lowering::all_names;
use crate::bytecode::lowering::assign_target;
use crate::bytecode::lowering::binary_method;
use crate::bytecode::lowering::block_supported;
use crate::bytecode::lowering::branch;
use crate::bytecode::lowering::branch_count;
use crate::bytecode::lowering::default_count;
use crate::bytecode::lowering::defaults_supported;
use crate::bytecode::lowering::definition_code;
use crate::bytecode::lowering::finish_code;
use crate::bytecode::lowering::finish_consts;
use crate::bytecode::lowering::finish_unit;
use crate::bytecode::lowering::for_code;
use crate::bytecode::lowering::if_code;
use crate::bytecode::lowering::if_else_code;
use crate::bytecode::lowering::lacks_return;
use crate::bytecode::lowering::local_names;
use crate::bytecode::lowering::lower_block;
use crate::bytecode::lowering::lower_defaults;
use crate::bytecode::lowering::lower_if;
use crate::bytecode::lowering::lower_program;
use crate::bytecode::lowering::lower_repl;
use crate::bytecode::lowering::lower_unit;
use crate::bytecode::lowering::main_unit;
use crate::bytecode::lowering::nested_units;
use crate::bytecode::lowering::repl_code;
use crate::bytecode::lowering::ends_in_expression;
use crate::bytecode::lowering::lower_stmt;
use crate::bytecode::lowering::names_with_loads;
use crate::bytecode::lowering::names_with_stores;
use crate::bytecode::lowering::param_names;
use crate::bytecode::lowering::qualified_name;
use crate::bytecode::lowering::resolve_unit;
use crate::bytecode::lowering::stmt_supported;
use crate::bytecode::lowering::while_code;
use crate::bytecode::lowering::BlockCode;
use crate::bytecode::lowering::binary_opcode;
use crate::bytecode::lowering::expr_supported;
use crate::bytecode::lowering::load_const;
use crate::bytecode::lowering::loaded_name;
use crate::bytecode::lowering::lower_expr;
use crate::bytecode::lowering::lower_exprs;
use crate::bytecode::lowering::patch_breaks;
use crate::bytecode::lowering::shift;
use crate::bytecode::lowering::shift_instruction;
use crate::bytecode::lowering::stored_name;
use crate::bytecode::lowering::unary_method;
use crate::bytecode::lowering::ExprCode;
use crate::bytecode::program::CodeObjectView;
use crate::bytecode::program::ConstView;
use crate::bytecode::program::InstructionView;
use crate::bytecode::program::ProgramView;
use crate::bytecode::tables::extends;
use crate::bytecode::tables::first_index;
use crate::bytecode::tables::intern;
use crate::bytecode::tables::lemma_extends_trans;
use crate::bytecode::tables::lemma_first_index_bounds;
use crate::bytecode::tables::lemma_intern;

verus! {

/// Whether an instruction stays inside its unit: a jump target lies between
/// `lo` and `hi`, a constant index below `consts`, a name slot below `names`.
pub open spec fn instruction_closed(
    i: InstructionView,
    lo: int,
    hi: int,
    consts: int,
    names: int,
) -> bool {
    match i {
        InstructionView::LoadConst(c) => 0 <= c < consts,
        InstructionView::LoadName(s) => 0 <= s < names,
        InstructionView::LoadGlobal(s) => 0 <= s < names,
        InstructionView::StoreName(s) => 0 <= s < names,
        InstructionView::StoreAttr(s) => 0 <= s < names,
        InstructionView::JumpUnconditional(t) => lo <= t <= hi,
        InstructionView::JumpIfFalseAndPopStack(t) => lo <= t <= hi,
        InstructionView::ForIter(t) => lo <= t <= hi,
        _ => true,
    }
}

/// Whether every instruction of `code` stays inside its unit.
pub open spec fn code_closed(
    code: Seq<InstructionView>,
    lo: int,
    hi: int,
    consts: int,
    names: int,
) -> bool {
    forall|k: int|
        0 <= k < code.len() ==> instruction_closed(#[trigger] code[k], lo, hi, consts, names)
}

/// Whether `code` neither jumps nor waits for a loop to leave.
pub open spec fn straight(code: Seq<InstructionView>) -> bool {
    forall|k: int|
        0 <= k < code.len() ==> shift_instruction(#[trigger] code[k], 1) == code[k] && code[k]
            != InstructionView::UnresolvedBreak
}

/// Whether no instruction of `code` still names what it loads or stores.
pub open spec fn names_resolved(code: Seq<InstructionView>) -> bool {
    forall|k: int|
        0 <= k < code.len() ==> stored_name(#[trigger] code[k]) is None && loaded_name(code[k])
            is None
}

/// A unit whose code stays inside it: every jump target is an instruction
/// index or the end of the code, every constant index has a constant, and
/// every name slot has a name.
pub open spec fn unit_closed(unit: CodeObjectView) -> bool {
    code_closed(
        unit.instructions,
        0,
        unit.instructions.len() as int,
        unit.consts.len() as int,
        unit.names.len() as int,
    )
}

/// Whether every unit of `units` is closed and has its names resolved,
/// and so has every unit among its constants, and among theirs.
pub open spec fn units_closed(units: Seq<CodeObjectView>) -> bool {
    forall|k: int|
        0 <= k < units.len() ==> unit_closed(#[trigger] units[k]) && names_resolved(
            units[k].instructions,
        ) && unit_loadable(units[k])
}

pub proof fn lemma_closed_weaken(
    code: Seq<InstructionView>,
    lo: int,
    hi: int,
    consts: int,
    names: int,
    lo2: int,
    hi2: int,
    consts2: int,
    names2: int,
)
    requires
        code_closed(code, lo, hi, consts, names),
        lo2 <= lo,
        hi <= hi2,
        consts <= consts2,
        names <= names2,
    ensures
        code_closed(code, lo2, hi2, consts2, names2),
{
    assert forall|k: int| 0 <= k < code.len() implies instruction_closed(
        #[trigger] code[k],
        lo2,
        hi2,
        consts2,
        names2,
    ) by {
        assert(instruction_closed(code[k], lo, hi, consts, names));
    }
}

pub proof fn lemma_closed_shift(
    code: Seq<InstructionView>,
    by: int,
    lo: int,
    hi: int,
    consts: int,
    names: int,
)
    requires
        code_closed(code, lo, hi, consts, names),
    ensures
        code_closed(shift(code, by), lo + by, hi + by, consts, names),
        shift(code, by).len() == code.len(),
{
    assert forall|k: int| 0 <= k < code.len() implies instruction_closed(
        #[trigger] shift(code, by)[k],
        lo + by,
        hi + by,
        consts,
        names,
    ) by {
        assert(instruction_closed(code[k], lo, hi, consts, names));
    }
}

pub proof fn lemma_closed_patch(
    code: Seq<InstructionView>,
    target: int,
    lo: int,
    hi: int,
    consts: int,
    names: int,
)
    requires
        code_closed(code, lo, hi, consts, names),
        lo <= target <= hi,
    ensures
        code_closed(patch_breaks(code, target), lo, hi, consts, names),
        patch_breaks(code, target).len() == code.len(),
{
    assert forall|k: int| 0 <= k < code.len() implies instruction_closed(
        #[trigger] patch_breaks(code, target)[k],
        lo,
        hi,
        consts,
        names,
    ) by {
        assert(instruction_closed(code[k], lo, hi, consts, names));
    }
}

pub proof fn lemma_closed_concat(
    a: Seq<InstructionView>,
    b: Seq<InstructionView>,
    lo: int,
    hi: int,
    consts: int,
    names: int,
)
    requires
        code_closed(a, lo, hi, consts, names),
        code_closed(b, lo, hi, consts, names),
    ensures
        code_closed(a + b, lo, hi, consts, names),
{
    assert forall|k: int| 0 <= k < (a + b).len() implies instruction_closed(
        #[trigger] (a + b)[k],
        lo,
        hi,
        consts,
        names,
    ) by {
        if k < a.len() {
            assert(instruction_closed(a[k], lo, hi, consts, names));
        } else {
            assert(instruction_closed(b[k - a.len()], lo, hi, consts, names));
        }
    }
}

pub proof fn lemma_closed_push(
    a: Seq<InstructionView>,
    i: InstructionView,
    lo: int,
    hi: int,
    consts: int,
    names: int,
)
    requires
        code_closed(a, lo, hi, consts, names),
        instruction_closed(i, lo, hi, consts, names),
    ensures
        code_closed(a.push(i), lo, hi, consts, names),
{
    assert forall|k: int| 0 <= k < a.push(i).len() implies instruction_closed(
        #[trigger] a.push(i)[k],
        lo,
        hi,
        consts,
        names,
    ) by {
        if k < a.len() {
            assert(instruction_closed(a[k], lo, hi, consts, names));
        }
    }
}

/// Straight code stays closed wherever it is placed.
pub proof fn lemma_straight_closed(
    code: Seq<InstructionView>,
    lo: int,
    hi: int,
    consts: int,
    names: int,
    lo2: int,
    hi2: int,
)
    requires
        straight(code),
        code_closed(code, lo, hi, consts, names),
    ensures
        code_closed(code, lo2, hi2, consts, names),
        forall|by: int| shift(code, by) == code,
        forall|target: int| patch_breaks(code, target) == code,
{
    assert forall|k: int| 0 <= k < code.len() implies instruction_closed(
        #[trigger] code[k],
        lo2,
        hi2,
        consts,
        names,
    ) by {
        assert(instruction_closed(code[k], lo, hi, consts, names));
        assert(shift_instruction(code[k], 1) == code[k]);
    }
    assert forall|by: int| shift(code, by) == code by {
        assert forall|k: int| 0 <= k < code.len() implies shift(code, by)[k] == code[k] by {
            assert(shift_instruction(code[k], 1) == code[k]);
        }
        assert(shift(code, by) =~= code);
    }
    assert forall|target: int| patch_breaks(code, target) == code by {
        assert forall|k: int| 0 <= k < code.len() implies patch_breaks(code, target)[k]
            == code[k] by {
            assert(code[k] != InstructionView::UnresolvedBreak);
        }
        assert(patch_breaks(code, target) =~= code);
    }
}

/// A unit that can be run: it is closed, no instruction names what it
/// loads or stores, and each parameter has a slot.
pub open spec fn unit_runnable(unit: CodeObjectView) -> bool {
    &&& unit_closed(unit)
    &&& names_resolved(unit.instructions)
    &&& unit.params.len() <= unit.names.len()
}

/// A unit that can be loaded: it can be run, and so can every unit among
/// its constants, and among theirs.
pub open spec fn unit_loadable(unit: CodeObjectView) -> bool
    decreases unit,
{
    unit_runnable(unit) && forall|k: int|
        0 <= k < unit.consts.len() ==> ((#[trigger] unit.consts[k]) matches ConstView::CodeObject(
            inner,
        ) ==> unit_loadable(inner))
}

/// Whether every unit among the constants `consts` can be loaded.
pub open spec fn consts_loadable(consts: Seq<ConstView>) -> bool {
    forall|k: int|
        0 <= k < consts.len() ==> ((#[trigger] consts[k]) matches ConstView::CodeObject(inner)
            ==> unit_loadable(inner))
}

/// Whether the constant `c`, if it is a unit, can be loaded.
pub open spec fn const_loadable(c: ConstView) -> bool {
    c matches ConstView::CodeObject(inner) ==> unit_loadable(inner)
}

/// Interning a constant that can be loaded keeps the constants loadable.
pub proof fn lemma_intern_loadable(consts: Seq<ConstView>, c: ConstView)
    requires
        consts_loadable(consts),
        const_loadable(c),
    ensures
        consts_loadable(intern(consts, c)),
{
    let out = intern(consts, c);
    assert forall|k: int| 0 <= k < out.len() implies ((#[trigger] out[k])
        matches ConstView::CodeObject(inner) ==> unit_loadable(inner)) by {
        if k < consts.len() {
            assert(out[k] == consts[k]);
        }
    }
}

/// What holds of the code of an expression, whatever table it starts from:
/// it is straight, loads only constants that the resulting table holds, and
/// holds no name slot. The table keeps its entries in place.
pub open spec fn expr_code_closed(out: ExprCode, consts: Seq<ConstView>) -> bool {
    &&& straight(out.code)
    &&& code_closed(out.code, 0, 0, out.consts.len() as int, 0)
    &&& consts.len() <= out.consts.len()
    &&& consts.no_duplicates() ==> out.consts.no_duplicates()
    &&& consts_loadable(consts) ==> consts_loadable(out.consts)
}

pub proof fn lemma_straight_concat(a: Seq<InstructionView>, b: Seq<InstructionView>)
    requires
        straight(a),
        straight(b),
    ensures
        straight(a + b),
{
    assert forall|k: int| 0 <= k < (a + b).len() implies shift_instruction(
        #[trigger] (a + b)[k],
        1,
    ) == (a + b)[k] && (a + b)[k] != InstructionView::UnresolvedBreak by {
        if k < a.len() {
            assert(shift_instruction(a[k], 1) == a[k]);
        } else {
            assert(shift_instruction(b[k - a.len()], 1) == b[k - a.len()]);
        }
    }
}

pub proof fn lemma_straight_push(a: Seq<InstructionView>, i: InstructionView)
    requires
        straight(a),
        shift_instruction(i, 1) == i,
        i != InstructionView::UnresolvedBreak,
    ensures
        straight(a.push(i)),
{
    assert forall|k: int| 0 <= k < a.push(i).len() implies shift_instruction(
        #[trigger] a.push(i)[k],
        1,
    ) == a.push(i)[k] && a.push(i)[k] != InstructionView::UnresolvedBreak by {
        if k < a.len() {
            assert(shift_instruction(a[k], 1) == a[k]);
        }
    }
}

/// Two pieces of expression code, the second emitted against the table that
/// the first left, and one more instruction behind them.
proof fn lemma_expr_parts(
    a: ExprCode,
    b: ExprCode,
    last: InstructionView,
    consts: Seq<ConstView>,
)
    requires
        expr_code_closed(a, consts),
        expr_code_closed(b, a.consts),
        shift_instruction(last, 1) == last,
        last != InstructionView::UnresolvedBreak,
        instruction_closed(last, 0, 0, 0, 0),
    ensures
        expr_code_closed(ExprCode { code: (a.code + b.code).push(last), consts: b.consts }, consts),
        expr_code_closed(ExprCode { code: a.code + b.code, consts: b.consts }, consts),
        expr_code_closed(ExprCode { code: a.code.push(last) + b.code, consts: b.consts }, consts),
{
    let n = b.consts.len() as int;
    lemma_closed_weaken(a.code, 0, 0, a.consts.len() as int, 0, 0, 0, n, 0);
    lemma_closed_concat(a.code, b.code, 0, 0, n, 0);
    lemma_straight_concat(a.code, b.code);
    lemma_closed_push(a.code + b.code, last, 0, 0, n, 0);
    lemma_straight_push(a.code + b.code, last);
    lemma_closed_push(a.code, last, 0, 0, n, 0);
    lemma_straight_push(a.code, last);
    lemma_closed_concat(a.code.push(last), b.code, 0, 0, n, 0);
    lemma_straight_concat(a.code.push(last), b.code);
}

pub proof fn lemma_load_const(consts: Seq<ConstView>, c: ConstView)
    requires
        const_loadable(c),
    ensures
        expr_code_closed(load_const(consts, c), consts),
{
    lemma_intern(consts, c);
    lemma_first_index_bounds(consts, c);
    if consts_loadable(consts) {
        lemma_intern_loadable(consts, c);
    }
}

/// The code of an expression is closed.
pub proof fn lemma_lower_expr(e: Expr, consts: Seq<ConstView>)
    requires
        expr_supported(e),
    ensures
        expr_code_closed(lower_expr(e, consts), consts),
    decreases e, 0nat,
{
    let empty = ExprCode { code: Seq::empty(), consts };
    match e {
        Expr::IntegerValue(i) => lemma_load_const(consts, ConstView::Integer(i)),
        Expr::FloatValue(f) => lemma_load_const(consts, ConstView::Float(f.0)),
        Expr::BooleanValue(b) => lemma_load_const(consts, ConstView::Boolean(b)),
        Expr::StringValue(s) => lemma_load_const(consts, ConstView::String(s@)),
        Expr::NoneValue => lemma_load_const(consts, ConstView::NoneValue),
        Expr::Variable(name) => {},
        Expr::MemberAccess(object, name) => {
            lemma_lower_expr(*object, consts);
            let a = lower_expr(*object, consts);
            let b = ExprCode { code: Seq::empty(), consts: a.consts };
            lemma_expr_parts(a, b, InstructionView::LoadAttr(name@), consts);
            assert(a.code + b.code =~= a.code);
        },
        Expr::IndexAccess(object, index) => {
            lemma_lower_expr(*object, consts);
            let a = lower_expr(*object, consts);
            lemma_lower_expr(*index, a.consts);
            lemma_expr_parts(
                a,
                lower_expr(*index, a.consts),
                InstructionView::IndexAccess,
                consts,
            );
        },
        Expr::Array(items) => {
            lemma_lower_exprs(items@, items.len() as nat, consts);
            let a = lower_exprs(items@, items.len() as nat, consts);
            let b = ExprCode { code: Seq::empty(), consts: a.consts };
            lemma_expr_parts(
                a,
                b,
                InstructionView::BuildList { number_elements: items.len() as int },
                consts,
            );
            assert(a.code + b.code =~= a.code);
        },
        Expr::FunctionCall(callee, arguments) => {
            lemma_lower_expr(*callee, consts);
            let a = lower_expr(*callee, consts);
            lemma_lower_exprs(arguments@, arguments.len() as nat, a.consts);
            lemma_expr_parts(
                a,
                lower_exprs(arguments@, arguments.len() as nat, a.consts),
                InstructionView::CallFunction { number_arguments: arguments.len() as int },
                consts,
            );
        },
        Expr::BinaryOperation(lhs, op, rhs) => {
            lemma_lower_expr(*lhs, consts);
            let a = lower_expr(*lhs, consts);
            lemma_lower_expr(*rhs, a.consts);
            let b = lower_expr(*rhs, a.consts);
            match binary_method(op) {
                Some(method) => {
                    lemma_expr_parts(a, b, InstructionView::LoadAttr(method), consts);
                    let front = ExprCode {
                        code: a.code.push(InstructionView::LoadAttr(method)) + b.code,
                        consts: b.consts,
                    };
                    let none = ExprCode { code: Seq::empty(), consts: b.consts };
                    lemma_expr_parts(
                        front,
                        none,
                        InstructionView::CallFunction { number_arguments: 1 },
                        consts,
                    );
                    assert(front.code + none.code =~= front.code);
                },
                None => {
                    lemma_expr_parts(a, b, binary_opcode(op).unwrap(), consts);
                },
            }
        },
        Expr::UnaryExpression(op, operand) => {
            lemma_lower_expr(*operand, consts);
            let a = lower_expr(*operand, consts);
            let none = ExprCode { code: Seq::empty(), consts: a.consts };
            let load = InstructionView::LoadAttr(unary_method(op).unwrap());
            lemma_expr_parts(a, none, load, consts);
            assert(a.code + none.code =~= a.code);
            let front = ExprCode { code: a.code.push(load), consts: a.consts };
            lemma_expr_parts(
                front,
                none,
                InstructionView::CallFunction { number_arguments: 0 },
                consts,
            );
            assert(front.code + none.code =~= front.code);
        },
        Expr::Parenthesized(inner) => {},
    }
}

/// The code of a run of expressions is closed.
pub proof fn lemma_lower_exprs(es: Seq<Expr>, n: nat, consts: Seq<ConstView>)
    requires
        forall|i: int| 0 <= i < es.len() ==> expr_supported(#[trigger] es[i]),
    ensures
        expr_code_closed(lower_exprs(es, n, consts), consts),
    decreases es, n,
{
    if n == 0 || n > es.len() {
    } else {
        lemma_lower_exprs(es, (n - 1) as nat, consts);
        let a = lower_exprs(es, (n - 1) as nat, consts);
        lemma_lower_expr(es[n - 1], a.consts);
        lemma_expr_parts(a, lower_expr(es[n - 1], a.consts), InstructionView::PopTop, consts);
    }
}

/// What holds of a condition and the code it guards.
pub proof fn lemma_if_code(
    condition: Seq<InstructionView>,
    taken: Seq<InstructionView>,
    consts: int,
)
    requires
        straight(condition),
        code_closed(condition, 0, 0, consts, 0),
        code_closed(taken, 0, taken.len() as int, consts, 0),
    ensures
        if_code(condition, taken).len() == condition.len() + taken.len() + 1,
        code_closed(
            if_code(condition, taken),
            0,
            if_code(condition, taken).len() as int,
            consts,
            0,
        ),
{
    let c = condition.len() as int;
    let t = taken.len() as int;
    let n = c + t + 1;
    lemma_straight_closed(condition, 0, 0, consts, 0, 0, n);
    lemma_closed_push(condition, InstructionView::JumpIfFalseAndPopStack(n), 0, n, consts, 0);
    lemma_closed_shift(taken, c + 1, 0, t, consts, 0);
    lemma_closed_weaken(shift(taken, c + 1), c + 1, n, consts, 0, 0, n, consts, 0);
    lemma_closed_concat(
        condition.push(InstructionView::JumpIfFalseAndPopStack(n)),
        shift(taken, c + 1),
        0,
        n,
        consts,
        0,
    );
}

/// What holds of a condition with the code for both outcomes.
pub proof fn lemma_if_else_code(
    condition: Seq<InstructionView>,
    taken: Seq<InstructionView>,
    otherwise: Seq<InstructionView>,
    consts: int,
)
    requires
        straight(condition),
        code_closed(condition, 0, 0, consts, 0),
        code_closed(taken, 0, taken.len() as int, consts, 0),
        code_closed(otherwise, 0, otherwise.len() as int, consts, 0),
    ensures
        if_else_code(condition, taken, otherwise).len() == condition.len() + taken.len()
            + otherwise.len() + 2,
        code_closed(
            if_else_code(condition, taken, otherwise),
            0,
            if_else_code(condition, taken, otherwise).len() as int,
            consts,
            0,
        ),
{
    let c = condition.len() as int;
    let t = taken.len() as int;
    let e = otherwise.len() as int;
    let n = c + t + e + 2;
    lemma_straight_closed(condition, 0, 0, consts, 0, 0, n);
    let front = condition.push(InstructionView::JumpIfFalseAndPopStack(c + t + 2));
    lemma_closed_push(condition, InstructionView::JumpIfFalseAndPopStack(c + t + 2), 0, n, consts, 0);
    lemma_closed_shift(taken, c + 1, 0, t, consts, 0);
    lemma_closed_weaken(shift(taken, c + 1), c + 1, c + 1 + t, consts, 0, 0, n, consts, 0);
    lemma_closed_concat(front, shift(taken, c + 1), 0, n, consts, 0);
    lemma_closed_push(
        front + shift(taken, c + 1),
        InstructionView::JumpUnconditional(c + t + 2 + e),
        0,
        n,
        consts,
        0,
    );
    lemma_closed_shift(otherwise, c + t + 2, 0, e, consts, 0);
    lemma_closed_weaken(shift(otherwise, c + t + 2), c + t + 2, n, consts, 0, 0, n, consts, 0);
    lemma_closed_concat(
        (front + shift(taken, c + 1)).push(InstructionView::JumpUnconditional(c + t + 2 + e)),
        shift(otherwise, c + t + 2),
        0,
        n,
        consts,
        0,
    );
}

/// What holds of a `while` loop.
pub proof fn lemma_while_code(
    condition: Seq<InstructionView>,
    body: Seq<InstructionView>,
    consts: int,
)
    requires
        straight(condition),
        code_closed(condition, 0, 0, consts, 0),
        code_closed(body, 0, body.len() as int, consts, 0),
    ensures
        while_code(condition, body).len() == condition.len() + body.len() + 2,
        code_closed(
            while_code(condition, body),
            0,
            while_code(condition, body).len() as int,
            consts,
            0,
        ),
{
    let c = condition.len() as int;
    let b = body.len() as int;
    let n = c + b + 2;
    lemma_straight_closed(condition, 0, 0, consts, 0, 0, n);
    let front = condition.push(InstructionView::JumpIfFalseAndPopStack(n));
    lemma_closed_push(condition, InstructionView::JumpIfFalseAndPopStack(n), 0, n, consts, 0);
    lemma_closed_shift(body, c + 1, 0, b, consts, 0);
    lemma_closed_weaken(shift(body, c + 1), c + 1, c + 1 + b, consts, 0, 0, n, consts, 0);
    lemma_closed_patch(shift(body, c + 1), n, 0, n, consts, 0);
    lemma_closed_concat(front, patch_breaks(shift(body, c + 1), n), 0, n, consts, 0);
    lemma_closed_push(
        front + patch_breaks(shift(body, c + 1), n),
        InstructionView::JumpUnconditional(0),
        0,
        n,
        consts,
        0,
    );
}

/// What holds of a `for` loop.
pub proof fn lemma_for_code(
    iterable: Seq<InstructionView>,
    item: Seq<char>,
    body: Seq<InstructionView>,
    consts: int,
)
    requires
        straight(iterable),
        code_closed(iterable, 0, 0, consts, 0),
        code_closed(body, 0, body.len() as int, consts, 0),
    ensures
        for_code(iterable, item, body).len() == iterable.len() + body.len() + 5,
        code_closed(
            for_code(iterable, item, body),
            0,
            for_code(iterable, item, body).len() as int,
            consts,
            0,
        ),
{
    let h = iterable.len() as int + 2;
    let b = body.len() as int;
    let n = h + b + 3;
    lemma_straight_closed(iterable, 0, 0, consts, 0, 0, n);
    let i1 = iterable.push(InstructionView::LoadAttr("__iter__"@));
    lemma_closed_push(iterable, InstructionView::LoadAttr("__iter__"@), 0, n, consts, 0);
    let i2 = i1.push(InstructionView::CallFunction { number_arguments: 0 });
    lemma_closed_push(i1, InstructionView::CallFunction { number_arguments: 0 }, 0, n, consts, 0);
    let i3 = i2.push(InstructionView::ForIter(n));
    lemma_closed_push(i2, InstructionView::ForIter(n), 0, n, consts, 0);
    let i4 = i3.push(InstructionView::UnresolvedStoreName(item));
    lemma_closed_push(i3, InstructionView::UnresolvedStoreName(item), 0, n, consts, 0);
    lemma_closed_shift(body, h + 2, 0, b, consts, 0);
    lemma_closed_weaken(shift(body, h + 2), h + 2, h + 2 + b, consts, 0, 0, n, consts, 0);
    lemma_closed_patch(shift(body, h + 2), n, 0, n, consts, 0);
    lemma_closed_concat(i4, patch_breaks(shift(body, h + 2), n), 0, n, consts, 0);
    lemma_closed_push(
        i4 + patch_breaks(shift(body, h + 2), n),
        InstructionView::JumpUnconditional(h),
        0,
        n,
        consts,
        0,
    );
}

/// Finishing a unit keeps its code closed.
pub proof fn lemma_finish_unit(
    code: Seq<InstructionView>,
    objname: Seq<char>,
    consts: Seq<ConstView>,
    ensure_return: bool,
)
    requires
        code_closed(code, 0, code.len() as int, consts.len() as int, 0),
    ensures
        unit_closed(finish_unit(code, objname, consts, ensure_return)),
        consts.len() <= finish_consts(code, consts, ensure_return).len(),
        consts.no_duplicates() ==> finish_consts(code, consts, ensure_return).no_duplicates(),
        code.len() <= finish_code(code, consts, ensure_return).len(),
        ensure_return ==> !lacks_return(finish_code(code, consts, ensure_return)),
{
    if ensure_return && lacks_return(code) {
        let none = ConstView::NoneValue;
        lemma_intern(consts, none);
        lemma_first_index_bounds(consts, none);
        let n = code.len() as int + 2;
        let m = intern(consts, none).len() as int;
        lemma_closed_weaken(code, 0, code.len() as int, consts.len() as int, 0, 0, n, m, 0);
        let load = InstructionView::LoadConst(first_index(consts, none));
        lemma_closed_push(code, load, 0, n, m, 0);
        lemma_closed_push(code.push(load), InstructionView::ReturnValue, 0, n, m, 0);
    }
}

/// A table of names grows at its end while stores are scanned, and holds
/// every name stored by an instruction it has passed.
pub proof fn lemma_names_with_stores(code: Seq<InstructionView>, n: nat, names: Seq<Seq<char>>)
    requires
        n <= code.len(),
    ensures
        extends(names_with_stores(code, n, names), names),
        forall|k: int|
            0 <= k < n ==> (stored_name(#[trigger] code[k]) matches Some(x) ==> names_with_stores(
                code,
                n,
                names,
            ).contains(x)),
    decreases n,
{
    if n == 0 {
        assert(names.subrange(0, names.len() as int) =~= names);
    } else {
        lemma_names_with_stores(code, (n - 1) as nat, names);
        let before = names_with_stores(code, (n - 1) as nat, names);
        let after = names_with_stores(code, n, names);
        match stored_name(code[n - 1]) {
            Some(x) => {
                lemma_intern(before, x);
                lemma_first_index_bounds(before, x);
                lemma_extends_trans(after, before, names);
            },
            None => {
                assert(before.subrange(0, before.len() as int) =~= before);
            },
        }
        assert forall|k: int| 0 <= k < n implies (stored_name(#[trigger] code[k]) matches Some(
            x,
        ) ==> after.contains(x)) by {
            if let Some(x) = stored_name(code[k]) {
                if k < n - 1 {
                    lemma_extends_contains(after, before, x);
                } else {
                    lemma_first_index_bounds(after, x);
                }
            }
        }
    }
}

/// A table of names grows at its end while loads are scanned, and holds
/// every name loaded by an instruction it has passed.
pub proof fn lemma_names_with_loads(code: Seq<InstructionView>, n: nat, names: Seq<Seq<char>>)
    requires
        n <= code.len(),
    ensures
        extends(names_with_loads(code, n, names), names),
        forall|k: int|
            0 <= k < n ==> (loaded_name(#[trigger] code[k]) matches Some(x) ==> names_with_loads(
                code,
                n,
                names,
            ).contains(x)),
    decreases n,
{
    if n == 0 {
        assert(names.subrange(0, names.len() as int) =~= names);
    } else {
        lemma_names_with_loads(code, (n - 1) as nat, names);
        let before = names_with_loads(code, (n - 1) as nat, names);
        let after = names_with_loads(code, n, names);
        match loaded_name(code[n - 1]) {
            Some(x) => {
                lemma_intern(before, x);
                lemma_first_index_bounds(before, x);
                lemma_extends_trans(after, before, names);
            },
            None => {
                assert(before.subrange(0, before.len() as int) =~= before);
            },
        }
        assert forall|k: int| 0 <= k < n implies (loaded_name(#[trigger] code[k]) matches Some(
            x,
        ) ==> after.contains(x)) by {
            if let Some(x) = loaded_name(code[k]) {
                if k < n - 1 {
                    lemma_extends_contains(after, before, x);
                } else {
                    lemma_first_index_bounds(after, x);
                }
            }
        }
    }
}

/// What a sequence holds, a sequence that extends it holds too.
pub proof fn lemma_extends_contains<T>(b: Seq<T>, a: Seq<T>, x: T)
    requires
        extends(b, a),
        a.contains(x),
    ensures
        b.contains(x),
{
    let i = choose|i: int| 0 <= i < a.len() && a[i] == x;
    assert(b.subrange(0, a.len() as int)[i] == b[i]);
}

/// Assigning slots closes a unit: every slot has a name, the parameters
/// keep the first slots, and no instruction names what it loads or stores.
pub proof fn lemma_resolve_unit(unit: CodeObjectView)
    requires
        code_closed(
            unit.instructions,
            0,
            unit.instructions.len() as int,
            unit.consts.len() as int,
            0,
        ),
    ensures
        unit_closed(resolve_unit(unit)),
        names_resolved(resolve_unit(unit).instructions),
        extends(resolve_unit(unit).names, unit.params),
        resolve_unit(unit).instructions.len() == unit.instructions.len(),
{
    let code = unit.instructions;
    let n = code.len();
    let locals = local_names(unit);
    let names = all_names(unit);
    lemma_names_with_stores(code, n, unit.params);
    lemma_names_with_loads(code, n, locals);
    lemma_extends_trans(names, locals, unit.params);
    let resolved = resolve_unit(unit);
    assert forall|k: int| 0 <= k < n implies instruction_closed(
        #[trigger] resolved.instructions[k],
        0,
        n as int,
        unit.consts.len() as int,
        names.len() as int,
    ) && stored_name(resolved.instructions[k]) is None && loaded_name(resolved.instructions[k])
        is None by {
        assert(instruction_closed(code[k], 0, n as int, unit.consts.len() as int, 0));
        if let Some(x) = stored_name(code[k]) {
            lemma_extends_contains(names, locals, x);
            lemma_first_index_bounds(names, x);
        }
        if let Some(x) = loaded_name(code[k]) {
            lemma_first_index_bounds(names, x);
        }
    }
}

/// What holds of the code of a block, whatever it starts from: its jumps
/// land inside it, it loads only constants that the resulting table holds,
/// and it holds no name slot; the table keeps its entries; the units
/// finished before are still there, in place, and closed units stay so.
pub open spec fn block_code_closed(
    out: BlockCode,
    consts: Seq<ConstView>,
    units: Seq<CodeObjectView>,
) -> bool {
    &&& code_closed(out.code, 0, out.code.len() as int, out.consts.len() as int, 0)
    &&& consts.len() <= out.consts.len()
    &&& consts.no_duplicates() ==> out.consts.no_duplicates()
    &&& consts_loadable(consts) ==> consts_loadable(out.consts)
    &&& extends(out.units, units)
    &&& units_closed(units) ==> units_closed(out.units)
}

/// Expression code with straight code behind it is the code of a block.
proof fn lemma_expr_then(
    e: ExprCode,
    tail: Seq<InstructionView>,
    consts: Seq<ConstView>,
    units: Seq<CodeObjectView>,
)
    requires
        expr_code_closed(e, consts),
        straight(tail),
        code_closed(tail, 0, 0, e.consts.len() as int, 0),
    ensures
        block_code_closed(BlockCode { code: e.code + tail, consts: e.consts, units }, consts, units),
{
    let n = (e.code + tail).len() as int;
    let c = e.consts.len() as int;
    lemma_straight_closed(e.code, 0, 0, c, 0, 0, n);
    lemma_straight_closed(tail, 0, 0, c, 0, 0, n);
    lemma_closed_concat(e.code, tail, 0, n, c, 0);
    assert(units.subrange(0, units.len() as int) =~= units);
}

/// The code that defines a function or class is straight and closed.
proof fn lemma_definition_code(
    unit: CodeObjectView,
    maker: InstructionView,
    name: Seq<char>,
    consts: Seq<ConstView>,
)
    requires
        maker == InstructionView::MakeClass || maker is MakeFunction,
        unit_loadable(unit),
    ensures
        expr_code_closed(definition_code(unit, seq![maker], name, consts), consts),
{
    let code_const = ConstView::CodeObject(unit);
    let with_code = intern(consts, code_const);
    let name_const = ConstView::String(unit.objname);
    let all = intern(with_code, name_const);
    lemma_intern(consts, code_const);
    lemma_first_index_bounds(consts, code_const);
    lemma_intern(with_code, name_const);
    lemma_first_index_bounds(with_code, name_const);
    if consts_loadable(consts) {
        lemma_intern_loadable(consts, code_const);
        lemma_intern_loadable(with_code, name_const);
    }
}

/// A unit made of closed code, finished and with slots assigned, can be
/// loaded if the constants it was compiled against can.
pub proof fn lemma_unit_loadable(
    code: Seq<InstructionView>,
    objname: Seq<char>,
    consts: Seq<ConstView>,
    params: Seq<Seq<char>>,
    main: bool,
)
    requires
        code_closed(code, 0, code.len() as int, consts.len() as int, 0),
        consts_loadable(consts),
    ensures
        unit_loadable(
            resolve_unit(
                CodeObjectView { params, main, ..finish_unit(code, objname, consts, true) },
            ),
        ),
{
    lemma_finish_unit(code, objname, consts, true);
    let raw = CodeObjectView { params, main, ..finish_unit(code, objname, consts, true) };
    lemma_resolve_unit(raw);
    let unit = resolve_unit(raw);
    if lacks_return(code) {
        lemma_intern_loadable(consts, ConstView::NoneValue);
    }
    assert(unit.consts == finish_consts(code, consts, true));
}

/// The code of default values is closed.
pub proof fn lemma_lower_defaults(
    parameters: Seq<FunctionParameter>,
    n: nat,
    consts: Seq<ConstView>,
)
    requires
        defaults_supported(parameters),
    ensures
        expr_code_closed(lower_defaults(parameters, n, consts), consts),
        default_count(parameters, n) <= n,
    decreases n,
{
    if n == 0 || n > parameters.len() {
    } else {
        lemma_lower_defaults(parameters, (n - 1) as nat, consts);
        let a = lower_defaults(parameters, (n - 1) as nat, consts);
        match parameters[n - 1] {
            FunctionParameter::Simple(_) => {},
            FunctionParameter::DefaultValue(_, value) => {
                lemma_lower_expr(value, a.consts);
                lemma_expr_parts(a, lower_expr(value, a.consts), InstructionView::PopTop, consts);
            },
        }
    }
}

/// The code that stores into an assignment's target is straight and closed.
proof fn lemma_assign_target(path: Seq<Seq<char>>, consts: int)
    ensures
        straight(assign_target(path)),
        code_closed(assign_target(path), 0, 0, consts, 0),
{
}

/// Adding a finished unit to closed units.
proof fn lemma_units_push(before: Seq<CodeObjectView>, units: Seq<CodeObjectView>, unit: CodeObjectView)
    requires
        extends(units, before),
        units_closed(before) ==> units_closed(units),
        unit_closed(unit),
        names_resolved(unit.instructions),
        unit_loadable(unit),
    ensures
        extends(units.push(unit), before),
        units_closed(before) ==> units_closed(units.push(unit)),
{
    assert(units.push(unit).subrange(0, units.len() as int) =~= units);
    lemma_extends_trans(units.push(unit), units, before);
    if units_closed(before) {
        assert forall|k: int| 0 <= k < units.push(unit).len() implies unit_closed(
            #[trigger] units.push(unit)[k],
        ) && names_resolved(units.push(unit)[k].instructions) && unit_loadable(
            units.push(unit)[k],
        ) by {
            if k < units.len() {
                assert(unit_closed(units[k]));
            }
        }
    }
}

/// The code of a statement is closed.
pub proof fn lemma_lower_stmt(
    s: AST,
    prefix: Option<Seq<char>>,
    consts: Seq<ConstView>,
    units: Seq<CodeObjectView>,
)
    requires
        stmt_supported(s),
    ensures
        block_code_closed(lower_stmt(s, prefix, consts, units), consts, units),
    decreases s, branch_count(s) + 1,
{
    let out = lower_stmt(s, prefix, consts, units);
    match s {
        AST::Assign { path, expression } => {
            lemma_lower_expr(expression, consts);
            let e = lower_expr(expression, consts);
            lemma_assign_target(path.deep_view(), e.consts.len() as int);
            lemma_expr_then(e, assign_target(path.deep_view()), consts, units);
        },
        AST::StandaloneExpr(expression) => {
            lemma_lower_expr(expression, consts);
            let e = lower_expr(expression, consts);
            lemma_expr_then(e, seq![InstructionView::PopTop], consts, units);
            assert(e.code + seq![InstructionView::PopTop] =~= e.code.push(InstructionView::PopTop));
        },
        AST::Return(Some(expression)) => {
            lemma_lower_expr(expression, consts);
            let e = lower_expr(expression, consts);
            lemma_expr_then(e, seq![InstructionView::ReturnValue], consts, units);
            assert(e.code + seq![InstructionView::ReturnValue] =~= e.code.push(
                InstructionView::ReturnValue,
            ));
        },
        AST::Return(None) => {
            lemma_load_const(consts, ConstView::NoneValue);
            let e = load_const(consts, ConstView::NoneValue);
            lemma_expr_then(e, seq![InstructionView::ReturnValue], consts, units);
            assert(e.code + seq![InstructionView::ReturnValue] =~= e.code.push(
                InstructionView::ReturnValue,
            ));
        },
        AST::IfStatement { .. } => {
            lemma_lower_if(s, 0, prefix, consts, units);
        },
        AST::WhileStatement { expression, body } => {
            lemma_lower_expr(expression, consts);
            let e = lower_expr(expression, consts);
            lemma_lower_block(body@, body.len() as nat, prefix, e.consts, units);
            let b = lower_block(body@, body.len() as nat, prefix, e.consts, units);
            lemma_closed_weaken(e.code, 0, 0, e.consts.len() as int, 0, 0, 0, b.consts.len() as int, 0);
            lemma_while_code(e.code, b.code, b.consts.len() as int);
        },
        AST::ForStatement { item_name, list_expression, body } => {
            lemma_lower_expr(list_expression, consts);
            let e = lower_expr(list_expression, consts);
            lemma_lower_block(body@, body.len() as nat, prefix, e.consts, units);
            let b = lower_block(body@, body.len() as nat, prefix, e.consts, units);
            lemma_closed_weaken(e.code, 0, 0, e.consts.len() as int, 0, 0, 0, b.consts.len() as int, 0);
            lemma_for_code(e.code, item_name@, b.code, b.consts.len() as int);
        },
        AST::DeclareFunction { function_name, parameters, body } => {
            let qualname = qualified_name(prefix, function_name@);
            let none = Seq::<ConstView>::empty();
            lemma_lower_block(body@, body.len() as nat, Some(qualname), none, units);
            let inner = lower_block(body@, body.len() as nat, Some(qualname), none, units);
            lemma_finish_unit(inner.code, qualname, inner.consts, true);
            let raw = CodeObjectView {
                params: param_names(parameters@),
                ..finish_unit(inner.code, qualname, inner.consts, true)
            };
            lemma_resolve_unit(raw);
            let unit = resolve_unit(raw);
            lemma_units_push(units, inner.units, unit);
            lemma_lower_defaults(parameters@, parameters.len() as nat, consts);
            let defaults = lower_defaults(parameters@, parameters.len() as nat, consts);
            let k = default_count(parameters@, parameters.len() as nat);
            let maker = InstructionView::MakeFunction(k > 0);
            lemma_definition_code(unit, maker, function_name@, defaults.consts);
            let definition = definition_code(unit, seq![maker], function_name@, defaults.consts);
            let list = InstructionView::BuildList { number_elements: k as int };
            let nothing = ExprCode { code: Seq::empty(), consts: defaults.consts };
            lemma_expr_parts(defaults, nothing, list, consts);
            assert(defaults.code + nothing.code =~= defaults.code);
            lemma_expr_parts(
                ExprCode { code: defaults.code.push(list), consts: defaults.consts },
                definition,
                InstructionView::PopTop,
                consts,
            );
            let all = ExprCode { code: defaults.code.push(list) + definition.code, consts: definition.consts };
            lemma_expr_then(all, Seq::empty(), consts, inner.units);
            assert(all.code + Seq::<InstructionView>::empty() =~= all.code);
        },
        AST::ClassDeclaration { class_name, body } => {
            let qualname = qualified_name(prefix, class_name@);
            let none = Seq::<ConstView>::empty();
            lemma_lower_block(body@, body.len() as nat, Some(qualname), none, units);
            let inner = lower_block(body@, body.len() as nat, Some(qualname), none, units);
            lemma_finish_unit(inner.code, qualname, inner.consts, true);
            let raw = finish_unit(inner.code, qualname, inner.consts, true);
            lemma_resolve_unit(raw);
            let unit = resolve_unit(raw);
            lemma_units_push(units, inner.units, unit);
            lemma_definition_code(unit, InstructionView::MakeClass, class_name@, consts);
            let definition = definition_code(
                unit,
                seq![InstructionView::MakeClass],
                class_name@,
                consts,
            );
            lemma_expr_then(definition, Seq::empty(), consts, inner.units);
            assert(definition.code + Seq::<InstructionView>::empty() =~= definition.code);
        },
        AST::Raise(expression) => {
            lemma_lower_expr(expression, consts);
            let e = lower_expr(expression, consts);
            let none = ConstView::NoneValue;
            lemma_load_const(e.consts, none);
            let front = ExprCode { code: e.code.push(InstructionView::Raise), consts: e.consts };
            let nothing = ExprCode { code: Seq::empty(), consts: e.consts };
            lemma_expr_parts(e, nothing, InstructionView::Raise, consts);
            assert(e.code + nothing.code =~= e.code);
            lemma_expr_parts(front, load_const(e.consts, none), InstructionView::ReturnValue, consts);
            let all = ExprCode {
                code: (front.code + load_const(e.consts, none).code).push(
                    InstructionView::ReturnValue,
                ),
                consts: intern(e.consts, none),
            };
            assert(all.code =~= out.code);
            lemma_expr_then(all, Seq::empty(), consts, units);
            assert(all.code + Seq::<InstructionView>::empty() =~= all.code);
        },
        AST::Break => {
            assert(units.subrange(0, units.len() as int) =~= units);
        },
    }
}

/// The code of an `if` statement from one of its conditions on is closed.
pub proof fn lemma_lower_if(
    s: AST,
    j: nat,
    prefix: Option<Seq<char>>,
    consts: Seq<ConstView>,
    units: Seq<CodeObjectView>,
)
    requires
        stmt_supported(s),
        s is IfStatement,
    ensures
        block_code_closed(lower_if(s, j, prefix, consts, units), consts, units),
    decreases s, branch_count(s) - j,
{
    if j >= branch_count(s) {
        assert(units.subrange(0, units.len() as int) =~= units);
    } else {
        let b = branch(s, j);
        assert(expr_supported(b.expression) && block_supported(
            b.statements@,
            b.statements.len() as nat,
        ));
        lemma_lower_expr(b.expression, consts);
        let condition = lower_expr(b.expression, consts);
        lemma_lower_block(b.statements@, b.statements.len() as nat, prefix, condition.consts, units);
        let taken = lower_block(
            b.statements@,
            b.statements.len() as nat,
            prefix,
            condition.consts,
            units,
        );
        if j + 1 < branch_count(s) {
            lemma_lower_if(s, j + 1, prefix, taken.consts, taken.units);
            let otherwise = lower_if(s, j + 1, prefix, taken.consts, taken.units);
            let c = otherwise.consts.len() as int;
            lemma_closed_weaken(condition.code, 0, 0, condition.consts.len() as int, 0, 0, 0, c, 0);
            lemma_closed_weaken(
                taken.code,
                0,
                taken.code.len() as int,
                taken.consts.len() as int,
                0,
                0,
                taken.code.len() as int,
                c,
                0,
            );
            lemma_if_else_code(condition.code, taken.code, otherwise.code, c);
            lemma_extends_trans(otherwise.units, taken.units, units);
        } else {
            match s {
                AST::IfStatement { final_else: Some(stmts), .. } => {
                    lemma_lower_block(stmts@, stmts.len() as nat, prefix, taken.consts, taken.units);
                    let otherwise = lower_block(
                        stmts@,
                        stmts.len() as nat,
                        prefix,
                        taken.consts,
                        taken.units,
                    );
                    let c = otherwise.consts.len() as int;
                    lemma_closed_weaken(
                        condition.code,
                        0,
                        0,
                        condition.consts.len() as int,
                        0,
                        0,
                        0,
                        c,
                        0,
                    );
                    lemma_closed_weaken(
                        taken.code,
                        0,
                        taken.code.len() as int,
                        taken.consts.len() as int,
                        0,
                        0,
                        taken.code.len() as int,
                        c,
                        0,
                    );
                    lemma_if_else_code(condition.code, taken.code, otherwise.code, c);
                    lemma_extends_trans(otherwise.units, taken.units, units);
                },
                _ => {
                    let c = taken.consts.len() as int;
                    lemma_closed_weaken(
                        condition.code,
                        0,
                        0,
                        condition.consts.len() as int,
                        0,
                        0,
                        0,
                        c,
                        0,
                    );
                    lemma_if_code(condition.code, taken.code, c);
                },
            }
        }
    }
}

/// The code of a block is closed.
pub proof fn lemma_lower_block(
    stmts: Seq<AST>,
    n: nat,
    prefix: Option<Seq<char>>,
    consts: Seq<ConstView>,
    units: Seq<CodeObjectView>,
)
    requires
        block_supported(stmts, n),
    ensures
        block_code_closed(lower_block(stmts, n, prefix, consts, units), consts, units),
    decreases stmts, n,
{
    if n == 0 || n > stmts.len() {
        assert(units.subrange(0, units.len() as int) =~= units);
    } else {
        lemma_lower_block(stmts, (n - 1) as nat, prefix, consts, units);
        let a = lower_block(stmts, (n - 1) as nat, prefix, consts, units);
        lemma_lower_stmt(stmts[n - 1], prefix, a.consts, a.units);
        let b = lower_stmt(stmts[n - 1], prefix, a.consts, a.units);
        let total = (a.code.len() + b.code.len()) as int;
        let c = b.consts.len() as int;
        lemma_closed_weaken(a.code, 0, a.code.len() as int, a.consts.len() as int, 0, 0, total, c, 0);
        lemma_closed_shift(b.code, a.code.len() as int, 0, b.code.len() as int, c, 0);
        lemma_closed_weaken(
            shift(b.code, a.code.len() as int),
            a.code.len() as int,
            total,
            c,
            0,
            0,
            total,
            c,
            0,
        );
        lemma_closed_concat(a.code, shift(b.code, a.code.len() as int), 0, total, c, 0);
        lemma_extends_trans(b.units, a.units, units);
    }
}

/// Shifting by nothing changes nothing.
pub proof fn lemma_shift_zero(code: Seq<InstructionView>)
    ensures
        shift(code, 0) == code,
{
    assert(shift(code, 0) =~= code);
}

/// Whether the instruction `i`, if it jumps, lands at `hi` or before.
pub open spec fn lands_by(i: InstructionView, hi: int) -> bool {
    match i {
        InstructionView::JumpUnconditional(t) => t <= hi,
        InstructionView::JumpIfFalseAndPopStack(t) => t <= hi,
        InstructionView::ForIter(t) => t <= hi,
        _ => true,
    }
}

/// The top-level unit of statements that end in an expression statement
/// ends in the instruction that discards the expression's value and
/// `return None`, and no jump of it lands behind that instruction.
pub proof fn lemma_trailing_expression(ast: Seq<AST>)
    requires
        block_supported(ast, ast.len()),
        ends_in_expression(ast),
    ensures
        main_unit(ast).instructions.len() >= 3,
        main_unit(ast).instructions[main_unit(ast).instructions.len() - 3]
            == InstructionView::PopTop,
        main_unit(ast).instructions[main_unit(ast).instructions.len() - 1]
            == InstructionView::ReturnValue,
        forall|k: int|
            0 <= k < main_unit(ast).instructions.len() ==> lands_by(
                #[trigger] main_unit(ast).instructions[k],
                main_unit(ast).instructions.len() - 3,
            ),
{
    let none = Seq::<ConstView>::empty();
    let no_units = Seq::<CodeObjectView>::empty();
    let n = (ast.len() - 1) as nat;
    let expression = ast.last()->StandaloneExpr_0;
    assert(block_supported(ast, n) && stmt_supported(ast[n as int]));
    lemma_lower_block(ast, n, None, none, no_units);
    let a = lower_block(ast, n, None, none, no_units);
    lemma_lower_expr(expression, a.consts);
    let x = lower_expr(expression, a.consts);
    let last = x.code.push(InstructionView::PopTop);
    assert(lower_stmt(ast[n as int], None, a.consts, a.units).code == last);
    lemma_straight_push(x.code, InstructionView::PopTop);
    assert(shift(last, a.code.len() as int) =~= last) by {
        assert forall|k: int| 0 <= k < last.len() implies shift(last, a.code.len() as int)[k]
            == last[k] by {
            assert(shift_instruction(last[k], 1) == last[k]);
        }
    }
    let block = lower_block(ast, ast.len(), None, none, no_units);
    assert(block.code == a.code + last);
    lemma_shift_zero(block.code);
    let load = InstructionView::LoadConst(first_index(block.consts, ConstView::NoneValue));
    let raw = CodeObjectView {
        main: true,
        ..lower_unit(ast, 0, None, true, none, no_units)
    };
    let full = (a.code + last).push(load).push(InstructionView::ReturnValue);
    assert(raw.instructions == full);
    let main = main_unit(ast).instructions;
    let cut = (a.code.len() + x.code.len()) as int;
    assert(main.len() == cut + 3);
    assert(full[cut] == InstructionView::PopTop);
    assert(full[cut + 2] == InstructionView::ReturnValue);
    assert forall|k: int| 0 <= k < main.len() implies lands_by(#[trigger] main[k], cut) by {
        if k < a.code.len() {
            assert(full[k] == a.code[k]);
            assert(instruction_closed(a.code[k], 0, a.code.len() as int, a.consts.len() as int, 0));
        } else if k < cut + 1 {
            assert(full[k] == last[k - a.code.len()]);
            assert(shift_instruction(last[k - a.code.len()], 1) == last[k - a.code.len()]);
        } else if k == cut + 1 {
            assert(full[k] == load);
        } else {
            assert(full[k] == InstructionView::ReturnValue);
        }
    }
}

/// The top-level unit for interactive use is closed, as the unit is
/// from which it is made.
pub proof fn lemma_repl_code(ast: Seq<AST>)
    requires
        block_supported(ast, ast.len()),
        unit_closed(main_unit(ast)),
        names_resolved(main_unit(ast).instructions),
    ensures
        unit_closed(
            CodeObjectView {
                instructions: repl_code(ast, main_unit(ast).instructions),
                ..main_unit(ast)
            },
        ),
        names_resolved(repl_code(ast, main_unit(ast).instructions)),
{
    let unit = main_unit(ast);
    let code = unit.instructions;
    let trimmed = repl_code(ast, code);
    if ends_in_expression(ast) {
        lemma_trailing_expression(ast);
        let cut = code.len() - 3;
        assert forall|k: int| 0 <= k < trimmed.len() implies instruction_closed(
            #[trigger] trimmed[k],
            0,
            trimmed.len() as int,
            unit.consts.len() as int,
            unit.names.len() as int,
        ) && stored_name(trimmed[k]) is None && loaded_name(trimmed[k]) is None by {
            let source = if k < cut {
                code[k]
            } else {
                code[k + 1]
            };
            assert(trimmed[k] == source);
            assert(instruction_closed(
                source,
                0,
                code.len() as int,
                unit.consts.len() as int,
                unit.names.len() as int,
            ));
            assert(lands_by(source, cut));
            assert(stored_name(source) is None && loaded_name(source) is None);
        }
    }
}

/// Whether every unit of a program stays inside itself and has slots for
/// all its names.
pub open spec fn program_closed(program: ProgramView) -> bool {
    units_closed(program.code_objects)
}

/// In a compiled program every jump lands on an instruction of its own
/// unit or at the end of it, every constant index has a constant, and every
/// name slot has a name. The same holds of a program compiled for
/// interactive use.
pub proof fn lemma_program_closed(ast: Seq<AST>)
    requires
        block_supported(ast, ast.len()),
    ensures
        program_closed(lower_program(ast)),
        program_closed(lower_repl(ast)),
        lower_program(ast).code_objects.len() >= 1,
        lower_program(ast).code_objects[0].main,
        unit_loadable(lower_program(ast).code_objects[0]),
        unit_loadable(lower_repl(ast).code_objects[0]),
{
    let none = Seq::<ConstView>::empty();
    let no_units = Seq::<CodeObjectView>::empty();
    lemma_lower_block(ast, ast.len(), None, none, no_units);
    let block = lower_block(ast, ast.len(), None, none, no_units);
    lemma_shift_zero(block.code);
    lemma_finish_unit(block.code, "__main__"@, block.consts, true);
    let raw = CodeObjectView {
        main: true,
        ..lower_unit(ast, 0, None, true, none, no_units)
    };
    lemma_resolve_unit(raw);
    let main = main_unit(ast);
    assert(consts_loadable(none));
    lemma_unit_loadable(block.code, "__main__"@, block.consts, Seq::empty(), true);
    assert(raw == (CodeObjectView {
        params: Seq::empty(),
        main: true,
        ..finish_unit(block.code, "__main__"@, block.consts, true)
    }));
    lemma_repl_code(ast);
    let units = nested_units(ast);
    assert(units_closed(no_units));
    assert forall|k: int| 0 <= k < lower_program(ast).code_objects.len() implies unit_closed(
        #[trigger] lower_program(ast).code_objects[k],
    ) && names_resolved(lower_program(ast).code_objects[k].instructions) by {
        if k > 0 {
            assert(lower_program(ast).code_objects[k] == units[k - 1]);
        }
    }
    assert forall|k: int| 0 <= k < lower_repl(ast).code_objects.len() implies unit_closed(
        #[trigger] lower_repl(ast).code_objects[k],
    ) && names_resolved(lower_repl(ast).code_objects[k].instructions) by {
        if k > 0 {
            assert(lower_repl(ast).code_objects[k] == units[k - 1]);
        }
    }
}

/// A `for` loop asks its iterator at the instruction behind the code of
/// what it runs over, and leaves for the end of its code when the
/// iterator has no item: its body runs only for an item.
pub proof fn lemma_for_leaves_loop(
    iterable: Seq<InstructionView>,
    item: Seq<char>,
    body: Seq<InstructionView>,
)
    ensures
        for_code(iterable, item, body).len() == iterable.len() + body.len() + 5,
        for_code(iterable, item, body)[iterable.len() as int + 2] == InstructionView::ForIter(
            for_code(iterable, item, body).len() as int,
        ),
        for_code(iterable, item, body)[iterable.len() as int + 3] == InstructionView::UnresolvedStoreName(
            item,
        ),
        for_code(iterable, item, body).last() == InstructionView::JumpUnconditional(
            iterable.len() as int + 2,
        ),
{
}

} // verus!
