//! Where every `break` stands in a loop, no instruction of the compiled
//! program waits for a loop.

use vstd::prelude::*;
use crate::ast::Expr;
use crate::ast::FunctionParameter;
use crate::ast::AST;
use crate::bytecode::closed::lemma_lower_defaults;
use crate::bytecode::closed::lemma_lower_expr;
use crate::bytecode::closed::lemma_shift_zero;
use crate::bytecode::closed::straight;
use crate::bytecode::lowering::assign_target;
use crate::bytecode::lowering::block_supported;
use crate::bytecode::lowering::branch;
use crate::bytecode::lowering::branch_count;
use crate::bytecode::lowering::default_count;
use crate::bytecode::lowering::definition_code;
use crate::bytecode::lowering::expr_supported;
use crate::bytecode::lowering::finish_unit;
use crate::bytecode::lowering::for_code;
use crate::bytecode::lowering::if_code;
use crate::bytecode::lowering::if_else_code;
use crate::bytecode::lowering::lower_block;
use crate::bytecode::lowering::lower_defaults;
use crate::bytecode::lowering::lower_expr;
use crate::bytecode::lowering::lower_exprs;
use crate::bytecode::lowering::lower_if;
use crate::bytecode::lowering::lower_program;
use crate::bytecode::lowering::lower_repl;
use crate::bytecode::lowering::repl_code;
use crate::bytecode::lowering::lower_stmt;
use crate::bytecode::lowering::main_unit;
use crate::bytecode::lowering::nested_units;
use crate::bytecode::lowering::param_names;
use crate::bytecode::lowering::patch_breaks;
use crate::bytecode::lowering::qualified_name;
use crate::bytecode::lowering::resolve_unit;
use crate::bytecode::lowering::shift;
use crate::bytecode::lowering::stmt_supported;
use crate::bytecode::lowering::while_code;
use crate::bytecode::program::CodeObjectView;
use crate::bytecode::program::ConstView;
use crate::bytecode::program::InstructionView;
use crate::bytecode::tables::intern;

verus! {

/// Whether no instruction of `code` waits for a loop to leave.
pub open spec fn break_free(code: Seq<InstructionView>) -> bool {
    forall|k: int| 0 <= k < code.len() ==> #[trigger] code[k] != InstructionView::UnresolvedBreak
}

/// Whether no instruction of the unit waits for a loop, nor one of a
/// unit among its constants, or among theirs.
pub open spec fn unit_break_free(unit: CodeObjectView) -> bool
    decreases unit,
{
    break_free(unit.instructions) && forall|k: int|
        0 <= k < unit.consts.len() ==> ((#[trigger] unit.consts[k]) matches ConstView::CodeObject(
            inner,
        ) ==> unit_break_free(inner))
}

/// Whether no instruction of a unit among the constants waits for a loop.
pub open spec fn consts_break_free(consts: Seq<ConstView>) -> bool {
    forall|k: int|
        0 <= k < consts.len() ==> ((#[trigger] consts[k]) matches ConstView::CodeObject(inner)
            ==> unit_break_free(inner))
}

/// Whether no instruction of one of the units waits for a loop.
pub open spec fn units_break_free(units: Seq<CodeObjectView>) -> bool {
    forall|k: int| 0 <= k < units.len() ==> unit_break_free(#[trigger] units[k])
}

/// Whether every `break` of the statement stands in a loop, where
/// `in_loop` says whether the statement itself stands in one. The body
/// of a function or class begins outside every loop.
pub open spec fn stmt_contained(s: AST, in_loop: bool) -> bool
    decreases s, 0nat,
{
    match s {
        AST::Break => in_loop,
        AST::IfStatement { true_branch, elifs, final_else } => {
            &&& block_contained(
                true_branch.statements@,
                true_branch.statements.len() as nat,
                in_loop,
            )
            &&& forall|j: int|
                0 <= j < elifs.len() ==> block_contained(
                    (#[trigger] elifs[j]).statements@,
                    elifs[j].statements.len() as nat,
                    in_loop,
                )
            &&& match final_else {
                Some(stmts) => block_contained(stmts@, stmts.len() as nat, in_loop),
                None => true,
            }
        },
        AST::WhileStatement { expression, body } => block_contained(
            body@,
            body.len() as nat,
            true,
        ),
        AST::ForStatement { item_name, list_expression, body } => block_contained(
            body@,
            body.len() as nat,
            true,
        ),
        AST::DeclareFunction { function_name, parameters, body } => block_contained(
            body@,
            body.len() as nat,
            false,
        ),
        AST::ClassDeclaration { class_name, body } => block_contained(
            body@,
            body.len() as nat,
            false,
        ),
        _ => true,
    }
}

/// Whether every `break` of the first `n` statements stands in a loop.
pub open spec fn block_contained(stmts: Seq<AST>, n: nat, in_loop: bool) -> bool
    decreases stmts, n,
{
    if n == 0 || n > stmts.len() {
        true
    } else {
        block_contained(stmts, (n - 1) as nat, in_loop) && stmt_contained(stmts[n - 1], in_loop)
    }
}

/// Straight code waits for no loop.
proof fn lemma_straight_free(code: Seq<InstructionView>)
    requires
        straight(code),
    ensures
        break_free(code),
{
}

/// Code that waits for no loop does not where it is placed further on.
proof fn lemma_shift_free(code: Seq<InstructionView>, by: int)
    requires
        break_free(code),
    ensures
        break_free(shift(code, by)),
{
    assert forall|k: int| 0 <= k < shift(code, by).len() implies #[trigger] shift(code, by)[k]
        != InstructionView::UnresolvedBreak by {
        assert(code[k] != InstructionView::UnresolvedBreak);
    }
}

/// Once every waiting `break` jumps, none waits.
proof fn lemma_patched_free(code: Seq<InstructionView>, target: int)
    ensures
        break_free(patch_breaks(code, target)),
{
}

/// Two pieces of code that wait for no loop make one.
proof fn lemma_concat_free(a: Seq<InstructionView>, b: Seq<InstructionView>)
    requires
        break_free(a),
        break_free(b),
    ensures
        break_free(a + b),
{
    assert forall|k: int| 0 <= k < (a + b).len() implies #[trigger] (a + b)[k]
        != InstructionView::UnresolvedBreak by {
        if k < a.len() {
            assert(a[k] != InstructionView::UnresolvedBreak);
        } else {
            assert(b[k - a.len()] != InstructionView::UnresolvedBreak);
        }
    }
}

/// A choice between code that waits for no loop waits for none.
proof fn lemma_if_free(
    c: Seq<InstructionView>,
    t: Seq<InstructionView>,
    e: Seq<InstructionView>,
)
    requires
        break_free(c),
        break_free(t),
        break_free(e),
    ensures
        break_free(if_code(c, t)),
        break_free(if_else_code(c, t, e)),
{
    let n = c.len() as int;
    let m = t.len() as int;
    lemma_shift_free(t, n + 1);
    lemma_shift_free(e, n + m + 2);
    let head = c.push(InstructionView::JumpIfFalseAndPopStack(n + m + 1));
    assert(break_free(head)) by {
        assert forall|k: int| 0 <= k < head.len() implies #[trigger] head[k]
            != InstructionView::UnresolvedBreak by {
            if k < n {
                assert(c[k] != InstructionView::UnresolvedBreak);
            }
        }
    }
    lemma_concat_free(head, shift(t, n + 1));
    let head2 = c.push(InstructionView::JumpIfFalseAndPopStack(n + m + 2));
    assert(break_free(head2)) by {
        assert forall|k: int| 0 <= k < head2.len() implies #[trigger] head2[k]
            != InstructionView::UnresolvedBreak by {
            if k < n {
                assert(c[k] != InstructionView::UnresolvedBreak);
            }
        }
    }
    lemma_concat_free(head2, shift(t, n + 1));
    let front = (head2 + shift(t, n + 1)).push(
        InstructionView::JumpUnconditional(n + m + 2 + e.len()),
    );
    assert(break_free(front)) by {
        assert forall|k: int| 0 <= k < front.len() implies #[trigger] front[k]
            != InstructionView::UnresolvedBreak by {
            if k < front.len() - 1 {
                assert((head2 + shift(t, n + 1))[k] != InstructionView::UnresolvedBreak);
            }
        }
    }
    lemma_concat_free(front, shift(e, n + m + 2));
}

/// A loop waits for no loop, whatever its body does, if what it begins
/// with does not.
proof fn lemma_loops_free(
    c: Seq<InstructionView>,
    item: Seq<char>,
    b: Seq<InstructionView>,
)
    requires
        break_free(c),
    ensures
        break_free(while_code(c, b)),
        break_free(for_code(c, item, b)),
{
    let n = c.len() as int;
    let m = b.len() as int;
    let w = while_code(c, b);
    assert forall|k: int| 0 <= k < w.len() implies #[trigger] w[k]
        != InstructionView::UnresolvedBreak by {
        if k < n {
            assert(w[k] == c[k]);
        } else if k == n {
        } else if k < n + 1 + m {
            assert(w[k] == patch_breaks(shift(b, n + 1), n + m + 2)[k - n - 1]);
        } else {
        }
    }
    let f = for_code(c, item, b);
    let h = n + 2;
    assert forall|k: int| 0 <= k < f.len() implies #[trigger] f[k]
        != InstructionView::UnresolvedBreak by {
        if k < n {
            assert(f[k] == c[k]);
        } else if k < n + 4 {
        } else if k < h + 2 + m {
            assert(f[k] == patch_breaks(shift(b, h + 2), h + m + 3)[k - h - 2]);
        } else {
        }
    }
}

/// Interning a constant that waits for no loop keeps the constants so.
proof fn lemma_intern_free(consts: Seq<ConstView>, c: ConstView)
    requires
        consts_break_free(consts),
        c matches ConstView::CodeObject(inner) ==> unit_break_free(inner),
    ensures
        consts_break_free(intern(consts, c)),
{
    let out = intern(consts, c);
    assert forall|k: int| 0 <= k < out.len() implies ((#[trigger] out[k])
        matches ConstView::CodeObject(inner) ==> unit_break_free(inner)) by {
        if k < consts.len() {
            assert(out[k] == consts[k]);
        }
    }
}

/// The code of an expression adds no unit to the constants.
proof fn lemma_expr_free(e: Expr, consts: Seq<ConstView>)
    requires
        consts_break_free(consts),
    ensures
        consts_break_free(lower_expr(e, consts).consts),
    decreases e, 0nat,
{
    match e {
        Expr::IntegerValue(i) => lemma_intern_free(consts, ConstView::Integer(i)),
        Expr::FloatValue(f) => lemma_intern_free(consts, ConstView::Float(f.0)),
        Expr::BooleanValue(b) => lemma_intern_free(consts, ConstView::Boolean(b)),
        Expr::StringValue(s) => lemma_intern_free(consts, ConstView::String(s@)),
        Expr::NoneValue => lemma_intern_free(consts, ConstView::NoneValue),
        Expr::Variable(name) => {},
        Expr::MemberAccess(object, name) => {
            lemma_expr_free(*object, consts);
        },
        Expr::IndexAccess(object, index) => {
            lemma_expr_free(*object, consts);
            lemma_expr_free(*index, lower_expr(*object, consts).consts);
        },
        Expr::Array(items) => {
            lemma_exprs_free(items@, items.len() as nat, consts);
        },
        Expr::FunctionCall(callee, arguments) => {
            lemma_expr_free(*callee, consts);
            lemma_exprs_free(
                arguments@,
                arguments.len() as nat,
                lower_expr(*callee, consts).consts,
            );
        },
        Expr::BinaryOperation(lhs, op, rhs) => {
            lemma_expr_free(*lhs, consts);
            lemma_expr_free(*rhs, lower_expr(*lhs, consts).consts);
        },
        Expr::UnaryExpression(op, operand) => {
            lemma_expr_free(*operand, consts);
        },
        Expr::Parenthesized(inner) => {
            lemma_expr_free(*inner, consts);
        },
    }
}

/// The code of expressions adds no unit to the constants.
proof fn lemma_exprs_free(es: Seq<Expr>, n: nat, consts: Seq<ConstView>)
    requires
        consts_break_free(consts),
    ensures
        consts_break_free(lower_exprs(es, n, consts).consts),
    decreases es, n,
{
    if n == 0 || n > es.len() {
    } else {
        lemma_exprs_free(es, (n - 1) as nat, consts);
        lemma_expr_free(es[n - 1], lower_exprs(es, (n - 1) as nat, consts).consts);
    }
}

/// The code of default values adds no unit to the constants.
proof fn lemma_defaults_free(parameters: Seq<FunctionParameter>, n: nat, consts: Seq<ConstView>)
    requires
        consts_break_free(consts),
    ensures
        consts_break_free(lower_defaults(parameters, n, consts).consts),
    decreases n,
{
    if n == 0 || n > parameters.len() {
    } else {
        lemma_defaults_free(parameters, (n - 1) as nat, consts);
        match parameters[n - 1] {
            FunctionParameter::Simple(_) => {},
            FunctionParameter::DefaultValue(_, value) => {
                lemma_expr_free(value, lower_defaults(parameters, (n - 1) as nat, consts).consts);
            },
        }
    }
}

/// A unit that is made of code and constants which wait for no loop
/// waits for none.
proof fn lemma_unit_free(
    code: Seq<InstructionView>,
    objname: Seq<char>,
    consts: Seq<ConstView>,
    params: Seq<Seq<char>>,
    main: bool,
)
    requires
        break_free(code),
        consts_break_free(consts),
    ensures
        unit_break_free(
            resolve_unit(
                CodeObjectView { params, main, ..finish_unit(code, objname, consts, true) },
            ),
        ),
{
    let raw = CodeObjectView { params, main, ..finish_unit(code, objname, consts, true) };
    let unit = resolve_unit(raw);
    lemma_intern_free(consts, ConstView::NoneValue);
    assert forall|k: int| 0 <= k < raw.instructions.len() implies #[trigger] raw.instructions[k]
        != InstructionView::UnresolvedBreak by {
        if k < code.len() {
            assert(raw.instructions[k] == code[k]);
        }
    }
    assert forall|k: int| 0 <= k < unit.instructions.len() implies #[trigger] unit.instructions[k]
        != InstructionView::UnresolvedBreak by {
        assert(raw.instructions[k] != InstructionView::UnresolvedBreak);
    }
}

/// What holds of the code of statements whose every `break` stands in a
/// loop: no unit that it adds waits for a loop, and outside a loop the
/// code itself does not.
pub open spec fn contained_code(
    code: Seq<InstructionView>,
    consts: Seq<ConstView>,
    units: Seq<CodeObjectView>,
    in_loop: bool,
) -> bool {
    &&& consts_break_free(consts)
    &&& units_break_free(units)
    &&& !in_loop ==> break_free(code)
}

/// The code of a statement whose every `break` stands in a loop.
pub proof fn lemma_stmt_contained(
    s: AST,
    prefix: Option<Seq<char>>,
    consts: Seq<ConstView>,
    units: Seq<CodeObjectView>,
    in_loop: bool,
)
    requires
        stmt_supported(s),
        stmt_contained(s, in_loop),
        consts_break_free(consts),
        units_break_free(units),
    ensures
        contained_code(
            lower_stmt(s, prefix, consts, units).code,
            lower_stmt(s, prefix, consts, units).consts,
            lower_stmt(s, prefix, consts, units).units,
            in_loop,
        ),
    decreases s, branch_count(s) + 1,
{
    let out = lower_stmt(s, prefix, consts, units);
    match s {
        AST::Assign { path, expression } => {
            lemma_expr_free(expression, consts);
            lemma_lower_expr(expression, consts);
            let e = lower_expr(expression, consts);
            lemma_straight_free(e.code);
            let target = assign_target(path.deep_view());
            assert(break_free(target));
            lemma_concat_free(e.code, target);
        },
        AST::StandaloneExpr(expression) => {
            lemma_expr_free(expression, consts);
            lemma_lower_expr(expression, consts);
            let e = lower_expr(expression, consts);
            lemma_straight_free(e.code);
            lemma_concat_free(e.code, seq![InstructionView::PopTop]);
            assert(e.code + seq![InstructionView::PopTop] =~= out.code);
        },
        AST::Return(Some(expression)) => {
            lemma_expr_free(expression, consts);
            lemma_lower_expr(expression, consts);
            let e = lower_expr(expression, consts);
            lemma_straight_free(e.code);
            lemma_concat_free(e.code, seq![InstructionView::ReturnValue]);
            assert(e.code + seq![InstructionView::ReturnValue] =~= out.code);
        },
        AST::Return(None) => {
            lemma_intern_free(consts, ConstView::NoneValue);
        },
        AST::IfStatement { .. } => {
            lemma_branches_contained(s, 0, prefix, consts, units, in_loop);
        },
        AST::WhileStatement { expression, body } => {
            lemma_expr_free(expression, consts);
            lemma_lower_expr(expression, consts);
            let e = lower_expr(expression, consts);
            lemma_straight_free(e.code);
            lemma_block_contained(body@, body.len() as nat, prefix, e.consts, units, true);
            let b = lower_block(body@, body.len() as nat, prefix, e.consts, units);
            lemma_loops_free(e.code, Seq::empty(), b.code);
        },
        AST::ForStatement { item_name, list_expression, body } => {
            lemma_expr_free(list_expression, consts);
            lemma_lower_expr(list_expression, consts);
            let e = lower_expr(list_expression, consts);
            lemma_straight_free(e.code);
            lemma_block_contained(body@, body.len() as nat, prefix, e.consts, units, true);
            let b = lower_block(body@, body.len() as nat, prefix, e.consts, units);
            lemma_loops_free(e.code, item_name@, b.code);
        },
        AST::DeclareFunction { function_name, parameters, body } => {
            let qualname = qualified_name(prefix, function_name@);
            let none = Seq::<ConstView>::empty();
            lemma_block_contained(body@, body.len() as nat, Some(qualname), none, units, false);
            let inner = lower_block(body@, body.len() as nat, Some(qualname), none, units);
            lemma_unit_free(inner.code, qualname, inner.consts, param_names(parameters@), false);
            let unit = resolve_unit(
                CodeObjectView {
                    params: param_names(parameters@),
                    ..finish_unit(inner.code, qualname, inner.consts, true)
                },
            );
            lemma_units_free(inner.units, unit);
            let n = parameters.len() as nat;
            lemma_defaults_free(parameters@, n, consts);
            lemma_lower_defaults(parameters@, n, consts);
            let defaults = lower_defaults(parameters@, n, consts);
            lemma_straight_free(defaults.code);
            let k = default_count(parameters@, n);
            lemma_definition_free(
                unit,
                InstructionView::MakeFunction(k > 0),
                function_name@,
                defaults.consts,
            );
            let definition = definition_code(
                unit,
                seq![InstructionView::MakeFunction(k > 0)],
                function_name@,
                defaults.consts,
            );
            let list = InstructionView::BuildList { number_elements: k as int };
            lemma_concat_free(defaults.code, seq![list]);
            assert(defaults.code + seq![list] =~= defaults.code.push(list));
            lemma_concat_free(defaults.code.push(list), definition.code);
        },
        AST::ClassDeclaration { class_name, body } => {
            let qualname = qualified_name(prefix, class_name@);
            let none = Seq::<ConstView>::empty();
            lemma_block_contained(body@, body.len() as nat, Some(qualname), none, units, false);
            let inner = lower_block(body@, body.len() as nat, Some(qualname), none, units);
            lemma_unit_free(inner.code, qualname, inner.consts, Seq::empty(), false);
            let raw = finish_unit(inner.code, qualname, inner.consts, true);
            assert(raw == (CodeObjectView {
                params: Seq::empty(),
                main: false,
                ..finish_unit(inner.code, qualname, inner.consts, true)
            }));
            let unit = resolve_unit(raw);
            lemma_units_free(inner.units, unit);
            lemma_definition_free(unit, InstructionView::MakeClass, class_name@, consts);
        },
        AST::Raise(expression) => {
            lemma_expr_free(expression, consts);
            lemma_lower_expr(expression, consts);
            let e = lower_expr(expression, consts);
            lemma_straight_free(e.code);
            lemma_intern_free(e.consts, ConstView::NoneValue);
            assert forall|k: int| 0 <= k < out.code.len() implies #[trigger] out.code[k]
                != InstructionView::UnresolvedBreak by {
                if k < e.code.len() {
                    assert(out.code[k] == e.code[k]);
                }
            }
        },
        AST::Break => {},
    }
}

/// Units that wait for no loop, with one more that does not.
proof fn lemma_units_free(units: Seq<CodeObjectView>, unit: CodeObjectView)
    requires
        units_break_free(units),
        unit_break_free(unit),
    ensures
        units_break_free(units.push(unit)),
{
    assert forall|k: int| 0 <= k < units.push(unit).len() implies unit_break_free(
        #[trigger] units.push(unit)[k],
    ) by {
        if k < units.len() {
            assert(units.push(unit)[k] == units[k]);
        }
    }
}

/// The code that makes a function or class of a unit which waits for no
/// loop waits for none, and neither do its constants.
proof fn lemma_definition_free(
    unit: CodeObjectView,
    maker: InstructionView,
    name: Seq<char>,
    consts: Seq<ConstView>,
)
    requires
        maker == InstructionView::MakeClass || maker is MakeFunction,
        unit_break_free(unit),
        consts_break_free(consts),
    ensures
        break_free(definition_code(unit, seq![maker], name, consts).code),
        consts_break_free(definition_code(unit, seq![maker], name, consts).consts),
{
    let code_const = ConstView::CodeObject(unit);
    let with_code = intern(consts, code_const);
    lemma_intern_free(consts, code_const);
    lemma_intern_free(with_code, ConstView::String(unit.objname));
    let code = definition_code(unit, seq![maker], name, consts).code;
    assert(code.len() == 4);
    assert(code[2] == maker);
}

/// The code of an `if` statement, from one of its conditions on, whose
/// every `break` stands in a loop.
pub proof fn lemma_branches_contained(
    s: AST,
    j: nat,
    prefix: Option<Seq<char>>,
    consts: Seq<ConstView>,
    units: Seq<CodeObjectView>,
    in_loop: bool,
)
    requires
        stmt_supported(s),
        s is IfStatement,
        stmt_contained(s, in_loop),
        consts_break_free(consts),
        units_break_free(units),
    ensures
        contained_code(
            lower_if(s, j, prefix, consts, units).code,
            lower_if(s, j, prefix, consts, units).consts,
            lower_if(s, j, prefix, consts, units).units,
            in_loop,
        ),
    decreases s, branch_count(s) - j,
{
    if j >= branch_count(s) {
    } else {
        let b = branch(s, j);
        assert(expr_supported(b.expression) && block_supported(
            b.statements@,
            b.statements.len() as nat,
        ));
        assert(block_contained(b.statements@, b.statements.len() as nat, in_loop));
        lemma_expr_free(b.expression, consts);
        lemma_lower_expr(b.expression, consts);
        let condition = lower_expr(b.expression, consts);
        lemma_straight_free(condition.code);
        lemma_block_contained(
            b.statements@,
            b.statements.len() as nat,
            prefix,
            condition.consts,
            units,
            in_loop,
        );
        let taken = lower_block(
            b.statements@,
            b.statements.len() as nat,
            prefix,
            condition.consts,
            units,
        );
        if j + 1 < branch_count(s) {
            lemma_branches_contained(s, j + 1, prefix, taken.consts, taken.units, in_loop);
            let otherwise = lower_if(s, j + 1, prefix, taken.consts, taken.units);
            if !in_loop {
                lemma_if_free(condition.code, taken.code, otherwise.code);
            }
        } else {
            match s {
                AST::IfStatement { final_else: Some(stmts), .. } => {
                    lemma_block_contained(
                        stmts@,
                        stmts.len() as nat,
                        prefix,
                        taken.consts,
                        taken.units,
                        in_loop,
                    );
                    let otherwise = lower_block(
                        stmts@,
                        stmts.len() as nat,
                        prefix,
                        taken.consts,
                        taken.units,
                    );
                    if !in_loop {
                        lemma_if_free(condition.code, taken.code, otherwise.code);
                    }
                },
                _ => {
                    if !in_loop {
                        lemma_if_free(condition.code, taken.code, Seq::empty());
                    }
                },
            }
        }
    }
}

/// The code of statements whose every `break` stands in a loop.
pub proof fn lemma_block_contained(
    stmts: Seq<AST>,
    n: nat,
    prefix: Option<Seq<char>>,
    consts: Seq<ConstView>,
    units: Seq<CodeObjectView>,
    in_loop: bool,
)
    requires
        block_supported(stmts, n),
        block_contained(stmts, n, in_loop),
        consts_break_free(consts),
        units_break_free(units),
    ensures
        contained_code(
            lower_block(stmts, n, prefix, consts, units).code,
            lower_block(stmts, n, prefix, consts, units).consts,
            lower_block(stmts, n, prefix, consts, units).units,
            in_loop,
        ),
    decreases stmts, n,
{
    if n == 0 || n > stmts.len() {
    } else {
        lemma_block_contained(stmts, (n - 1) as nat, prefix, consts, units, in_loop);
        let a = lower_block(stmts, (n - 1) as nat, prefix, consts, units);
        lemma_stmt_contained(stmts[n - 1], prefix, a.consts, a.units, in_loop);
        let b = lower_stmt(stmts[n - 1], prefix, a.consts, a.units);
        if !in_loop {
            lemma_shift_free(b.code, a.code.len() as int);
            lemma_concat_free(a.code, shift(b.code, a.code.len() as int));
        }
    }
}

/// Where every `break` of a program stands in a loop, no instruction of
/// the compiled program waits for a loop: none of any of its units, nor
/// of a unit among their constants, or among theirs.
pub proof fn lemma_no_break_waits(ast: Seq<AST>)
    requires
        block_supported(ast, ast.len()),
        block_contained(ast, ast.len(), false),
    ensures
        units_break_free(lower_program(ast).code_objects),
        units_break_free(lower_repl(ast).code_objects),
{
    let none = Seq::<ConstView>::empty();
    let no_units = Seq::<CodeObjectView>::empty();
    lemma_block_contained(ast, ast.len(), None, none, no_units, false);
    let block = lower_block(ast, ast.len(), None, none, no_units);
    lemma_shift_zero(block.code);
    lemma_unit_free(block.code, "__main__"@, block.consts, Seq::empty(), true);
    let units = nested_units(ast);
    let all = lower_program(ast).code_objects;
    assert(main_unit(ast) == resolve_unit(
        CodeObjectView {
            params: Seq::empty(),
            main: true,
            ..finish_unit(block.code, "__main__"@, block.consts, true)
        },
    ));
    assert forall|k: int| 0 <= k < all.len() implies unit_break_free(#[trigger] all[k]) by {
        if k > 0 {
            assert(all[k] == units[k - 1]);
        }
    }
    let shown = lower_repl(ast).code_objects;
    let main = main_unit(ast);
    let code = repl_code(ast, main.instructions);
    assert forall|k: int| 0 <= k < code.len() implies #[trigger] code[k]
        != InstructionView::UnresolvedBreak by {
        if code.len() == main.instructions.len() {
            assert(main.instructions[k] != InstructionView::UnresolvedBreak);
        } else {
            let cut = main.instructions.len() - 3;
            if k < cut {
                assert(main.instructions[k] != InstructionView::UnresolvedBreak);
            } else {
                assert(main.instructions[k + 1] != InstructionView::UnresolvedBreak);
            }
        }
    }
    assert forall|k: int| 0 <= k < shown.len() implies unit_break_free(#[trigger] shown[k]) by {
        if k > 0 {
            assert(shown[k] == units[k - 1]);
        } else {
            assert(shown[0].consts == main.consts);
        }
    }
}

} // verus!
