//! The table of constants only grows while a unit is compiled: the
//! constant that an instruction loads stays at the instruction's index.

use vstd::prelude::*;
use crate::ast::Expr;
use crate::ast::FunctionParameter;
use crate::ast::AST;
use crate::bytecode::lowering::branch;
use crate::bytecode::lowering::branch_count;
use crate::bytecode::lowering::default_count;
use crate::bytecode::lowering::definition_code;
use crate::bytecode::lowering::finish_consts;
use crate::bytecode::lowering::finish_unit;
use crate::bytecode::lowering::load_const;
use crate::bytecode::lowering::lower_block;
use crate::bytecode::lowering::lower_defaults;
use crate::bytecode::lowering::lower_expr;
use crate::bytecode::lowering::lower_exprs;
use crate::bytecode::lowering::lower_if;
use crate::bytecode::lowering::lower_stmt;
use crate::bytecode::lowering::main_unit;
use crate::bytecode::lowering::param_names;
use crate::bytecode::lowering::qualified_name;
use crate::bytecode::lowering::resolve_unit;
use crate::bytecode::program::CodeObjectView;
use crate::bytecode::program::ConstView;
use crate::bytecode::program::InstructionView;
use crate::bytecode::tables::extends;
use crate::bytecode::tables::first_index;
use crate::bytecode::tables::intern;
use crate::bytecode::tables::lemma_extends_trans;
use crate::bytecode::tables::lemma_intern;

verus! {

/// Every table extends itself.
pub proof fn lemma_extends_itself<T>(s: Seq<T>)
    ensures
        extends(s, s),
{
    assert(s.subrange(0, s.len() as int) =~= s);
}

/// The instruction that loads the constant `c`, emitted against the
/// table `consts`, finds `c` at its index in every table that extends
/// the one it left.
pub proof fn lemma_constant_stays(consts: Seq<ConstView>, c: ConstView, later: Seq<ConstView>)
    requires
        extends(later, load_const(consts, c).consts),
    ensures
        load_const(consts, c).code == seq![InstructionView::LoadConst(first_index(consts, c))],
        0 <= first_index(consts, c) < later.len(),
        later[first_index(consts, c)] == c,
{
    lemma_intern(consts, c);
    crate::bytecode::tables::lemma_first_index_bounds(consts, c);
    let i = first_index(consts, c);
    assert(later.subrange(0, intern(consts, c).len() as int)[i] == later[i]);
}

/// The table that the code of an expression leaves extends the one it
/// was emitted against.
pub proof fn lemma_expr_keeps_constants(e: Expr, consts: Seq<ConstView>)
    ensures
        extends(lower_expr(e, consts).consts, consts),
    decreases e, 0nat,
{
    lemma_extends_itself(consts);
    match e {
        Expr::IntegerValue(i) => lemma_intern(consts, ConstView::Integer(i)),
        Expr::FloatValue(f) => lemma_intern(consts, ConstView::Float(f.0)),
        Expr::BooleanValue(b) => lemma_intern(consts, ConstView::Boolean(b)),
        Expr::StringValue(s) => lemma_intern(consts, ConstView::String(s@)),
        Expr::NoneValue => lemma_intern(consts, ConstView::NoneValue),
        Expr::Variable(name) => {},
        Expr::MemberAccess(object, name) => {
            lemma_expr_keeps_constants(*object, consts);
        },
        Expr::IndexAccess(object, index) => {
            lemma_expr_keeps_constants(*object, consts);
            let a = lower_expr(*object, consts);
            lemma_expr_keeps_constants(*index, a.consts);
            lemma_extends_trans(lower_expr(*index, a.consts).consts, a.consts, consts);
        },
        Expr::Array(items) => {
            lemma_exprs_keep_constants(items@, items.len() as nat, consts);
        },
        Expr::FunctionCall(callee, arguments) => {
            lemma_expr_keeps_constants(*callee, consts);
            let a = lower_expr(*callee, consts);
            lemma_exprs_keep_constants(arguments@, arguments.len() as nat, a.consts);
            lemma_extends_trans(
                lower_exprs(arguments@, arguments.len() as nat, a.consts).consts,
                a.consts,
                consts,
            );
        },
        Expr::BinaryOperation(lhs, op, rhs) => {
            lemma_expr_keeps_constants(*lhs, consts);
            let a = lower_expr(*lhs, consts);
            lemma_expr_keeps_constants(*rhs, a.consts);
            lemma_extends_trans(lower_expr(*rhs, a.consts).consts, a.consts, consts);
        },
        Expr::UnaryExpression(op, operand) => {
            lemma_expr_keeps_constants(*operand, consts);
        },
        Expr::Parenthesized(inner) => {
            lemma_expr_keeps_constants(*inner, consts);
        },
    }
}

/// The table that the code of expressions leaves extends the one it was
/// emitted against.
pub proof fn lemma_exprs_keep_constants(es: Seq<Expr>, n: nat, consts: Seq<ConstView>)
    ensures
        extends(lower_exprs(es, n, consts).consts, consts),
    decreases es, n,
{
    lemma_extends_itself(consts);
    if n == 0 || n > es.len() {
    } else {
        lemma_exprs_keep_constants(es, (n - 1) as nat, consts);
        let a = lower_exprs(es, (n - 1) as nat, consts);
        lemma_expr_keeps_constants(es[n - 1], a.consts);
        lemma_extends_trans(lower_expr(es[n - 1], a.consts).consts, a.consts, consts);
    }
}

/// The table that the code of default values leaves extends the one it
/// was emitted against.
pub proof fn lemma_defaults_keep_constants(
    parameters: Seq<FunctionParameter>,
    n: nat,
    consts: Seq<ConstView>,
)
    ensures
        extends(lower_defaults(parameters, n, consts).consts, consts),
    decreases n,
{
    lemma_extends_itself(consts);
    if n == 0 || n > parameters.len() {
    } else {
        lemma_defaults_keep_constants(parameters, (n - 1) as nat, consts);
        let a = lower_defaults(parameters, (n - 1) as nat, consts);
        match parameters[n - 1] {
            FunctionParameter::Simple(_) => {},
            FunctionParameter::DefaultValue(_, value) => {
                lemma_expr_keeps_constants(value, a.consts);
                lemma_extends_trans(lower_expr(value, a.consts).consts, a.consts, consts);
            },
        }
    }
}

/// The table that the code which makes a function or class leaves
/// extends the one it was emitted against.
proof fn lemma_definition_keeps_constants(
    unit: CodeObjectView,
    maker: Seq<InstructionView>,
    name: Seq<char>,
    consts: Seq<ConstView>,
)
    ensures
        extends(definition_code(unit, maker, name, consts).consts, consts),
{
    let code_const = ConstView::CodeObject(unit);
    let with_code = intern(consts, code_const);
    lemma_intern(consts, code_const);
    lemma_intern(with_code, ConstView::String(unit.objname));
    lemma_extends_trans(intern(with_code, ConstView::String(unit.objname)), with_code, consts);
}

/// The table that the code of a statement leaves extends the one it was
/// emitted against.
pub proof fn lemma_stmt_keeps_constants(
    s: AST,
    prefix: Option<Seq<char>>,
    consts: Seq<ConstView>,
    units: Seq<CodeObjectView>,
)
    ensures
        extends(lower_stmt(s, prefix, consts, units).consts, consts),
    decreases s, branch_count(s) + 1,
{
    lemma_extends_itself(consts);
    match s {
        AST::Assign { path, expression } => {
            lemma_expr_keeps_constants(expression, consts);
        },
        AST::StandaloneExpr(expression) => {
            lemma_expr_keeps_constants(expression, consts);
        },
        AST::Return(Some(expression)) => {
            lemma_expr_keeps_constants(expression, consts);
        },
        AST::Return(None) => {
            lemma_intern(consts, ConstView::NoneValue);
        },
        AST::IfStatement { .. } => {
            lemma_branches_keep_constants(s, 0, prefix, consts, units);
        },
        AST::WhileStatement { expression, body } => {
            lemma_expr_keeps_constants(expression, consts);
            let e = lower_expr(expression, consts);
            lemma_block_keeps_constants(body@, body.len() as nat, prefix, e.consts, units);
            lemma_extends_trans(
                lower_block(body@, body.len() as nat, prefix, e.consts, units).consts,
                e.consts,
                consts,
            );
        },
        AST::ForStatement { item_name, list_expression, body } => {
            lemma_expr_keeps_constants(list_expression, consts);
            let e = lower_expr(list_expression, consts);
            lemma_block_keeps_constants(body@, body.len() as nat, prefix, e.consts, units);
            lemma_extends_trans(
                lower_block(body@, body.len() as nat, prefix, e.consts, units).consts,
                e.consts,
                consts,
            );
        },
        AST::DeclareFunction { function_name, parameters, body } => {
            let qualname = qualified_name(prefix, function_name@);
            let inner = lower_block(
                body@,
                body.len() as nat,
                Some(qualname),
                Seq::empty(),
                units,
            );
            let unit = resolve_unit(
                CodeObjectView {
                    params: param_names(parameters@),
                    ..finish_unit(inner.code, qualname, inner.consts, true)
                },
            );
            let n = parameters.len() as nat;
            lemma_defaults_keep_constants(parameters@, n, consts);
            let defaults = lower_defaults(parameters@, n, consts);
            let k = default_count(parameters@, n);
            let maker = seq![InstructionView::MakeFunction(k > 0)];
            lemma_definition_keeps_constants(unit, maker, function_name@, defaults.consts);
            lemma_extends_trans(
                definition_code(unit, maker, function_name@, defaults.consts).consts,
                defaults.consts,
                consts,
            );
        },
        AST::ClassDeclaration { class_name, body } => {
            let qualname = qualified_name(prefix, class_name@);
            let inner = lower_block(
                body@,
                body.len() as nat,
                Some(qualname),
                Seq::empty(),
                units,
            );
            let unit = resolve_unit(finish_unit(inner.code, qualname, inner.consts, true));
            lemma_definition_keeps_constants(
                unit,
                seq![InstructionView::MakeClass],
                class_name@,
                consts,
            );
        },
        AST::Raise(expression) => {
            lemma_expr_keeps_constants(expression, consts);
            let e = lower_expr(expression, consts);
            lemma_intern(e.consts, ConstView::NoneValue);
            lemma_extends_trans(intern(e.consts, ConstView::NoneValue), e.consts, consts);
        },
        AST::Break => {},
    }
}

/// The table that the code of an `if` statement leaves, from one of its
/// conditions on, extends the one it was emitted against.
pub proof fn lemma_branches_keep_constants(
    s: AST,
    j: nat,
    prefix: Option<Seq<char>>,
    consts: Seq<ConstView>,
    units: Seq<CodeObjectView>,
)
    requires
        s is IfStatement,
    ensures
        extends(lower_if(s, j, prefix, consts, units).consts, consts),
    decreases s, branch_count(s) - j,
{
    lemma_extends_itself(consts);
    if j >= branch_count(s) {
    } else {
        let b = branch(s, j);
        lemma_expr_keeps_constants(b.expression, consts);
        let condition = lower_expr(b.expression, consts);
        lemma_block_keeps_constants(
            b.statements@,
            b.statements.len() as nat,
            prefix,
            condition.consts,
            units,
        );
        let taken = lower_block(
            b.statements@,
            b.statements.len() as nat,
            prefix,
            condition.consts,
            units,
        );
        lemma_extends_trans(taken.consts, condition.consts, consts);
        if j + 1 < branch_count(s) {
            lemma_branches_keep_constants(s, j + 1, prefix, taken.consts, taken.units);
            lemma_extends_trans(
                lower_if(s, j + 1, prefix, taken.consts, taken.units).consts,
                taken.consts,
                consts,
            );
        } else {
            match s {
                AST::IfStatement { final_else: Some(stmts), .. } => {
                    lemma_block_keeps_constants(
                        stmts@,
                        stmts.len() as nat,
                        prefix,
                        taken.consts,
                        taken.units,
                    );
                    lemma_extends_trans(
                        lower_block(
                            stmts@,
                            stmts.len() as nat,
                            prefix,
                            taken.consts,
                            taken.units,
                        ).consts,
                        taken.consts,
                        consts,
                    );
                },
                _ => {},
            }
        }
    }
}

/// The table that the code of statements leaves extends the one it was
/// emitted against.
pub proof fn lemma_block_keeps_constants(
    stmts: Seq<AST>,
    n: nat,
    prefix: Option<Seq<char>>,
    consts: Seq<ConstView>,
    units: Seq<CodeObjectView>,
)
    ensures
        extends(lower_block(stmts, n, prefix, consts, units).consts, consts),
    decreases stmts, n,
{
    lemma_extends_itself(consts);
    if n == 0 || n > stmts.len() {
    } else {
        lemma_block_keeps_constants(stmts, (n - 1) as nat, prefix, consts, units);
        let a = lower_block(stmts, (n - 1) as nat, prefix, consts, units);
        lemma_stmt_keeps_constants(stmts[n - 1], prefix, a.consts, a.units);
        lemma_extends_trans(
            lower_stmt(stmts[n - 1], prefix, a.consts, a.units).consts,
            a.consts,
            consts,
        );
    }
}

/// The constants of the top-level unit extend every table that the
/// compiler went through on the way: what was emitted against the table
/// that the first `n` statements left finds its constants in the unit.
pub proof fn lemma_unit_keeps_constants(ast: Seq<AST>, n: nat)
    requires
        n <= ast.len(),
    ensures
        extends(
            main_unit(ast).consts,
            lower_block(ast, n, None, Seq::empty(), Seq::empty()).consts,
        ),
    decreases ast.len() - n,
{
    let none = Seq::<ConstView>::empty();
    let no_units = Seq::<CodeObjectView>::empty();
    let here = lower_block(ast, n, None, none, no_units);
    if n == ast.len() {
        let code = crate::bytecode::lowering::shift(here.code, 0);
        assert(main_unit(ast).consts == finish_consts(code, here.consts, true));
        lemma_intern(here.consts, ConstView::NoneValue);
        lemma_extends_itself(here.consts);
    } else {
        lemma_unit_keeps_constants(ast, n + 1);
        let next = lower_block(ast, n + 1, None, none, no_units);
        lemma_stmt_keeps_constants(ast[n as int], None, here.consts, here.units);
        lemma_extends_trans(main_unit(ast).consts, next.consts, here.consts);
    }
}

} // verus!
