//! Tidy programs: statements whose code leaves the value stack as deep
//! as it found it, so that the code of a whole program keeps to depths.

use vstd::prelude::*;
use crate::ast::Expr;
use crate::ast::FunctionParameter;
use crate::ast::AST;
use crate::bytecode::balance::admits;
use crate::bytecode::balance::keeps;
use crate::bytecode::balance::leaves_with;
use crate::bytecode::closed::lemma_lower_expr;
use crate::bytecode::closed::lemma_lower_exprs;
use crate::bytecode::closed::lemma_shift_zero;
use crate::bytecode::closed::straight;
use crate::bytecode::depths::fits;
use crate::bytecode::depths::for_depths;
use crate::bytecode::depths::joined_depths;
use crate::bytecode::depths::lemma_for_paced;
use crate::bytecode::depths::lemma_if_else_paced;
use crate::bytecode::depths::lemma_if_paced;
use crate::bytecode::depths::lemma_paced_join;
use crate::bytecode::depths::lemma_paced_push;
use crate::bytecode::depths::lemma_straight_shift;
use crate::bytecode::depths::lemma_while_paced;
use crate::bytecode::depths::paced;
use crate::bytecode::lowering::assign_target;
use crate::bytecode::lowering::binary_method;
use crate::bytecode::lowering::binary_opcode;
use crate::bytecode::lowering::block_supported;
use crate::bytecode::lowering::branch;
use crate::bytecode::lowering::branch_count;
use crate::bytecode::lowering::default_count;
use crate::bytecode::lowering::defaults_supported;
use crate::bytecode::lowering::definition_code;
use crate::bytecode::lowering::ends_in_expression;
use crate::bytecode::lowering::expr_supported;
use crate::bytecode::lowering::finish_code;
use crate::bytecode::lowering::finish_unit;
use crate::bytecode::lowering::param_names;
use crate::bytecode::lowering::qualified_name;
use crate::bytecode::lowering::all_names;
use crate::bytecode::lowering::local_names;
use crate::bytecode::lowering::lacks_return;
use crate::bytecode::lowering::load_const;
use crate::bytecode::lowering::lower_block;
use crate::bytecode::lowering::lower_defaults;
use crate::bytecode::lowering::lower_expr;
use crate::bytecode::lowering::lower_exprs;
use crate::bytecode::lowering::lower_if;
use crate::bytecode::lowering::lower_program;
use crate::bytecode::lowering::lower_repl;
use crate::bytecode::lowering::lower_stmt;
use crate::bytecode::lowering::lower_unit;
use crate::bytecode::lowering::main_unit;
use crate::bytecode::lowering::resolve_instruction;
use crate::bytecode::lowering::resolve_unit;
use crate::bytecode::lowering::shift_instruction;
use crate::bytecode::lowering::stmt_supported;
use crate::bytecode::lowering::unary_method;
use crate::bytecode::program::CodeObjectView;
use crate::bytecode::program::ConstView;
use crate::bytecode::program::InstructionView;
use crate::bytecode::tables::first_index;

verus! {

/// One instruction is a stretch.
proof fn lemma_paced_one(i: InstructionView, h: int, out: int, leave: int, exit: int)
    requires
        fits(i, 0, seq![h, out], leave, exit),
    ensures
        paced(seq![i], seq![h, out], leave, exit),
{
}

/// A stretch with straight code behind it that begins at the depth at
/// which the stretch ends.
proof fn lemma_paced_then(
    a: Seq<InstructionView>,
    da: Seq<int>,
    b: Seq<InstructionView>,
    db: Seq<int>,
    leave: int,
    exit: int,
)
    requires
        paced(a, da, leave, exit),
        paced(b, db, leave, exit),
        straight(b),
        da.last() == db[0],
    ensures
        paced(a + b, joined_depths(da, db), leave, exit),
        joined_depths(da, db)[0] == da[0],
        joined_depths(da, db).last() == db.last(),
        joined_depths(da, db).len() == a.len() + b.len() + 1,
{
    lemma_straight_shift(b, a.len() as int);
    lemma_paced_join(a, da, b, db, leave, exit);
}

/// The code of an expression is a stretch that leaves one value more than
/// it found. The result is depths that it keeps to from the depth `h`.
pub proof fn lemma_expr_paced(e: Expr, consts: Seq<ConstView>, h: int, leave: int, exit: int) -> (d:
    Seq<int>)
    requires
        expr_supported(e),
        h >= 0,
    ensures
        paced(lower_expr(e, consts).code, d, leave, exit),
        d[0] == h,
        d.last() == h + 1,
    decreases e, 0nat,
{
    let one = seq![h, h + 1];
    match e {
        Expr::IntegerValue(i) => {
            lemma_paced_one(lower_expr(e, consts).code[0], h, h + 1, leave, exit);
            assert(lower_expr(e, consts).code =~= seq![lower_expr(e, consts).code[0]]);
            one
        },
        Expr::FloatValue(f) => {
            lemma_paced_one(lower_expr(e, consts).code[0], h, h + 1, leave, exit);
            assert(lower_expr(e, consts).code =~= seq![lower_expr(e, consts).code[0]]);
            one
        },
        Expr::BooleanValue(b) => {
            lemma_paced_one(lower_expr(e, consts).code[0], h, h + 1, leave, exit);
            assert(lower_expr(e, consts).code =~= seq![lower_expr(e, consts).code[0]]);
            one
        },
        Expr::StringValue(s) => {
            lemma_paced_one(lower_expr(e, consts).code[0], h, h + 1, leave, exit);
            assert(lower_expr(e, consts).code =~= seq![lower_expr(e, consts).code[0]]);
            one
        },
        Expr::NoneValue => {
            lemma_paced_one(lower_expr(e, consts).code[0], h, h + 1, leave, exit);
            assert(lower_expr(e, consts).code =~= seq![lower_expr(e, consts).code[0]]);
            one
        },
        Expr::Variable(name) => {
            lemma_paced_one(InstructionView::UnresolvedLoadName(name@), h, h + 1, leave, exit);
            one
        },
        Expr::MemberAccess(object, name) => {
            let a = lower_expr(*object, consts);
            let da = lemma_expr_paced(*object, consts, h, leave, exit);
            lemma_paced_push(a.code, da, InstructionView::LoadAttr(name@), h + 1, leave, exit);
            da.push(h + 1)
        },
        Expr::IndexAccess(object, index) => {
            let a = lower_expr(*object, consts);
            let da = lemma_expr_paced(*object, consts, h, leave, exit);
            let b = lower_expr(*index, a.consts);
            let db = lemma_expr_paced(*index, a.consts, h + 1, leave, exit);
            lemma_lower_expr(*index, a.consts);
            lemma_paced_then(a.code, da, b.code, db, leave, exit);
            let dj = joined_depths(da, db);
            lemma_paced_push(a.code + b.code, dj, InstructionView::IndexAccess, h + 1, leave, exit);
            dj.push(h + 1)
        },
        Expr::Array(items) => {
            let a = lower_exprs(items@, items.len() as nat, consts);
            let da = lemma_exprs_paced(items@, items.len() as nat, consts, h, leave, exit);
            lemma_paced_push(
                a.code,
                da,
                InstructionView::BuildList { number_elements: items.len() as int },
                h + 1,
                leave,
                exit,
            );
            da.push(h + 1)
        },
        Expr::FunctionCall(callee, arguments) => {
            let a = lower_expr(*callee, consts);
            let da = lemma_expr_paced(*callee, consts, h, leave, exit);
            let n = arguments.len() as nat;
            let b = lower_exprs(arguments@, n, a.consts);
            let db = lemma_exprs_paced(arguments@, n, a.consts, h + 1, leave, exit);
            lemma_lower_exprs(arguments@, n, a.consts);
            lemma_paced_then(a.code, da, b.code, db, leave, exit);
            let dj = joined_depths(da, db);
            lemma_paced_push(
                a.code + b.code,
                dj,
                InstructionView::CallFunction { number_arguments: n as int },
                h + 1,
                leave,
                exit,
            );
            dj.push(h + 1)
        },
        Expr::BinaryOperation(lhs, op, rhs) => {
            let a = lower_expr(*lhs, consts);
            let da = lemma_expr_paced(*lhs, consts, h, leave, exit);
            let b = lower_expr(*rhs, a.consts);
            let db = lemma_expr_paced(*rhs, a.consts, h + 1, leave, exit);
            lemma_lower_expr(*rhs, a.consts);
            match binary_method(op) {
                Some(method) => {
                    let load = InstructionView::LoadAttr(method);
                    lemma_paced_push(a.code, da, load, h + 1, leave, exit);
                    lemma_paced_then(a.code.push(load), da.push(h + 1), b.code, db, leave, exit);
                    let dj = joined_depths(da.push(h + 1), db);
                    lemma_paced_push(
                        a.code.push(load) + b.code,
                        dj,
                        InstructionView::CallFunction { number_arguments: 1 },
                        h + 1,
                        leave,
                        exit,
                    );
                    dj.push(h + 1)
                },
                None => {
                    lemma_paced_then(a.code, da, b.code, db, leave, exit);
                    let dj = joined_depths(da, db);
                    lemma_paced_push(
                        a.code + b.code,
                        dj,
                        binary_opcode(op).unwrap(),
                        h + 1,
                        leave,
                        exit,
                    );
                    dj.push(h + 1)
                },
            }
        },
        Expr::UnaryExpression(op, operand) => {
            let a = lower_expr(*operand, consts);
            let da = lemma_expr_paced(*operand, consts, h, leave, exit);
            let load = InstructionView::LoadAttr(unary_method(op).unwrap());
            lemma_paced_push(a.code, da, load, h + 1, leave, exit);
            lemma_paced_push(
                a.code.push(load),
                da.push(h + 1),
                InstructionView::CallFunction { number_arguments: 0 },
                h + 1,
                leave,
                exit,
            );
            da.push(h + 1).push(h + 1)
        },
        Expr::Parenthesized(inner) => one,
    }
}

/// The code of `n` expressions is a stretch that leaves `n` values more
/// than it found. The result is depths that it keeps to from the depth
/// `h`.
pub proof fn lemma_exprs_paced(
    es: Seq<Expr>,
    n: nat,
    consts: Seq<ConstView>,
    h: int,
    leave: int,
    exit: int,
) -> (d: Seq<int>)
    requires
        forall|i: int| 0 <= i < es.len() ==> expr_supported(#[trigger] es[i]),
        n <= es.len(),
        h >= 0,
    ensures
        paced(lower_exprs(es, n, consts).code, d, leave, exit),
        d[0] == h,
        d.last() == h + n,
    decreases es, n,
{
    if n == 0 {
        seq![h]
    } else {
        let a = lower_exprs(es, (n - 1) as nat, consts);
        let da = lemma_exprs_paced(es, (n - 1) as nat, consts, h, leave, exit);
        let b = lower_expr(es[n - 1], a.consts);
        let db = lemma_expr_paced(es[n - 1], a.consts, h + n - 1, leave, exit);
        lemma_lower_expr(es[n - 1], a.consts);
        lemma_paced_then(a.code, da, b.code, db, leave, exit);
        joined_depths(da, db)
    }
}

/// The code of the default values among the first `n` parameters is a
/// stretch that leaves one value for each of them.
pub proof fn lemma_defaults_paced(
    parameters: Seq<FunctionParameter>,
    n: nat,
    consts: Seq<ConstView>,
    h: int,
    leave: int,
    exit: int,
) -> (d: Seq<int>)
    requires
        defaults_supported(parameters),
        n <= parameters.len(),
        h >= 0,
    ensures
        paced(lower_defaults(parameters, n, consts).code, d, leave, exit),
        d[0] == h,
        d.last() == h + default_count(parameters, n),
    decreases n,
{
    if n == 0 {
        seq![h]
    } else {
        let a = lower_defaults(parameters, (n - 1) as nat, consts);
        let da = lemma_defaults_paced(parameters, (n - 1) as nat, consts, h, leave, exit);
        match parameters[n - 1] {
            FunctionParameter::Simple(_) => da,
            FunctionParameter::DefaultValue(_, value) => {
                let b = lower_expr(value, a.consts);
                let db = lemma_expr_paced(value, a.consts, da.last(), leave, exit);
                lemma_lower_expr(value, a.consts);
                lemma_paced_then(a.code, da, b.code, db, leave, exit);
                joined_depths(da, db)
            },
        }
    }
}

/// The depths of the code that stores into a target of `n` components
/// the value on top of `level` others.
pub open spec fn target_depths(n: int, level: int) -> Seq<int> {
    Seq::new(
        (n + 1) as nat,
        |x: int|
            if x == n {
                level
            } else if x == 0 {
                level + 1
            } else {
                level + 2
            },
    )
}

/// The code that stores into a target is straight, and a stretch that
/// takes the value it stores.
pub proof fn lemma_target_paced(path: Seq<Seq<char>>, level: int, leave: int, exit: int)
    requires
        path.len() >= 1,
        level >= 0,
    ensures
        paced(assign_target(path), target_depths(path.len() as int, level), leave, exit),
        straight(assign_target(path)),
        target_depths(path.len() as int, level)[0] == level + 1,
        target_depths(path.len() as int, level).last() == level,
{
}

/// Whether the code of the statement `s` leaves the value stack as deep
/// as it found it, at the depth `level`, where a `break` leaves its loop
/// with the depth `exit`, and the unit returns with `leave` values left.
///
/// A `return` must stand where the stack holds as many values as the unit
/// leaves; a `break` where it holds as many as its loop leaves, which no
/// place in the body of a `for` loop is, other than inside a `while`
/// loop; and a function definition must have a default value, for only
/// then is the list of the default values taken off the stack.
pub open spec fn stmt_tidy(s: AST, level: int, exit: int, leave: int) -> bool
    decreases s, 0nat,
{
    match s {
        AST::Return(_) => level == leave,
        AST::Break => level == exit,
        AST::IfStatement { true_branch, elifs, final_else } => {
            &&& block_tidy(
                true_branch.statements@,
                true_branch.statements.len() as nat,
                level,
                exit,
                leave,
            )
            &&& forall|j: int|
                0 <= j < elifs.len() ==> block_tidy(
                    (#[trigger] elifs[j]).statements@,
                    elifs[j].statements.len() as nat,
                    level,
                    exit,
                    leave,
                )
            &&& match final_else {
                Some(stmts) => block_tidy(stmts@, stmts.len() as nat, level, exit, leave),
                None => true,
            }
        },
        AST::WhileStatement { expression, body } => block_tidy(
            body@,
            body.len() as nat,
            level,
            level,
            leave,
        ),
        AST::ForStatement { item_name, list_expression, body } => block_tidy(
            body@,
            body.len() as nat,
            level + 1,
            level,
            leave,
        ),
        AST::DeclareFunction { function_name, parameters, body } => default_count(
            parameters@,
            parameters.len() as nat,
        ) > 0,
        _ => true,
    }
}

/// Whether the first `n` statements are tidy.
pub open spec fn block_tidy(stmts: Seq<AST>, n: nat, level: int, exit: int, leave: int) -> bool
    decreases stmts, n,
{
    if n == 0 || n > stmts.len() {
        true
    } else {
        block_tidy(stmts, (n - 1) as nat, level, exit, leave) && stmt_tidy(
            stmts[n - 1],
            level,
            exit,
            leave,
        )
    }
}

/// The depths of the code that makes a function or a class and stores it,
/// where `before` values are on the stack that the making takes.
pub open spec fn definition_depths(level: int, before: int) -> Seq<int> {
    seq![level + before, level + before + 1, level + before + 2, level + 1, level]
}

/// The code that makes a function or a class and stores it is straight,
/// and a stretch that takes what the making takes.
proof fn lemma_definition_paced(
    unit: CodeObjectView,
    maker: InstructionView,
    before: int,
    name: Seq<char>,
    consts: Seq<ConstView>,
    level: int,
    leave: int,
    exit: int,
)
    requires
        level >= 0,
        maker == InstructionView::MakeClass && before == 0 || maker
            == InstructionView::MakeFunction(true) && before == 1,
    ensures
        paced(
            definition_code(unit, seq![maker], name, consts).code,
            definition_depths(level, before),
            leave,
            exit,
        ),
        straight(definition_code(unit, seq![maker], name, consts).code),
        definition_code(unit, seq![maker], name, consts).code.len() == 4,
{
    let code = definition_code(unit, seq![maker], name, consts).code;
    assert(code.len() == 4);
    assert(code[2] == maker);
    assert(code[3] == InstructionView::UnresolvedStoreName(name));
}

/// The code of a tidy statement is a stretch that ends at the depth at
/// which it begins. The result is depths that it keeps to from the depth
/// `level`.
pub proof fn lemma_stmt_paced(
    s: AST,
    prefix: Option<Seq<char>>,
    consts: Seq<ConstView>,
    units: Seq<CodeObjectView>,
    level: int,
    exit: int,
    leave: int,
) -> (d: Seq<int>)
    requires
        stmt_supported(s),
        stmt_tidy(s, level, exit, leave),
        level >= 0,
    ensures
        paced(lower_stmt(s, prefix, consts, units).code, d, leave, exit),
        d[0] == level,
        d.last() == level,
    decreases s, branch_count(s) + 1,
{
    match s {
        AST::Assign { path, expression } => {
            let e = lower_expr(expression, consts);
            let de = lemma_expr_paced(expression, consts, level, leave, exit);
            let target = assign_target(path.deep_view());
            let dt = target_depths(path.len() as int, level);
            lemma_target_paced(path.deep_view(), level, leave, exit);
            lemma_paced_then(e.code, de, target, dt, leave, exit);
            joined_depths(de, dt)
        },
        AST::StandaloneExpr(expression) => {
            let e = lower_expr(expression, consts);
            let de = lemma_expr_paced(expression, consts, level, leave, exit);
            lemma_paced_push(e.code, de, InstructionView::PopTop, level, leave, exit);
            de.push(level)
        },
        AST::Return(Some(expression)) => {
            let e = lower_expr(expression, consts);
            let de = lemma_expr_paced(expression, consts, level, leave, exit);
            lemma_paced_push(e.code, de, InstructionView::ReturnValue, level, leave, exit);
            de.push(level)
        },
        AST::Return(None) => {
            let e = load_const(consts, ConstView::NoneValue);
            let de = seq![level, level + 1];
            lemma_paced_one(e.code[0], level, level + 1, leave, exit);
            assert(e.code =~= seq![e.code[0]]);
            lemma_paced_push(e.code, de, InstructionView::ReturnValue, level, leave, exit);
            de.push(level)
        },
        AST::IfStatement { .. } => lemma_branches_paced(
            s,
            0,
            prefix,
            consts,
            units,
            level,
            exit,
            leave,
        ),
        AST::WhileStatement { expression, body } => {
            let e = lower_expr(expression, consts);
            let de = lemma_expr_paced(expression, consts, level, leave, exit);
            let b = lower_block(body@, body.len() as nat, prefix, e.consts, units);
            let db = lemma_block_paced(
                body@,
                body.len() as nat,
                prefix,
                e.consts,
                units,
                level,
                level,
                leave,
            );
            lemma_while_paced(e.code, de, b.code, db, leave, exit);
            (de + db).push(level)
        },
        AST::ForStatement { item_name, list_expression, body } => {
            let e = lower_expr(list_expression, consts);
            let de = lemma_expr_paced(list_expression, consts, level, leave, exit);
            let b = lower_block(body@, body.len() as nat, prefix, e.consts, units);
            let db = lemma_block_paced(
                body@,
                body.len() as nat,
                prefix,
                e.consts,
                units,
                level + 1,
                level,
                leave,
            );
            lemma_for_paced(e.code, de, item_name@, b.code, db, leave, exit);
            for_depths(de, db)
        },
        AST::DeclareFunction { function_name, parameters, body } => {
            let n = parameters.len() as nat;
            let defaults = lower_defaults(parameters@, n, consts);
            let dd = lemma_defaults_paced(parameters@, n, consts, level, leave, exit);
            let k = default_count(parameters@, n);
            let list = InstructionView::BuildList { number_elements: k as int };
            lemma_paced_push(defaults.code, dd, list, level + 1, leave, exit);
            let qualname = qualified_name(prefix, function_name@);
            let inner = lower_block(body@, body.len() as nat, Some(qualname), Seq::empty(), units);
            let unit = resolve_unit(
                CodeObjectView {
                    params: param_names(parameters@),
                    ..finish_unit(inner.code, qualname, inner.consts, true)
                },
            );
            let maker = InstructionView::MakeFunction(true);
            lemma_definition_paced(
                unit,
                maker,
                1,
                function_name@,
                defaults.consts,
                level,
                leave,
                exit,
            );
            let definition = definition_code(unit, seq![maker], function_name@, defaults.consts);
            lemma_paced_then(
                defaults.code.push(list),
                dd.push(level + 1),
                definition.code,
                definition_depths(level, 1),
                leave,
                exit,
            );
            joined_depths(dd.push(level + 1), definition_depths(level, 1))
        },
        AST::ClassDeclaration { class_name, body } => {
            let out = lower_stmt(s, prefix, consts, units);
            let qualname = qualified_name(prefix, class_name@);
            let inner = lower_block(body@, body.len() as nat, Some(qualname), Seq::empty(), units);
            let unit = resolve_unit(
                finish_unit(inner.code, qualname, inner.consts, true),
            );
            lemma_definition_paced(
                unit,
                InstructionView::MakeClass,
                0,
                class_name@,
                consts,
                level,
                leave,
                exit,
            );
            definition_depths(level, 0)
        },
        AST::Raise(expression) => {
            let e = lower_expr(expression, consts);
            let de = lemma_expr_paced(expression, consts, level, leave, exit);
            lemma_paced_push(e.code, de, InstructionView::Raise, leave, leave, exit);
            let load = InstructionView::LoadConst(
                first_index(e.consts, ConstView::NoneValue),
            );
            lemma_paced_push(
                e.code.push(InstructionView::Raise),
                de.push(leave),
                load,
                leave + 1,
                leave,
                exit,
            );
            lemma_paced_push(
                e.code.push(InstructionView::Raise).push(load),
                de.push(leave).push(leave + 1),
                InstructionView::ReturnValue,
                level,
                leave,
                exit,
            );
            de.push(leave).push(leave + 1).push(level)
        },
        AST::Break => {
            lemma_paced_one(InstructionView::UnresolvedBreak, level, level, leave, exit);
            seq![level, level]
        },
    }
}

/// The code of a tidy `if` statement from its `j`-th condition on is a
/// stretch that ends at the depth at which it begins.
pub proof fn lemma_branches_paced(
    s: AST,
    j: nat,
    prefix: Option<Seq<char>>,
    consts: Seq<ConstView>,
    units: Seq<CodeObjectView>,
    level: int,
    exit: int,
    leave: int,
) -> (d: Seq<int>)
    requires
        stmt_supported(s),
        s is IfStatement,
        stmt_tidy(s, level, exit, leave),
        level >= 0,
    ensures
        paced(lower_if(s, j, prefix, consts, units).code, d, leave, exit),
        d[0] == level,
        d.last() == level,
    decreases s, branch_count(s) - j,
{
    if j >= branch_count(s) {
        seq![level]
    } else {
        let b = branch(s, j);
        assert(expr_supported(b.expression) && block_supported(
            b.statements@,
            b.statements.len() as nat,
        ));
        assert(block_tidy(b.statements@, b.statements.len() as nat, level, exit, leave));
        let condition = lower_expr(b.expression, consts);
        let dc = lemma_expr_paced(b.expression, consts, level, leave, exit);
        let taken = lower_block(
            b.statements@,
            b.statements.len() as nat,
            prefix,
            condition.consts,
            units,
        );
        let dt = lemma_block_paced(
            b.statements@,
            b.statements.len() as nat,
            prefix,
            condition.consts,
            units,
            level,
            exit,
            leave,
        );
        if j + 1 < branch_count(s) {
            let otherwise = lower_if(s, j + 1, prefix, taken.consts, taken.units);
            let de = lemma_branches_paced(
                s,
                j + 1,
                prefix,
                taken.consts,
                taken.units,
                level,
                exit,
                leave,
            );
            lemma_if_else_paced(condition.code, dc, taken.code, dt, otherwise.code, de, leave, exit);
            dc + dt + de
        } else {
            match s {
                AST::IfStatement { final_else: Some(stmts), .. } => {
                    let otherwise = lower_block(
                        stmts@,
                        stmts.len() as nat,
                        prefix,
                        taken.consts,
                        taken.units,
                    );
                    let de = lemma_block_paced(
                        stmts@,
                        stmts.len() as nat,
                        prefix,
                        taken.consts,
                        taken.units,
                        level,
                        exit,
                        leave,
                    );
                    lemma_if_else_paced(
                        condition.code,
                        dc,
                        taken.code,
                        dt,
                        otherwise.code,
                        de,
                        leave,
                        exit,
                    );
                    dc + dt + de
                },
                _ => {
                    lemma_if_paced(condition.code, dc, taken.code, dt, leave, exit);
                    dc + dt
                },
            }
        }
    }
}

/// The code of tidy statements is a stretch that ends at the depth at
/// which it begins.
pub proof fn lemma_block_paced(
    stmts: Seq<AST>,
    n: nat,
    prefix: Option<Seq<char>>,
    consts: Seq<ConstView>,
    units: Seq<CodeObjectView>,
    level: int,
    exit: int,
    leave: int,
) -> (d: Seq<int>)
    requires
        block_supported(stmts, n),
        block_tidy(stmts, n, level, exit, leave),
        level >= 0,
    ensures
        paced(lower_block(stmts, n, prefix, consts, units).code, d, leave, exit),
        d[0] == level,
        d.last() == level,
    decreases stmts, n,
{
    if n == 0 || n > stmts.len() {
        seq![level]
    } else {
        let a = lower_block(stmts, (n - 1) as nat, prefix, consts, units);
        let da = lemma_block_paced(stmts, (n - 1) as nat, prefix, consts, units, level, exit, leave);
        let b = lower_stmt(stmts[n - 1], prefix, a.consts, a.units);
        let db = lemma_stmt_paced(stmts[n - 1], prefix, a.consts, a.units, level, exit, leave);
        lemma_paced_join(a.code, da, b.code, db, leave, exit);
        joined_depths(da, db)
    }
}

/// A stretch that ends at the depth that the unit leaves is one when the
/// unit is finished with a return.
pub proof fn lemma_finish_paced(
    code: Seq<InstructionView>,
    d: Seq<int>,
    consts: Seq<ConstView>,
    leave: int,
    exit: int,
) -> (r: Seq<int>)
    requires
        paced(code, d, leave, exit),
        d.last() == leave,
    ensures
        paced(finish_code(code, consts, true), r, leave, exit),
        r[0] == d[0],
        r.last() == leave,
{
    if lacks_return(code) {
        let load = InstructionView::LoadConst(first_index(consts, ConstView::NoneValue));
        lemma_paced_push(code, d, load, leave + 1, leave, exit);
        lemma_paced_push(
            code.push(load),
            d.push(leave + 1),
            InstructionView::ReturnValue,
            leave,
            leave,
            exit,
        );
        d.push(leave + 1).push(leave)
    } else {
        d
    }
}

/// An instruction keeps to the depths that it kept to before its name
/// was given a slot.
pub proof fn lemma_resolved_keeps(
    i: InstructionView,
    names: Seq<Seq<char>>,
    locals: int,
    pc: int,
    d: Seq<int>,
    leave: int,
    exit: int,
)
    requires
        fits(i, pc, d, leave, exit),
    ensures
        keeps(resolve_instruction(i, names, locals), pc, d, leave),
{
}

/// A unit whose code is a stretch from an empty stack to what the unit
/// leaves keeps to the stretch's depths once its names have slots.
pub proof fn lemma_resolved_admits(unit: CodeObjectView, d: Seq<int>, leave: int, exit: int)
    requires
        paced(unit.instructions, d, leave, exit),
        d[0] == 0,
        d.last() == leave,
    ensures
        admits(resolve_unit(unit).instructions, d, leave),
{
    let code = resolve_unit(unit).instructions;
    assert forall|pc: int| 0 <= pc < code.len() implies keeps(#[trigger] code[pc], pc, d, leave) by {
        lemma_resolved_keeps(
            unit.instructions[pc],
            all_names(unit),
            local_names(unit).len() as int,
            pc,
            d,
            leave,
            exit,
        );
    }
}

/// Whether the statements `ast`, run as a script, leave the value stack
/// as they found it: each of them is tidy at the top level, where nothing
/// is on the stack and nothing is to be left.
pub open spec fn script_tidy(ast: Seq<AST>) -> bool {
    block_tidy(ast, ast.len(), 0, 0, 0)
}

/// Whether the statements `ast` end in an expression whose value
/// interactive use keeps, and are tidy before it in a unit that leaves
/// that one value.
pub open spec fn shown_tidy(ast: Seq<AST>) -> bool {
    ends_in_expression(ast) && block_tidy(
        ast,
        (ast.len() - 1) as nat,
        0,
        0,
        1,
    )
}

/// The top-level unit of a tidy script keeps to depths by which it
/// leaves nothing on the stack. The result is such depths.
pub proof fn lemma_script_keeps_depths(ast: Seq<AST>) -> (d: Seq<int>)
    requires
        block_supported(ast, ast.len()),
        script_tidy(ast),
    ensures
        admits(main_unit(ast).instructions, d, 0),
{
    let none = Seq::<ConstView>::empty();
    let block = lower_block(ast, ast.len(), None, none, Seq::empty());
    let db = lemma_block_paced(ast, ast.len(), None, none, Seq::empty(), 0, 0, 0);
    lemma_shift_zero(block.code);
    let d = lemma_finish_paced(block.code, db, block.consts, 0, 0);
    let raw = CodeObjectView {
        main: true,
        ..lower_unit(ast, 0, None, true, none, Seq::empty())
    };
    lemma_resolved_admits(raw, d, 0, 0);
    d
}

/// A tidy script leaves nothing on the value stack: by any depths that
/// the top-level unit of its program keeps to, the unit ends with an
/// empty stack.
pub proof fn lemma_script_leaves_nothing(ast: Seq<AST>, left: int)
    requires
        block_supported(ast, ast.len()),
        script_tidy(ast),
        leaves_with(lower_program(ast).code_objects[0].instructions, left),
    ensures
        left == 0,
{
    let d = lemma_script_keeps_depths(ast);
    assert(admits(main_unit(ast).instructions, d, 0));
}

/// Statements that do not end in an expression statement leave nothing
/// on the value stack in interactive use if they are a tidy script.
pub proof fn lemma_repl_leaves_nothing(ast: Seq<AST>, left: int)
    requires
        block_supported(ast, ast.len()),
        script_tidy(ast),
        !ends_in_expression(ast),
        leaves_with(lower_repl(ast).code_objects[0].instructions, left),
    ensures
        left == 0,
{
    let d = lemma_script_keeps_depths(ast);
    assert(admits(main_unit(ast).instructions, d, 0));
}

/// The top-level unit for interactive use of statements that end in an
/// expression keeps to depths by which it leaves one value on the stack.
/// The result is such depths.
pub proof fn lemma_repl_keeps_depths(ast: Seq<AST>) -> (d: Seq<int>)
    requires
        block_supported(ast, ast.len()),
        shown_tidy(ast),
    ensures
        admits(lower_repl(ast).code_objects[0].instructions, d, 1),
{
    let none = Seq::<ConstView>::empty();
    let n = (ast.len() - 1) as nat;
    let expression = ast.last()->StandaloneExpr_0;
    assert(block_supported(ast, n) && stmt_supported(ast[n as int]));
    let a = lower_block(ast, n, None, none, Seq::empty());
    let da = lemma_block_paced(ast, n, None, none, Seq::empty(), 0, 0, 1);
    let x = lower_expr(expression, a.consts);
    let dx = lemma_expr_paced(expression, a.consts, 0, 1, 0);
    lemma_lower_expr(expression, a.consts);
    lemma_paced_then(a.code, da, x.code, dx, 1, 0);
    let dj = joined_depths(da, dx);
    let load = InstructionView::LoadConst(first_index(x.consts, ConstView::NoneValue));
    lemma_paced_push(a.code + x.code, dj, load, 2, 1, 0);
    lemma_paced_push((a.code + x.code).push(load), dj.push(2), InstructionView::ReturnValue, 1, 1, 0);
    let kept = (a.code + x.code).push(load).push(InstructionView::ReturnValue);
    let d = dj.push(2).push(1);
    let block = lower_block(ast, ast.len(), None, none, Seq::empty());
    let last = x.code.push(InstructionView::PopTop);
    assert(lower_stmt(ast[n as int], None, a.consts, a.units).code == last);
    assert(straight(last)) by {
        assert forall|k: int| 0 <= k < last.len() implies shift_instruction(
            #[trigger] last[k],
            1,
        ) == last[k] && last[k] != InstructionView::UnresolvedBreak by {
            if k < x.code.len() {
                assert(last[k] == x.code[k]);
            }
        }
    }
    lemma_straight_shift(last, a.code.len() as int);
    assert(block.code == a.code + last);
    assert(block.consts == x.consts);
    lemma_shift_zero(block.code);
    let raw = CodeObjectView {
        main: true,
        ..lower_unit(ast, 0, None, true, none, Seq::empty())
    };
    let full = (a.code + last).push(load).push(InstructionView::ReturnValue);
    assert(raw.instructions == full);
    let main = main_unit(ast).instructions;
    let names = all_names(raw);
    let locals = local_names(raw).len() as int;
    let cut = (a.code.len() + x.code.len()) as int;
    assert(main.len() == cut + 3);
    assert(full[cut] == InstructionView::PopTop);
    assert(main[cut] == InstructionView::PopTop);
    let trimmed = main.remove(cut);
    assert(trimmed == lower_repl(ast).code_objects[0].instructions);
    assert forall|pc: int| 0 <= pc < trimmed.len() implies keeps(
        #[trigger] trimmed[pc],
        pc,
        d,
        1,
    ) by {
        lemma_resolved_keeps(kept[pc], names, locals, pc, d, 1, 0);
        if pc < a.code.len() {
            assert(kept[pc] == a.code[pc]);
            assert(full[pc] == a.code[pc]);
            assert(fits(a.code[pc], pc, da, 1, 0));
        } else if pc < cut {
            assert(kept[pc] == x.code[pc - a.code.len()]);
            assert(full[pc] == last[pc - a.code.len()]);
            assert(shift_instruction(x.code[pc - a.code.len()], 1)
                == x.code[pc - a.code.len()]);
        } else if pc == cut {
            assert(kept[pc] == load);
            assert(full[pc + 1] == load);
        } else {
            assert(kept[pc] == InstructionView::ReturnValue);
            assert(full[pc + 1] == InstructionView::ReturnValue);
        }
        assert(trimmed[pc] == resolve_instruction(kept[pc], names, locals));
    }
    d
}

/// Statements that end in an expression, and are tidy before it, leave
/// one value on the value stack in interactive use: by any depths that
/// the top-level unit of their program keeps to, the unit ends with one
/// value on the stack.
pub proof fn lemma_repl_leaves_value(ast: Seq<AST>, left: int)
    requires
        block_supported(ast, ast.len()),
        shown_tidy(ast),
        leaves_with(lower_repl(ast).code_objects[0].instructions, left),
    ensures
        left == 1,
{
    let d = lemma_repl_keeps_depths(ast);
    assert(admits(lower_repl(ast).code_objects[0].instructions, d, 1));
}

} // verus!
