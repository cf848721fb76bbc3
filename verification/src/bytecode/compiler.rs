//! The compiler: syntax tree in, code objects out.

use vstd::prelude::*;
use crate::ast::ASTIfStatement;
use crate::ast::Expr;
use crate::ast::FunctionParameter;
use crate::ast::AST;
use crate::bytecode::closed::lemma_lower_block;
use crate::bytecode::closed::lemma_program_closed;
use crate::bytecode::closed::lemma_shift_zero;
use crate::bytecode::closed::program_closed;
use crate::bytecode::closed::lemma_lower_if;
use crate::bytecode::closed::lemma_lower_stmt;
use crate::bytecode::closed::code_closed;
use crate::bytecode::closed::lemma_extends_contains;
use crate::bytecode::closed::lemma_names_with_loads;
use crate::bytecode::closed::lemma_names_with_stores;
use crate::bytecode::closed::instruction_closed;
use crate::bytecode::lowering::assign_path;
use crate::bytecode::lowering::assign_target;
use crate::bytecode::lowering::binary_method;
use crate::bytecode::lowering::block_supported;
use crate::bytecode::lowering::branch;
use crate::bytecode::lowering::branch_count;
use crate::bytecode::lowering::default_count;
use crate::bytecode::lowering::defaults_supported;
use crate::bytecode::lowering::definition_code;
use crate::bytecode::lowering::for_code;
use crate::bytecode::lowering::if_code;
use crate::bytecode::lowering::if_else_code;
use crate::bytecode::lowering::lower_block;
use crate::bytecode::lowering::lower_defaults;
use crate::bytecode::lowering::lower_if;
use crate::bytecode::lowering::lower_stmt;
use crate::bytecode::lowering::lower_program;
use crate::bytecode::lowering::lower_repl;
use crate::bytecode::lowering::ends_in_expression;
use crate::bytecode::closed::lemma_trailing_expression;
use crate::bytecode::lowering::lower_unit;
use crate::bytecode::lowering::main_unit;
use crate::bytecode::lowering::nested_units;
use crate::bytecode::lowering::param_names;
use crate::bytecode::lowering::patch_breaks;
use crate::bytecode::lowering::shift;
use crate::bytecode::lowering::stmt_supported;
use crate::bytecode::lowering::while_code;
use crate::bytecode::lowering::BlockCode;
use crate::bytecode::lowering::finish_consts;
use crate::bytecode::lowering::finish_unit;
use crate::bytecode::lowering::lacks_return;
use crate::bytecode::lowering::loaded_name;
use crate::bytecode::lowering::local_names;
use crate::bytecode::lowering::names_with_loads;
use crate::bytecode::lowering::names_with_stores;
use crate::bytecode::lowering::prefix_view;
use crate::bytecode::lowering::qualified_name;
use crate::bytecode::lowering::resolve_instruction;
use crate::bytecode::lowering::resolve_unit;
use crate::bytecode::lowering::stored_name;
use crate::bytecode::lowering::binary_opcode;
use crate::bytecode::lowering::expr_supported;
use crate::bytecode::lowering::load_const;
use crate::bytecode::lowering::lower_expr;
use crate::bytecode::lowering::lower_exprs;
use crate::bytecode::lowering::patch_break;
use crate::bytecode::lowering::shift_instruction;
use crate::bytecode::lowering::unary_method;
use crate::bytecode::program::clone_names;
use crate::bytecode::program::CodeObject;
use crate::bytecode::program::Const;
use crate::bytecode::program::Instruction;
use crate::bytecode::program::InstructionView;
use crate::bytecode::program::Program;
use crate::bytecode::support::lemma_loadable_view;
use crate::bytecode::support::loadable;
use crate::bytecode::tables::extends;
use crate::bytecode::tables::intern;
use crate::bytecode::tables::intern_name;
use crate::bytecode::tables::lemma_first_index_extends;
use crate::bytecode::tables::lemma_intern;
use crate::bytecode::tables::ConstTable;
use crate::lexer::Operator;

verus! {

/// The instruction that loads `constval`, which is interned in `const_map`.
pub fn process_constval(constval: Const, const_map: &mut ConstTable) -> (r: Vec<Instruction>)
    ensures
        r.deep_view() == load_const(old(const_map)@, constval.deep_view()).code,
        final(const_map)@ == load_const(old(const_map)@, constval.deep_view()).consts,
{
    let loadconst_idx = const_map.intern(constval);
    let r = vec![Instruction::LoadConst(loadconst_idx)];
    assert(r.deep_view() =~= seq![r[0].deep_view()]);
    r
}

/// Moves the instructions of `tail` to the end of `code`.
fn append_code(code: &mut Vec<Instruction>, tail: Vec<Instruction>)
    ensures
        final(code).deep_view() == old(code).deep_view() + tail.deep_view(),
        final(code).len() == old(code).len() + tail.len(),
{
    let ghost before = code.deep_view();
    let mut tail = tail;
    let ghost moved = tail.deep_view();
    code.append(&mut tail);
    assert(code.deep_view() =~= before + moved);
}

/// Puts one instruction at the end of `code`.
fn push_code(code: &mut Vec<Instruction>, instruction: Instruction)
    ensures
        final(code).deep_view() == old(code).deep_view().push(instruction.deep_view()),
        final(code).len() == old(code).len() + 1,
{
    let ghost before = code.deep_view();
    let ghost value = instruction.deep_view();
    code.push(instruction);
    assert(code.deep_view() =~= before.push(value));
}

fn opcode_of(op: Operator) -> (r: Option<Instruction>)
    ensures
        r is Some <==> binary_opcode(op) is Some,
        r is Some ==> r.unwrap().deep_view() == binary_opcode(op).unwrap(),
{
    match op {
        Operator::Plus => Some(Instruction::BinaryAdd),
        Operator::Mod => Some(Instruction::BinaryModulus),
        Operator::Minus => Some(Instruction::BinarySubtract),
        Operator::Multiply => Some(Instruction::BinaryMultiply),
        Operator::Divide => Some(Instruction::BinaryTrueDivision),
        Operator::Less => Some(Instruction::CompareLessThan),
        Operator::Greater => Some(Instruction::CompareGreaterThan),
        Operator::Equals => Some(Instruction::CompareEquals),
        Operator::GreaterEquals => Some(Instruction::CompareGreaterEquals),
        Operator::LessEquals => Some(Instruction::CompareLessEquals),
        Operator::NotEquals => Some(Instruction::CompareNotEquals),
        _ => None,
    }
}

fn binary_method_of(op: Operator) -> (r: Option<String>)
    ensures
        r is Some <==> binary_method(op) is Some,
        r is Some ==> r.unwrap()@ == binary_method(op).unwrap(),
{
    match op {
        Operator::And => Some("__and__".to_string()),
        Operator::Or => Some("__or__".to_string()),
        Operator::Xor => Some("__xor__".to_string()),
        _ => None,
    }
}

fn unary_method_of(op: Operator) -> (r: Option<String>)
    ensures
        r is Some <==> unary_method(op) is Some,
        r is Some ==> r.unwrap()@ == unary_method(op).unwrap(),
{
    match op {
        Operator::Plus => Some("__pos__".to_string()),
        Operator::Not => Some("__not__".to_string()),
        Operator::Minus => Some("__neg__".to_string()),
        _ => None,
    }
}

/// Compiles an expression against `const_map`.
pub fn compile_expr(expr: &Expr, const_map: &mut ConstTable) -> (r: Vec<Instruction>)
    requires
        expr_supported(*expr),
    ensures
        r.deep_view() == lower_expr(*expr, old(const_map)@).code,
        final(const_map)@ == lower_expr(*expr, old(const_map)@).consts,
    decreases *expr, 0nat,
{
    match expr {
        Expr::IntegerValue(i) => process_constval(Const::Integer(*i), const_map),
        Expr::FloatValue(f) => process_constval(Const::Float(*f), const_map),
        Expr::BooleanValue(b) => process_constval(Const::Boolean(*b), const_map),
        Expr::StringValue(s) => process_constval(Const::String(s.clone()), const_map),
        Expr::NoneValue => process_constval(Const::NoneValue, const_map),
        Expr::Variable(var_name) => {
            let r = vec![Instruction::UnresolvedLoadName(var_name.clone())];
            assert(r.deep_view() =~= seq![r[0].deep_view()]);
            r
        },
        Expr::MemberAccess(object, name) => {
            let mut code = compile_expr(object, const_map);
            push_code(&mut code, Instruction::LoadAttr(name.clone()));
            code
        },
        Expr::IndexAccess(object, index) => {
            let mut code = compile_expr(object, const_map);
            let index_code = compile_expr(index, const_map);
            append_code(&mut code, index_code);
            push_code(&mut code, Instruction::IndexAccess);
            code
        },
        Expr::Array(items) => {
            let mut code = compile_exprs(items, const_map);
            push_code(&mut code, Instruction::BuildList { number_elements: items.len() });
            code
        },
        Expr::FunctionCall(callee, arguments) => {
            let mut code = compile_expr(callee, const_map);
            let argument_code = compile_exprs(arguments, const_map);
            append_code(&mut code, argument_code);
            push_code(&mut code, Instruction::CallFunction { number_arguments: arguments.len() });
            code
        },
        Expr::BinaryOperation(lhs, op, rhs) => {
            let mut code = compile_expr(lhs, const_map);
            let rhs_code = compile_expr(rhs, const_map);
            match binary_method_of(*op) {
                Some(method) => {
                    push_code(&mut code, Instruction::LoadAttr(method));
                    append_code(&mut code, rhs_code);
                    push_code(&mut code, Instruction::CallFunction { number_arguments: 1 });
                },
                None => {
                    append_code(&mut code, rhs_code);
                    match opcode_of(*op) {
                        Some(opcode) => {
                            push_code(&mut code, opcode);
                        },
                        None => {},
                    }
                },
            }
            code
        },
        Expr::UnaryExpression(op, operand) => {
            let mut code = compile_expr(operand, const_map);
            match unary_method_of(*op) {
                Some(method) => {
                    push_code(&mut code, Instruction::LoadAttr(method));
                    push_code(&mut code, Instruction::CallFunction { number_arguments: 0 });
                },
                None => {},
            }
            code
        },
        Expr::Parenthesized(inner) => compile_expr(inner, const_map),
    }
}

/// Compiles expressions one after the other against `const_map`.
fn compile_exprs(exprs: &Vec<Expr>, const_map: &mut ConstTable) -> (r: Vec<Instruction>)
    requires
        forall|i: int| 0 <= i < exprs.len() ==> expr_supported(#[trigger] exprs[i]),
    ensures
        r.deep_view() == lower_exprs(exprs@, exprs.len() as nat, old(const_map)@).code,
        final(const_map)@ == lower_exprs(exprs@, exprs.len() as nat, old(const_map)@).consts,
    decreases *exprs, exprs.len(),
{
    let mut code: Vec<Instruction> = Vec::new();
    let mut i: usize = 0;
    assert(code.deep_view() =~= Seq::empty());
    while i < exprs.len()
        invariant
            i <= exprs.len(),
            forall|i: int| 0 <= i < exprs.len() ==> expr_supported(#[trigger] exprs[i]),
            code.deep_view() == lower_exprs(exprs@, i as nat, old(const_map)@).code,
            const_map@ == lower_exprs(exprs@, i as nat, old(const_map)@).consts,
        decreases exprs.len() - i,
    {
        let item_code = compile_expr(&exprs[i], const_map);
        append_code(&mut code, item_code);
        i += 1;
    }
    code
}

/// An instruction as it stands once its code is placed `by` further on and
/// its loop, if `exit` names one, is known to end at `exit`.
pub open spec fn placed(i: InstructionView, by: int, exit: Option<int>) -> InstructionView {
    match exit {
        Some(target) => patch_break(shift_instruction(i, by), target),
        None => shift_instruction(i, by),
    }
}

/// Whether the jump target of `i`, if it has one, is at most `room`.
pub open spec fn jump_fits(i: InstructionView, room: int) -> bool {
    match i {
        InstructionView::JumpUnconditional(t) => t <= room,
        InstructionView::JumpIfFalseAndPopStack(t) => t <= room,
        InstructionView::ForIter(t) => t <= room,
        _ => true,
    }
}

/// The value of an optional index.
pub open spec fn exit_view(exit: Option<usize>) -> Option<int> {
    match exit {
        Some(t) => Some(t as int),
        None => None,
    }
}

/// The instruction that takes the place of `i`, if placing changes it.
fn place_instruction(i: &Instruction, by: usize, exit: Option<usize>) -> (r: Option<Instruction>)
    requires
        jump_fits(i.deep_view(), usize::MAX - by),
    ensures
        match r {
            Some(new) => new.deep_view() == placed(i.deep_view(), by as int, exit_view(exit)),
            None => i.deep_view() == placed(i.deep_view(), by as int, exit_view(exit)),
        },
{
    match i {
        Instruction::JumpUnconditional(t) => Some(Instruction::JumpUnconditional(*t + by)),
        Instruction::JumpIfFalseAndPopStack(t) => Some(
            Instruction::JumpIfFalseAndPopStack(*t + by),
        ),
        Instruction::ForIter(t) => Some(Instruction::ForIter(*t + by)),
        Instruction::UnresolvedBreak => match exit {
            Some(target) => Some(Instruction::JumpUnconditional(target)),
            None => None,
        },
        _ => None,
    }
}

/// Places the instructions from index `from` up to `to`: each is shifted by
/// `by`, and a waiting `break` among them jumps to `exit` if there is one.
fn place_range(code: &mut Vec<Instruction>, from: usize, to: usize, by: usize, exit: Option<usize>)
    requires
        from <= to <= old(code).len(),
        forall|k: int|
            from <= k < to ==> jump_fits(#[trigger] old(code).deep_view()[k], usize::MAX - by),
    ensures
        final(code).len() == old(code).len(),
        forall|k: int|
            0 <= k < old(code).len() ==> #[trigger] final(code).deep_view()[k] == if from <= k
                < to {
                placed(old(code).deep_view()[k], by as int, exit_view(exit))
            } else {
                old(code).deep_view()[k]
            },
{
    let ghost before = code.deep_view();
    let ghost target: Option<int> = exit_view(exit);
    let mut k: usize = from;
    while k < to
        invariant
            from <= k <= to <= code.len(),
            code.len() == before.len(),
            target == exit_view(exit),
            forall|j: int| from <= j < to ==> jump_fits(#[trigger] before[j], usize::MAX - by),
            forall|j: int|
                0 <= j < code.len() ==> #[trigger] code.deep_view()[j] == if from <= j < k {
                    placed(before[j], by as int, target)
                } else {
                    before[j]
                },
        decreases to - k,
    {
        assert(code.deep_view()[k as int] == before[k as int]);
        let replacement = place_instruction(&code[k], by, exit);
        let ghost mid = code.deep_view();
        match replacement {
            Some(new) => {
                code.set(k, new);
                assert forall|j: int| 0 <= j < code.len() implies #[trigger] code.deep_view()[j]
                    == if from <= j < k + 1 {
                    placed(before[j], by as int, target)
                } else {
                    before[j]
                } by {
                    if j != k {
                        assert(code.deep_view()[j] == mid[j]);
                    }
                }
            },
            None => {},
        }
        k += 1;
    }
}

/// The instruction that takes the place of `i` once names have slots: the
/// slot is looked up in `names`, to which the name of a load is added if it
/// has none yet.
fn resolve_one(i: &Instruction, names: &mut Vec<String>, locals: usize) -> (r: Instruction)
    requires
        stored_name(i.deep_view()) matches Some(x) ==> old(names).deep_view().contains(x),
    ensures
        final(names).deep_view() == match loaded_name(i.deep_view()) {
            Some(x) => intern(old(names).deep_view(), x),
            None => old(names).deep_view(),
        },
        r.deep_view() == resolve_instruction(
            i.deep_view(),
            final(names).deep_view(),
            locals as int,
        ),
{
    match i {
        Instruction::UnresolvedLoadName(name) => {
            proof {
                lemma_intern(names.deep_view(), name@);
            }
            let slot = intern_name(names, name);
            if slot < locals {
                Instruction::LoadName(slot)
            } else {
                Instruction::LoadGlobal(slot)
            }
        },
        Instruction::UnresolvedStoreName(name) => {
            proof {
                lemma_intern(names.deep_view(), name@);
            }
            let slot = intern_name(names, name);
            Instruction::StoreName(slot)
        },
        Instruction::UnresolvedStoreAttr(name) => {
            proof {
                lemma_intern(names.deep_view(), name@);
            }
            let slot = intern_name(names, name);
            Instruction::StoreAttr(slot)
        },
        _ => i.clone(),
    }
}

/// Gives every name of `code` a slot and rewrites the instructions that
/// load or store by name to use the slot.
pub fn resolve_loads_stores(code: &mut CodeObject)
    ensures
        final(code).deep_view() == resolve_unit(old(code).deep_view()),
{
    let ghost unit = code.deep_view();
    let ghost source = unit.instructions;
    let count = code.instructions.len();
    let mut names = clone_names(&code.params);
    let mut k: usize = 0;
    while k < count
        invariant
            k <= count == code.instructions.len(),
            code.deep_view() == unit,
            source == unit.instructions,
            names.deep_view() == names_with_stores(source, k as nat, unit.params),
        decreases count - k,
    {
        match &code.instructions[k] {
            Instruction::UnresolvedStoreName(name) => {
                intern_name(&mut names, name);
            },
            Instruction::UnresolvedStoreAttr(name) => {
                intern_name(&mut names, name);
            },
            _ => {},
        }
        k += 1;
    }
    let locals = names.len();
    let ghost local = names.deep_view();
    proof {
        lemma_names_with_stores(source, count as nat, unit.params);
    }
    let mut resolved: Vec<Instruction> = Vec::new();
    let mut k: usize = 0;
    while k < count
        invariant
            k <= count == code.instructions.len(),
            code.deep_view() == unit,
            source == unit.instructions,
            local == local_names(unit),
            locals == local.len(),
            forall|j: int|
                0 <= j < count ==> (stored_name(#[trigger] source[j]) matches Some(x)
                    ==> local.contains(x)),
            names.deep_view() == names_with_loads(source, k as nat, local),
            resolved.len() == k,
            forall|j: int|
                0 <= j < k ==> #[trigger] resolved.deep_view()[j] == resolve_instruction(
                    source[j],
                    names.deep_view(),
                    locals as int,
                ),
        decreases count - k,
    {
        let ghost before = names.deep_view();
        let ghost done = resolved.deep_view();
        proof {
            lemma_names_with_loads(source, k as nat, local);
            if let Some(x) = stored_name(source[k as int]) {
                lemma_extends_contains(before, local, x);
            }
        }
        let instruction = resolve_one(&code.instructions[k], &mut names, locals);
        let ghost after = names.deep_view();
        let ghost value = instruction.deep_view();
        resolved.push(instruction);
        proof {
            assert(resolved.deep_view() =~= done.push(value));
            assert(extends(after, before)) by {
                match loaded_name(source[k as int]) {
                    Some(x) => {
                        lemma_intern(before, x);
                    },
                    None => {
                        assert(before.subrange(0, before.len() as int) =~= before);
                    },
                }
            }
            assert forall|j: int| 0 <= j < k + 1 implies #[trigger] resolved.deep_view()[j]
                == resolve_instruction(source[j], after, locals as int) by {
                if j < k {
                    assert(done[j] == resolve_instruction(source[j], before, locals as int));
                    if let Some(x) = stored_name(source[j]) {
                        lemma_extends_contains(before, local, x);
                        lemma_first_index_extends(before, after, x);
                    }
                    if let Some(x) = loaded_name(source[j]) {
                        lemma_first_index_extends(before, after, x);
                    }
                }
            }
        }
        k += 1;
    }
    code.instructions = resolved;
    code.names = names;
    proof {
        assert(code.deep_view().instructions =~= resolve_unit(unit).instructions);
        assert(code.deep_view().consts =~= unit.consts);
    }
}

/// The unit made of `instrs` under the name `name`, with the constants of
/// `const_map`. Where `ensure_return` is set and the code does not end in a
/// return, `return None` is added to it.
pub fn make_code_object(
    instrs: Vec<Instruction>,
    name: String,
    const_map: &mut ConstTable,
    ensure_return: bool,
) -> (r: CodeObject)
    ensures
        r.deep_view() == finish_unit(instrs.deep_view(), name@, old(const_map)@, ensure_return),
        final(const_map)@ == finish_consts(instrs.deep_view(), old(const_map)@, ensure_return),
{
    let mut instructions = instrs;
    let ghost code = instructions.deep_view();
    let ends_in_return = instructions.len() > 0 && match &instructions[instructions.len() - 1] {
        Instruction::ReturnValue => true,
        _ => false,
    };
    assert(ends_in_return == !lacks_return(code)) by {
        if code.len() > 0 {
            assert(code.last() == instructions[instructions.len() - 1].deep_view());
        }
    }
    if ensure_return && !ends_in_return {
        let slot = const_map.intern(Const::NoneValue);
        push_code(&mut instructions, Instruction::LoadConst(slot));
        push_code(&mut instructions, Instruction::ReturnValue);
    }
    let consts = const_map.to_vec();
    let r = CodeObject {
        instructions,
        names: Vec::new(),
        params: Vec::new(),
        consts,
        main: false,
        objname: name,
    };
    proof {
        let unit = finish_unit(code, name@, old(const_map)@, ensure_return);
        assert(r.deep_view().names =~= unit.names);
        assert(r.deep_view().params =~= unit.params);
        assert(r.deep_view().consts =~= unit.consts);
    }
    r
}

/// The name of a nested unit: `name` behind the enclosing unit's name and a
/// dot, or `name` alone at the top level.
pub fn build_fully_qualified_name(prefix: Option<String>, name: &str) -> (r: String)
    ensures
        r@ == qualified_name(prefix_view(prefix), name@),
{
    match prefix {
        Some(s) => {
            proof {
                reveal_strlit(".");
            }
            let r = s.concat(".").concat(name);
            assert(r@ =~= s@ + seq!['.'] + name@);
            r
        },
        None => name.to_string(),
    }
}

/// The code for the components `remaining_parts` of a dotted assignment
/// target: the last one is stored as an attribute; the others are loaded, by
/// name the one in front if `is_first`, as attributes the others.
pub fn generate_assign_path(remaining_parts: &[String], is_first: bool) -> (r: Vec<Instruction>)
    ensures
        r.deep_view() == assign_path(remaining_parts.deep_view(), is_first),
{
    let mut instructions: Vec<Instruction> = Vec::new();
    let count = remaining_parts.len();
    let mut k: usize = 0;
    while k < count
        invariant
            k <= count == remaining_parts.len(),
            instructions.len() == k,
            forall|j: int|
                0 <= j < k ==> #[trigger] instructions.deep_view()[j] == assign_path(
                    remaining_parts.deep_view(),
                    is_first,
                )[j],
        decreases count - k,
    {
        let part = remaining_parts[k].clone();
        let ghost done = instructions.deep_view();
        let instruction = if k == count - 1 {
            Instruction::UnresolvedStoreAttr(part)
        } else if k == 0 && is_first {
            Instruction::UnresolvedLoadName(part)
        } else {
            Instruction::LoadAttr(part)
        };
        let ghost value = instruction.deep_view();
        instructions.push(instruction);
        assert(instructions.deep_view() =~= done.push(value));
        k += 1;
    }
    assert(instructions.deep_view() =~= assign_path(remaining_parts.deep_view(), is_first));
    instructions
}

/// Puts one unit at the end of `results`.
fn push_unit(results: &mut Vec<CodeObject>, unit: CodeObject)
    ensures
        final(results).deep_view() == old(results).deep_view().push(unit.deep_view()),
{
    let ghost before = results.deep_view();
    let ghost value = unit.deep_view();
    results.push(unit);
    assert(results.deep_view() =~= before.push(value));
}

/// A copy of an optional name.
fn clone_prefix(prefix: &Option<String>) -> (r: Option<String>)
    ensures
        prefix_view(r) == prefix_view(*prefix),
{
    match prefix {
        Some(p) => Some(p.clone()),
        None => None,
    }
}

/// Whether the compiler's state is what lowering says it is.
pub open spec fn lowered_as(
    out: BlockCode,
    code: Vec<Instruction>,
    const_map: ConstTable,
    results: Vec<CodeObject>,
) -> bool {
    &&& code.deep_view() == out.code
    &&& const_map@ == out.consts
    &&& results.deep_view() == out.units
}

/// Every statement of a block that can be lowered can be lowered.
pub proof fn lemma_block_supported(stmts: Seq<AST>, n: nat)
    requires
        block_supported(stmts, n),
        n <= stmts.len(),
    ensures
        forall|k: int| 0 <= k < n ==> stmt_supported(#[trigger] stmts[k]) && block_supported(stmts, k as nat),
    decreases n,
{
    if n > 0 {
        lemma_block_supported(stmts, (n - 1) as nat);
    }
}

/// The names of the parameters, in order.
fn parameter_names(parameters: &Vec<FunctionParameter>) -> (r: Vec<String>)
    ensures
        r.deep_view() == param_names(parameters@),
{
    let mut names: Vec<String> = Vec::new();
    let mut k: usize = 0;
    while k < parameters.len()
        invariant
            k <= parameters.len(),
            names.len() == k,
            forall|j: int| 0 <= j < k ==> #[trigger] names.deep_view()[j] == param_names(parameters@)[j],
        decreases parameters.len() - k,
    {
        let ghost done = names.deep_view();
        let name = match &parameters[k] {
            FunctionParameter::Simple(x) => x.clone(),
            FunctionParameter::DefaultValue(x, _) => x.clone(),
        };
        let ghost value = name@;
        names.push(name);
        assert(names.deep_view() =~= done.push(value));
        k += 1;
    }
    assert(names.deep_view() =~= param_names(parameters@));
    names
}

/// The code of the default values, in order, and how many there are.
fn compile_defaults(parameters: &Vec<FunctionParameter>, const_map: &mut ConstTable) -> (r: (
    Vec<Instruction>,
    usize,
))
    requires
        defaults_supported(parameters@),
    ensures
        r.0.deep_view() == lower_defaults(
            parameters@,
            parameters.len() as nat,
            old(const_map)@,
        ).code,
        final(const_map)@ == lower_defaults(
            parameters@,
            parameters.len() as nat,
            old(const_map)@,
        ).consts,
        r.1 == default_count(parameters@, parameters.len() as nat),
{
    let mut code: Vec<Instruction> = Vec::new();
    let mut count: usize = 0;
    let mut k: usize = 0;
    assert(code.deep_view() =~= Seq::empty());
    while k < parameters.len()
        invariant
            k <= parameters.len(),
            defaults_supported(parameters@),
            count == default_count(parameters@, k as nat),
            count <= k,
            code.deep_view() == lower_defaults(parameters@, k as nat, old(const_map)@).code,
            const_map@ == lower_defaults(parameters@, k as nat, old(const_map)@).consts,
        decreases parameters.len() - k,
    {
        match &parameters[k] {
            FunctionParameter::Simple(_) => {},
            FunctionParameter::DefaultValue(_, value) => {
                let value_code = compile_expr(value, const_map);
                append_code(&mut code, value_code);
                count += 1;
            },
        }
        k += 1;
    }
    (code, count)
}

/// Whether every jump of `code` has its target at or before the end of it.
pub open spec fn jumps_inside(code: Seq<InstructionView>) -> bool {
    forall|k: int| 0 <= k < code.len() ==> jump_fits(#[trigger] code[k], code.len() as int)
}

/// Closed code keeps its jumps inside.
pub proof fn lemma_jumps_inside(code: Seq<InstructionView>, consts: int, names: int)
    requires
        code_closed(code, 0, code.len() as int, consts, names),
    ensures
        jumps_inside(code),
{
    assert forall|k: int| 0 <= k < code.len() implies jump_fits(
        #[trigger] code[k],
        code.len() as int,
    ) by {
        assert(instruction_closed(code[k], 0, code.len() as int, consts, names));
    }
}

/// Moves `tail` to the end of `code` and places it there: its jumps are
/// shifted by the length that `code` had, and, if `leave_at_end` is set, its
/// waiting `break`s jump to its end.
fn append_placed(code: &mut Vec<Instruction>, tail: Vec<Instruction>, leave_at_end: bool)
    requires
        jumps_inside(tail.deep_view()),
    ensures
        final(code).len() == old(code).len() + tail.len(),
        final(code).deep_view() == old(code).deep_view() + if leave_at_end {
            patch_breaks(
                shift(tail.deep_view(), old(code).len() as int),
                old(code).len() + tail.len(),
            )
        } else {
            shift(tail.deep_view(), old(code).len() as int)
        },
{
    let ghost front = code.deep_view();
    let ghost back = tail.deep_view();
    let base = code.len();
    assert(front.len() == base);
    assert(back.len() == tail.len());
    append_code(code, tail);
    let end = code.len();
    let ghost raw = code.deep_view();
    assert forall|k: int| base <= k < end implies jump_fits(#[trigger] raw[k], usize::MAX - base) by {
        assert(raw[k] == back[k - base]);
    }
    let exit = if leave_at_end {
        Some(end)
    } else {
        None
    };
    place_range(code, base, end, base, exit);
    proof {
        let want = front + if leave_at_end {
            patch_breaks(shift(back, base as int), base + back.len())
        } else {
            shift(back, base as int)
        };
        assert(code.deep_view().len() == want.len());
        assert forall|k: int| 0 <= k < want.len() implies code.deep_view()[k] == want[k] by {
            if k >= base {
                assert(raw[k] == back[k - base]);
            }
        }
        assert(code.deep_view() =~= want);
    }
}

/// A condition in front of the code that runs if it holds.
fn assemble_if(condition: Vec<Instruction>, taken: Vec<Instruction>) -> (r: Vec<Instruction>)
    requires
        jumps_inside(taken.deep_view()),
    ensures
        r.deep_view() == if_code(condition.deep_view(), taken.deep_view()),
{
    let ghost c = condition.deep_view();
    let ghost t = taken.deep_view();
    assert(c.len() == condition.len() && t.len() == taken.len());
    let mut code = condition;
    push_code(&mut code, Instruction::JumpIfFalseAndPopStack(0));
    let start = code.len();
    append_placed(&mut code, taken, false);
    let end = code.len();
    let ghost raw = code.deep_view();
    code.set(start - 1, Instruction::JumpIfFalseAndPopStack(end));
    proof {
        let want = if_code(c, t);
        assert(code.deep_view().len() == want.len());
        assert forall|k: int| 0 <= k < want.len() implies code.deep_view()[k] == want[k] by {
            if k != start - 1 {
                assert(code.deep_view()[k] == raw[k]);
            }
        }
        assert(code.deep_view() =~= want);
    }
    code
}

/// A condition in front of the code for both outcomes.
fn assemble_if_else(
    condition: Vec<Instruction>,
    taken: Vec<Instruction>,
    otherwise: Vec<Instruction>,
) -> (r: Vec<Instruction>)
    requires
        jumps_inside(taken.deep_view()),
        jumps_inside(otherwise.deep_view()),
    ensures
        r.deep_view() == if_else_code(
            condition.deep_view(),
            taken.deep_view(),
            otherwise.deep_view(),
        ),
{
    let ghost c = condition.deep_view();
    let ghost t = taken.deep_view();
    let ghost e = otherwise.deep_view();
    assert(c.len() == condition.len() && t.len() == taken.len() && e.len() == otherwise.len());
    let mut code = condition;
    push_code(&mut code, Instruction::JumpIfFalseAndPopStack(0));
    let start = code.len();
    append_placed(&mut code, taken, false);
    push_code(&mut code, Instruction::JumpUnconditional(0));
    let else_start = code.len();
    append_placed(&mut code, otherwise, false);
    let end = code.len();
    let ghost raw = code.deep_view();
    code.set(start - 1, Instruction::JumpIfFalseAndPopStack(else_start));
    let ghost mid = code.deep_view();
    code.set(else_start - 1, Instruction::JumpUnconditional(end));
    proof {
        let want = if_else_code(c, t, e);
        assert(code.deep_view().len() == want.len());
        assert forall|k: int| 0 <= k < want.len() implies code.deep_view()[k] == want[k] by {
            if k != else_start - 1 {
                assert(code.deep_view()[k] == mid[k]);
                if k != start - 1 {
                    assert(mid[k] == raw[k]);
                }
            }
        }
        assert(code.deep_view() =~= want);
    }
    code
}

/// A `while` loop from the code of its condition and of its body.
fn assemble_while(condition: Vec<Instruction>, body: Vec<Instruction>) -> (r: Vec<Instruction>)
    requires
        jumps_inside(body.deep_view()),
    ensures
        r.deep_view() == while_code(condition.deep_view(), body.deep_view()),
{
    let ghost c = condition.deep_view();
    let ghost b = body.deep_view();
    assert(c.len() == condition.len() && b.len() == body.len());
    let mut code = condition;
    push_code(&mut code, Instruction::JumpIfFalseAndPopStack(0));
    let start = code.len();
    // The jump back is placed together with the body, so that the loop's
    // end is known when the body's `break`s are given their target.
    let mut tail = body;
    push_code(&mut tail, Instruction::JumpUnconditional(0));
    let ghost t = tail.deep_view();
    assert forall|k: int| 0 <= k < t.len() implies jump_fits(#[trigger] t[k], t.len() as int) by {
        if k < b.len() {
            assert(jump_fits(b[k], b.len() as int));
        }
    }
    append_placed(&mut code, tail, true);
    let after = code.len();
    let ghost raw = code.deep_view();
    code.set(start - 1, Instruction::JumpIfFalseAndPopStack(after));
    let ghost mid = code.deep_view();
    code.set(after - 1, Instruction::JumpUnconditional(0));
    proof {
        let want = while_code(c, b);
        assert(code.deep_view().len() == want.len());
        assert forall|k: int| 0 <= k < want.len() implies code.deep_view()[k] == want[k] by {
            if k != after - 1 {
                assert(code.deep_view()[k] == mid[k]);
                if k != start - 1 {
                    assert(mid[k] == raw[k]);
                    if k >= start {
                        assert(t[k - start] == b[k - start]);
                    }
                }
            }
        }
        assert(code.deep_view() =~= want);
    }
    code
}

/// A `for` loop from the code of what it runs over and of its body.
fn assemble_for(iterable: Vec<Instruction>, item: String, body: Vec<Instruction>) -> (r: Vec<
    Instruction,
>)
    requires
        jumps_inside(body.deep_view()),
    ensures
        r.deep_view() == for_code(iterable.deep_view(), item@, body.deep_view()),
{
    let ghost i = iterable.deep_view();
    let ghost b = body.deep_view();
    let ghost name = item@;
    assert(i.len() == iterable.len() && b.len() == body.len());
    let mut code = iterable;
    push_code(&mut code, Instruction::LoadAttr("__iter__".to_string()));
    push_code(&mut code, Instruction::CallFunction { number_arguments: 0 });
    let head = code.len();
    push_code(&mut code, Instruction::ForIter(0));
    push_code(&mut code, Instruction::UnresolvedStoreName(item));
    let start = code.len();
    let mut tail = body;
    push_code(&mut tail, Instruction::JumpUnconditional(0));
    let ghost t = tail.deep_view();
    assert forall|k: int| 0 <= k < t.len() implies jump_fits(#[trigger] t[k], t.len() as int) by {
        if k < b.len() {
            assert(jump_fits(b[k], b.len() as int));
        }
    }
    append_placed(&mut code, tail, true);
    let after = code.len();
    let ghost raw = code.deep_view();
    code.set(head, Instruction::ForIter(after));
    let ghost mid = code.deep_view();
    code.set(after - 1, Instruction::JumpUnconditional(head));
    proof {
        let want = for_code(i, name, b);
        assert(code.deep_view().len() == want.len());
        assert forall|k: int| 0 <= k < want.len() implies code.deep_view()[k] == want[k] by {
            if k != after - 1 {
                assert(code.deep_view()[k] == mid[k]);
                if k != head {
                    assert(mid[k] == raw[k]);
                    if k >= start {
                        assert(t[k - start] == b[k - start]);
                    }
                }
            }
        }
        assert(code.deep_view() =~= want);
    }
    code
}

/// Compiles one statement. The code counts its jump targets from its own
/// first instruction. Units finished on the way are added to `results`.
pub fn compile_statement(
    s: &AST,
    prefix: &Option<String>,
    results: &mut Vec<CodeObject>,
    const_map: &mut ConstTable,
) -> (r: Vec<Instruction>)
    requires
        stmt_supported(*s),
    ensures
        lowered_as(
            lower_stmt(*s, prefix_view(*prefix), old(const_map)@, old(results).deep_view()),
            r,
            *final(const_map),
            *final(results),
        ),
    decreases *s, branch_count(*s) + 1,
{
    let ghost consts0 = const_map@;
    let ghost units0 = results.deep_view();
    let ghost pre = prefix_view(*prefix);
    match s {
        AST::Assign { path, expression } => {
            let mut code = compile_expr(expression, const_map);
            if path.len() == 1 {
                let ghost e = code.deep_view();
                push_code(&mut code, Instruction::UnresolvedStoreName(path[0].clone()));
                assert(code.deep_view() =~= e + assign_target(path.deep_view()));
            } else {
                let parts = path.as_slice();
                assert(parts.deep_view() =~= path.deep_view());
                let target = generate_assign_path(parts, true);
                append_code(&mut code, target);
            }
            code
        },
        AST::StandaloneExpr(expression) => {
            let mut code = compile_expr(expression, const_map);
            push_code(&mut code, Instruction::PopTop);
            code
        },
        AST::Return(Some(expression)) => {
            let mut code = compile_expr(expression, const_map);
            push_code(&mut code, Instruction::ReturnValue);
            code
        },
        AST::Return(None) => {
            let mut code = process_constval(Const::NoneValue, const_map);
            push_code(&mut code, Instruction::ReturnValue);
            code
        },
        AST::IfStatement { .. } => compile_if(s, 0, prefix, results, const_map),
        AST::WhileStatement { expression, body } => {
            let condition = compile_expr(expression, const_map);
            let ghost e = lower_expr(*expression, consts0);
            let body_code = compile_block(body, prefix, results, const_map);
            proof {
                lemma_lower_block(body@, body.len() as nat, pre, e.consts, units0);
                lemma_jumps_inside(body_code.deep_view(), const_map@.len() as int, 0);
            }
            assemble_while(condition, body_code)
        },
        AST::ForStatement { item_name, list_expression, body } => {
            let iterable = compile_expr(list_expression, const_map);
            let ghost e = lower_expr(*list_expression, consts0);
            let body_code = compile_block(body, prefix, results, const_map);
            proof {
                lemma_lower_block(body@, body.len() as nat, pre, e.consts, units0);
                lemma_jumps_inside(body_code.deep_view(), const_map@.len() as int, 0);
            }
            assemble_for(iterable, item_name.clone(), body_code)
        },
        AST::DeclareFunction { function_name, parameters, body } => {
            let qualname = build_fully_qualified_name(clone_prefix(prefix), function_name.as_str());
            let mut inner_consts = ConstTable::new();
            let inner_prefix = Some(qualname.clone());
            let inner_code = compile_block(body, &inner_prefix, results, &mut inner_consts);
            let mut unit = make_code_object(inner_code, qualname.clone(), &mut inner_consts, true);
            let ghost finished = unit.deep_view();
            unit.params = parameter_names(parameters);
            assert(unit.deep_view().consts =~= finished.consts);
            resolve_loads_stores(&mut unit);
            push_unit(results, unit.clone());
            let (mut code, count) = compile_defaults(parameters, const_map);
            push_code(&mut code, Instruction::BuildList { number_elements: count });
            let ghost front = code.deep_view();
            let ghost value = unit.deep_view();
            let ghost table = const_map@;
            let code_slot = const_map.intern(Const::CodeObject(unit));
            let name_slot = const_map.intern(Const::String(qualname));
            push_code(&mut code, Instruction::LoadConst(code_slot));
            push_code(&mut code, Instruction::LoadConst(name_slot));
            push_code(&mut code, Instruction::MakeFunction(count > 0));
            push_code(&mut code, Instruction::UnresolvedStoreName(function_name.clone()));
            assert(code.deep_view() =~= front + definition_code(
                value,
                seq![InstructionView::MakeFunction(count > 0)],
                function_name@,
                table,
            ).code);
            code
        },
        AST::ClassDeclaration { class_name, body } => {
            let qualname = build_fully_qualified_name(clone_prefix(prefix), class_name.as_str());
            let mut inner_consts = ConstTable::new();
            let inner_prefix = Some(qualname.clone());
            let inner_code = compile_block(body, &inner_prefix, results, &mut inner_consts);
            let mut unit = make_code_object(inner_code, qualname.clone(), &mut inner_consts, true);
            resolve_loads_stores(&mut unit);
            push_unit(results, unit.clone());
            let ghost value = unit.deep_view();
            let code_slot = const_map.intern(Const::CodeObject(unit));
            let name_slot = const_map.intern(Const::String(qualname));
            let mut code: Vec<Instruction> = Vec::new();
            push_code(&mut code, Instruction::LoadConst(code_slot));
            push_code(&mut code, Instruction::LoadConst(name_slot));
            push_code(&mut code, Instruction::MakeClass);
            push_code(&mut code, Instruction::UnresolvedStoreName(class_name.clone()));
            assert(code.deep_view() =~= definition_code(
                value,
                seq![InstructionView::MakeClass],
                class_name@,
                consts0,
            ).code);
            code
        },
        AST::Raise(expression) => {
            let mut code = compile_expr(expression, const_map);
            push_code(&mut code, Instruction::Raise);
            let slot = const_map.intern(Const::NoneValue);
            push_code(&mut code, Instruction::LoadConst(slot));
            push_code(&mut code, Instruction::ReturnValue);
            code
        },
        AST::Break => {
            let code = vec![Instruction::UnresolvedBreak];
            assert(code.deep_view() =~= seq![InstructionView::UnresolvedBreak]);
            code
        },
    }
}

/// Compiles an `if` statement from its `j`-th condition on.
fn compile_if(
    s: &AST,
    j: usize,
    prefix: &Option<String>,
    results: &mut Vec<CodeObject>,
    const_map: &mut ConstTable,
) -> (r: Vec<Instruction>)
    requires
        stmt_supported(*s),
        *s is IfStatement,
        j < branch_count(*s),
    ensures
        lowered_as(
            lower_if(*s, j as nat, prefix_view(*prefix), old(const_map)@, old(results).deep_view()),
            r,
            *final(const_map),
            *final(results),
        ),
    decreases *s, branch_count(*s) - j,
{
    let ghost consts0 = const_map@;
    let ghost units0 = results.deep_view();
    let ghost pre = prefix_view(*prefix);
    match s {
        AST::IfStatement { true_branch, elifs, final_else } => {
            let this: &ASTIfStatement = if j == 0 {
                true_branch
            } else {
                &elifs[j - 1]
            };
            assert(*this == branch(*s, j as nat));
            let condition_code = compile_expr(&this.expression, const_map);
            let ghost condition = lower_expr(this.expression, consts0);
            let taken_code = compile_block(&this.statements, prefix, results, const_map);
            let ghost taken = lower_block(
                this.statements@,
                this.statements.len() as nat,
                pre,
                condition.consts,
                units0,
            );
            proof {
                lemma_lower_block(
                    this.statements@,
                    this.statements.len() as nat,
                    pre,
                    condition.consts,
                    units0,
                );
                lemma_jumps_inside(taken.code, taken.consts.len() as int, 0);
            }
            if j < elifs.len() {
                proof {
                    lemma_lower_if(*s, (j + 1) as nat, pre, taken.consts, taken.units);
                }
                let otherwise_code = compile_if(s, j + 1, prefix, results, const_map);
                proof {
                    lemma_jumps_inside(otherwise_code.deep_view(), const_map@.len() as int, 0);
                }
                assemble_if_else(condition_code, taken_code, otherwise_code)
            } else {
                match final_else {
                    Some(stmts) => {
                        proof {
                            lemma_lower_block(
                                stmts@,
                                stmts.len() as nat,
                                pre,
                                taken.consts,
                                taken.units,
                            );
                        }
                        let otherwise_code = compile_block(stmts, prefix, results, const_map);
                        proof {
                            lemma_jumps_inside(
                                otherwise_code.deep_view(),
                                const_map@.len() as int,
                                0,
                            );
                        }
                        assemble_if_else(condition_code, taken_code, otherwise_code)
                    },
                    None => assemble_if(condition_code, taken_code),
                }
            }
        },
        _ => Vec::new(),
    }
}

/// Compiles the statements of a block, each behind the one before it. The
/// code counts its jump targets from its own first instruction.
pub fn compile_block(
    stmts: &Vec<AST>,
    prefix: &Option<String>,
    results: &mut Vec<CodeObject>,
    const_map: &mut ConstTable,
) -> (r: Vec<Instruction>)
    requires
        block_supported(stmts@, stmts.len() as nat),
    ensures
        lowered_as(
            lower_block(
                stmts@,
                stmts.len() as nat,
                prefix_view(*prefix),
                old(const_map)@,
                old(results).deep_view(),
            ),
            r,
            *final(const_map),
            *final(results),
        ),
    decreases *stmts, 0nat,
{
    let ghost consts0 = const_map@;
    let ghost units0 = results.deep_view();
    let ghost pre = prefix_view(*prefix);
    let mut code: Vec<Instruction> = Vec::new();
    let mut i: usize = 0;
    assert(code.deep_view() =~= Seq::empty());
    proof {
        lemma_block_supported(stmts@, stmts.len() as nat);
    }
    while i < stmts.len()
        invariant
            i <= stmts.len(),
            forall|k: int| 0 <= k < stmts.len() ==> stmt_supported(#[trigger] stmts@[k]),
            pre == prefix_view(*prefix),
            lowered_as(
                lower_block(stmts@, i as nat, pre, consts0, units0),
                code,
                *const_map,
                *results,
            ),
        decreases stmts.len() - i,
    {
        let ghost a = lower_block(stmts@, i as nat, pre, consts0, units0);
        let ghost b = lower_stmt(stmts@[i as int], pre, a.consts, a.units);
        proof {
            lemma_lower_stmt(stmts@[i as int], pre, a.consts, a.units);
        }
        let stmt_code = compile_statement(&stmts[i], prefix, results, const_map);
        proof {
            lemma_jumps_inside(b.code, b.consts.len() as int, 0);
            assert(code.deep_view().len() == code.len());
        }
        append_placed(&mut code, stmt_code, false);
        i += 1;
    }
    code
}

/// Compiles the statements `ast` into a unit named by `qualified_prefix`,
/// or `__main__` without one. Jump targets count from `offset` instructions
/// before the unit's first. Names have no slots yet. Nested units are added
/// to `results`, constants to `const_map`.
pub fn compile_ast_internal(
    ast: Vec<AST>,
    offset: usize,
    qualified_prefix: Option<String>,
    ensure_return: bool,
    results: &mut Vec<CodeObject>,
    const_map: &mut ConstTable,
) -> (r: CodeObject)
    requires
        block_supported(ast@, ast.len() as nat),
        offset == 0 || offset + lower_block(
            ast@,
            ast.len() as nat,
            prefix_view(qualified_prefix),
            old(const_map)@,
            old(results).deep_view(),
        ).code.len() <= usize::MAX,
    ensures
        r.deep_view() == lower_unit(
            ast@,
            offset as int,
            prefix_view(qualified_prefix),
            ensure_return,
            old(const_map)@,
            old(results).deep_view(),
        ),
        final(const_map)@ == r.deep_view().consts,
        final(results).deep_view() == lower_block(
            ast@,
            ast.len() as nat,
            prefix_view(qualified_prefix),
            old(const_map)@,
            old(results).deep_view(),
        ).units,
{
    let ghost block = lower_block(
        ast@,
        ast.len() as nat,
        prefix_view(qualified_prefix),
        const_map@,
        results.deep_view(),
    );
    proof {
        lemma_lower_block(
            ast@,
            ast.len() as nat,
            prefix_view(qualified_prefix),
            const_map@,
            results.deep_view(),
        );
        lemma_jumps_inside(block.code, block.consts.len() as int, 0);
    }
    let mut code = compile_block(&ast, &qualified_prefix, results, const_map);
    let count = code.len();
    assert(count == block.code.len());
    if offset != 0 {
        place_range(&mut code, 0, count, offset, None);
        assert(code.deep_view() =~= shift(block.code, offset as int));
    } else {
        proof {
            lemma_shift_zero(block.code);
        }
    }
    let name = match qualified_prefix {
        Some(p) => p,
        None => "__main__".to_string(),
    };
    make_code_object(code, name, const_map, ensure_return)
}

/// Compiles the statements `ast` into a top-level unit that ends in a
/// return. Names have no slots yet.
pub fn compile_ast(
    ast: Vec<AST>,
    offset: usize,
    results: &mut Vec<CodeObject>,
    const_map: &mut ConstTable,
) -> (r: CodeObject)
    requires
        block_supported(ast@, ast.len() as nat),
        offset == 0 || offset + lower_block(
            ast@,
            ast.len() as nat,
            None,
            old(const_map)@,
            old(results).deep_view(),
        ).code.len() <= usize::MAX,
    ensures
        r.deep_view() == lower_unit(
            ast@,
            offset as int,
            None,
            true,
            old(const_map)@,
            old(results).deep_view(),
        ),
        final(const_map)@ == r.deep_view().consts,
        final(results).deep_view() == lower_block(
            ast@,
            ast.len() as nat,
            None,
            old(const_map)@,
            old(results).deep_view(),
        ).units,
{
    compile_ast_internal(ast, offset, None, true, results, const_map)
}

/// The top-level unit of `ast`, finished, and the nested units.
fn compile_units(ast: Vec<AST>) -> (r: (CodeObject, Vec<CodeObject>))
    requires
        block_supported(ast@, ast.len() as nat),
    ensures
        r.0.deep_view() == main_unit(ast@),
        r.1.deep_view() == nested_units(ast@),
{
    let mut all_results: Vec<CodeObject> = Vec::new();
    let mut const_map = ConstTable::new();
    assert(all_results.deep_view() =~= Seq::empty());
    let mut compile_result = compile_ast(ast, 0, &mut all_results, &mut const_map);
    let ghost raw = compile_result.deep_view();
    compile_result.main = true;
    assert(compile_result.deep_view().consts =~= raw.consts);
    resolve_loads_stores(&mut compile_result);
    (compile_result, all_results)
}

/// Puts the top-level unit in front of the nested ones.
fn assemble_program(main: CodeObject, nested: Vec<CodeObject>) -> (r: Program)
    ensures
        r.deep_view().version == 1,
        r.deep_view().code_objects == seq![main.deep_view()] + nested.deep_view(),
{
    let ghost first = main.deep_view();
    let ghost rest = nested.deep_view();
    let mut code_objects = nested;
    code_objects.insert(0, main);
    assert(code_objects.deep_view() =~= seq![first] + rest);
    Program { version: 1, code_objects }
}

/// Compiles a program. The first code object of the result is the
/// top-level unit; the others are the functions and classes declared in it.
pub fn compile(ast: Vec<AST>) -> (r: Program)
    requires
        block_supported(ast@, ast.len() as nat),
    ensures
        r.deep_view() == lower_program(ast@),
        program_closed(r.deep_view()),
        r.code_objects.len() >= 1,
        loadable(r.code_objects[0]),
{
    proof {
        lemma_program_closed(ast@);
    }
    let (main, nested) = compile_units(ast);
    let r = assemble_program(main, nested);
    proof {
        assert(r.deep_view().code_objects.len() == r.code_objects.len());
        assert(r.deep_view().code_objects[0] == r.code_objects[0].deep_view());
        lemma_loadable_view(r.code_objects[0]);
    }
    r
}

/// Whether the statements end in an expression statement.
pub fn ends_with_expression(ast: &Vec<AST>) -> (r: bool)
    ensures
        r == ends_in_expression(ast@),
{
    if ast.len() == 0 {
        return false;
    }
    match &ast[ast.len() - 1] {
        AST::StandaloneExpr(_) => true,
        _ => false,
    }
}

/// Compiles a program for interactive use: as [`compile`], but where the
/// statements end in an expression statement, the instruction that
/// would discard its value is left out of the top-level unit, and the
/// value stays on the stack.
pub fn compile_repl(ast: Vec<AST>) -> (r: Program)
    requires
        block_supported(ast@, ast.len() as nat),
    ensures
        r.deep_view() == lower_repl(ast@),
        !ends_in_expression(ast@) ==> r.deep_view() == lower_program(ast@),
        program_closed(r.deep_view()),
        r.code_objects.len() >= 1,
        loadable(r.code_objects[0]),
{
    proof {
        lemma_program_closed(ast@);
    }
    let ghost tree = ast@;
    let shown = ends_with_expression(&ast);
    let (mut main, nested) = compile_units(ast);
    let ghost compiled = main.deep_view();
    if shown {
        proof {
            lemma_trailing_expression(tree);
        }
        assert(main.instructions.len() == compiled.instructions.len());
        let cut = main.instructions.len() - 3;
        main.instructions.remove(cut);
        assert(main.instructions.deep_view() =~= compiled.instructions.remove(cut as int));
    }
    assert(main.deep_view().consts =~= compiled.consts);
    let r = assemble_program(main, nested);
    proof {
        assert(r.deep_view().code_objects.len() == r.code_objects.len());
        assert(r.deep_view().code_objects[0] == r.code_objects[0].deep_view());
        lemma_loadable_view(r.code_objects[0]);
    }
    r
}

} // verus!
