//! The depth of the value stack: code whose every instruction finds the
//! stack as deep as every path to it leaves it.

use vstd::prelude::*;
use crate::bytecode::program::InstructionView;

verus! {

/// Whether the instruction `i` at the index `pc` keeps to the depths
/// `depths`, which give for each index how many values the stack holds
/// when the instruction there is about to run: the instruction finds the
/// values that it takes, and what it leaves is what the instructions that
/// can follow it expect. A return leaves `leave` values behind.
pub open spec fn keeps(i: InstructionView, pc: int, depths: Seq<int>, leave: int) -> bool {
    let d = depths[pc];
    let next = depths[pc + 1];
    let last = depths.len() - 1;
    match i {
        InstructionView::LoadConst(_) => next == d + 1,
        InstructionView::LoadName(_) => next == d + 1,
        InstructionView::LoadGlobal(_) => next == d + 1,
        InstructionView::UnresolvedLoadName(_) => next == d + 1,
        InstructionView::StoreName(_) => d >= 1 && next == d - 1,
        InstructionView::UnresolvedStoreName(_) => d >= 1 && next == d - 1,
        InstructionView::PopTop => d >= 1 && next == d - 1,
        InstructionView::LoadAttr(_) => d >= 1 && next == d,
        InstructionView::StoreAttr(_) => d >= 2 && next == d - 2,
        InstructionView::UnresolvedStoreAttr(_) => d >= 2 && next == d - 2,
        InstructionView::BuildList { number_elements } => 0 <= number_elements <= d && next == d
            - number_elements + 1,
        InstructionView::CallFunction { number_arguments } => 0 <= number_arguments < d && next == d
            - number_arguments,
        InstructionView::MakeFunction(has_defaults) => if has_defaults {
            d >= 3 && next == d - 2
        } else {
            d >= 2 && next == d - 1
        },
        InstructionView::MakeClass => d >= 2 && next == d - 1,
        InstructionView::JumpUnconditional(t) => 0 <= t <= last && depths[t] == d,
        InstructionView::JumpIfFalseAndPopStack(t) => d >= 1 && next == d - 1 && 0 <= t <= last
            && depths[t] == d - 1,
        InstructionView::ForIter(t) => d >= 1 && next == d + 1 && 0 <= t <= last && depths[t] == d
            - 1,
        InstructionView::Raise => d >= 1,
        InstructionView::ReturnValue => d == 1 + leave,
        InstructionView::UnresolvedBreak => true,
        _ => d >= 2 && next == d - 1,
    }
}

/// Whether the code `code` keeps to the depths `depths`: it begins with
/// an empty stack, every instruction keeps to the depths, and the end of
/// the code, like a return, is reached with `leave` values.
pub open spec fn admits(code: Seq<InstructionView>, depths: Seq<int>, leave: int) -> bool {
    &&& depths.len() == code.len() + 1
    &&& depths[0] == 0
    &&& depths[code.len() as int] == leave
    &&& forall|pc: int| 0 <= pc < code.len() ==> keeps(#[trigger] code[pc], pc, depths, leave)
}

/// Whether the stack holds `depth` values at the index `pc` by every
/// account of depths that the code keeps to.
pub open spec fn on_course(code: Seq<InstructionView>, pc: int, depth: int) -> bool {
    forall|depths: Seq<int>, leave: int| #[trigger]
        admits(code, depths, leave) ==> depths[pc] == depth
}

/// Whether `n` is the number of values that the code leaves behind by
/// every account of depths that it keeps to.
pub open spec fn leaves_with(code: Seq<InstructionView>, n: int) -> bool {
    forall|depths: Seq<int>, leave: int| #[trigger] admits(code, depths, leave) ==> leave == n
}

/// What an instruction that takes `takes` values and then leaves `gives`
/// does to the course.
pub open spec fn moves(i: InstructionView) -> Option<(int, int)> {
    match i {
        InstructionView::LoadConst(_) => Some((0, 1)),
        InstructionView::LoadName(_) => Some((0, 1)),
        InstructionView::LoadGlobal(_) => Some((0, 1)),
        InstructionView::StoreName(_) => Some((1, 0)),
        InstructionView::PopTop => Some((1, 0)),
        InstructionView::LoadAttr(_) => Some((1, 1)),
        InstructionView::StoreAttr(_) => Some((2, 0)),
        InstructionView::BuildList { number_elements } => Some((number_elements, 1)),
        InstructionView::CallFunction { number_arguments } => Some((number_arguments + 1, 1)),
        InstructionView::MakeFunction(has_defaults) => if has_defaults {
            Some((3, 1))
        } else {
            Some((2, 1))
        },
        InstructionView::MakeClass => Some((2, 1)),
        InstructionView::JumpIfFalseAndPopStack(_) => Some((1, 0)),
        InstructionView::BinaryAdd => Some((2, 1)),
        InstructionView::BinarySubtract => Some((2, 1)),
        InstructionView::BinaryMultiply => Some((2, 1)),
        InstructionView::BinaryTrueDivision => Some((2, 1)),
        InstructionView::BinaryModulus => Some((2, 1)),
        InstructionView::CompareEquals => Some((2, 1)),
        InstructionView::CompareNotEquals => Some((2, 1)),
        InstructionView::CompareLessThan => Some((2, 1)),
        InstructionView::CompareGreaterThan => Some((2, 1)),
        InstructionView::CompareLessEquals => Some((2, 1)),
        InstructionView::CompareGreaterEquals => Some((2, 1)),
        InstructionView::IndexAccess => Some((2, 1)),
        _ => None,
    }
}

/// An instruction that takes and gives values moves the course on to the
/// next index by what it gives less what it takes.
pub proof fn lemma_course_moves(code: Seq<InstructionView>, pc: int, depth: int)
    requires
        0 <= pc < code.len(),
        on_course(code, pc, depth),
        moves(code[pc]) is Some,
    ensures
        on_course(code, pc + 1, depth - moves(code[pc]).unwrap().0 + moves(code[pc]).unwrap().1),
{
    let (takes, gives) = moves(code[pc]).unwrap();
    assert forall|depths: Seq<int>, leave: int| #[trigger]
        admits(code, depths, leave) implies depths[pc + 1] == depth - takes + gives by {
        assert(keeps(code[pc], pc, depths, leave));
    }
}

/// A jump moves the course to its target; a jump on a condition that
/// happens moves it there with the condition taken off, and `ForIter`
/// with the iterator taken off when the iteration is over, with an item
/// more to the next index when it is not.
pub proof fn lemma_course_jumps(code: Seq<InstructionView>, pc: int, depth: int)
    requires
        0 <= pc < code.len(),
        on_course(code, pc, depth),
    ensures
        match code[pc] {
            InstructionView::JumpUnconditional(t) => on_course(code, t, depth),
            InstructionView::JumpIfFalseAndPopStack(t) => on_course(code, t, depth - 1),
            InstructionView::ForIter(t) => on_course(code, t, depth - 1) && on_course(
                code,
                pc + 1,
                depth + 1,
            ),
            InstructionView::ReturnValue => leaves_with(code, depth - 1),
            _ => true,
        },
{
    assert forall|depths: Seq<int>, leave: int| #[trigger] admits(code, depths, leave) implies match code[pc] {
        InstructionView::JumpUnconditional(t) => depths[t] == depth,
        InstructionView::JumpIfFalseAndPopStack(t) => depths[t] == depth - 1,
        InstructionView::ForIter(t) => depths[t] == depth - 1 && depths[pc + 1] == depth + 1,
        InstructionView::ReturnValue => leave == depth - 1,
        _ => true,
    } by {
        assert(keeps(code[pc], pc, depths, leave));
    }
}

/// At the end of the code the course is what the code leaves behind.
pub proof fn lemma_course_ends(code: Seq<InstructionView>, depth: int)
    requires
        on_course(code, code.len() as int, depth),
    ensures
        leaves_with(code, depth),
{
}

/// Code begins its course with an empty stack.
pub proof fn lemma_course_begins(code: Seq<InstructionView>)
    ensures
        on_course(code, 0, 0),
{
}

} // verus!
