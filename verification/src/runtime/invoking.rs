//! The instructions that make calls: of what the code calls, of the
//! methods behind operators, conditions and loops, and of the body of a
//! class.

use vstd::prelude::*;
use crate::bytecode::program::Instruction;
use crate::bytecode::program::InstructionView;
use crate::runtime::attributes::Attribute;
use crate::runtime::attributes::find_method;
use crate::runtime::calls::CallStart;
use crate::runtime::calls::call_outcome;
use crate::runtime::calls::entered;
use crate::runtime::calls::start_call;
use crate::runtime::datamodel::BuiltInTypeData;
use crate::runtime::datamodel::PyObject;
use crate::runtime::datamodel::PyObjectStructure;
use crate::runtime::datamodel::all_below;
use crate::runtime::datamodel::lemma_evolves_trans;
use crate::runtime::datamodel::option_below;
use crate::runtime::interpreter::ExecutionOutcome;
use crate::runtime::interpreter::Fault;
use crate::runtime::interpreter::Flow;
use crate::runtime::interpreter::call_method;
use crate::runtime::interpreter::method_outcome;
use crate::runtime::interpreter::new_frame;
use crate::runtime::interpreter::run;
use crate::runtime::interpreter::run_outcome;
use crate::runtime::names::MemoryAddress;
use crate::runtime::names::NameMap;
use crate::runtime::natives::NativeHost;
use crate::runtime::opcodes::handled;
use crate::runtime::opcodes::op_jump_unless;
use crate::runtime::vm::Frame;
use crate::runtime::vm::VM;
use crate::runtime::vm::code_at;
use crate::runtime::vm::frame_ok;
use crate::runtime::vm::lemma_frame_evolves;

verus! {

/// What a call of `callable` from `frame` leaves, where `rest` is what
/// the value stack of the frame holds besides the callable and the
/// arguments: the call begins as [`call_outcome`] says; its result, if it
/// is over at once, is put on `rest`, and the frame goes on at its next
/// instruction; so it does when the call has a frame to run, which is
/// handed out; with an exception pending the frame stays where it is.
pub open spec fn invoke_outcome(
    before: VM,
    frame: Frame,
    rest: Seq<MemoryAddress>,
    callable: MemoryAddress,
    bound: Option<MemoryAddress>,
    args: Seq<MemoryAddress>,
    after: VM,
    later: Frame,
    flow: Flow,
) -> bool
    decreases before.steps_left, 37nat,
{
    exists|start: CallStart| #[trigger]
        invoked(start, frame, rest, later, flow) && call_outcome(
            before,
            callable,
            bound,
            args,
            start,
            after,
        )
}

/// What a frame makes of a call that began as `start`: the result of a
/// call that is over is put on `rest`, and the frame goes on at its next
/// instruction; so it does when the call has a frame to run, which is
/// handed out; with an exception pending the frame stays where it is.
pub open spec fn invoked(
    start: CallStart,
    frame: Frame,
    rest: Seq<MemoryAddress>,
    later: Frame,
    flow: Flow,
) -> bool {
    frame.continues_as(later) && later.locals == frame.locals && later.value_stack@ == match start {
        CallStart::Value(a) => rest.push(a),
        _ => rest,
    } && later.pc == match start {
        CallStart::Raised => frame.pc as int,
        _ => frame.pc + 1,
    } && flow == match start {
        CallStart::Value(_) => Flow::Next,
        CallStart::Enter(callee) => Flow::Call(callee),
        CallStart::Raised => Flow::Raised,
    }
}

/// What a call from a frame leaves does not depend on what the frame's
/// value stack held when the call was made.
pub proof fn lemma_invoke_outcome_of(
    before: VM,
    frame: Frame,
    taken: Frame,
    rest: Seq<MemoryAddress>,
    callable: MemoryAddress,
    bound: Option<MemoryAddress>,
    args: Seq<MemoryAddress>,
    after: VM,
    later: Frame,
    flow: Flow,
)
    requires
        invoke_outcome(before, taken, rest, callable, bound, args, after, later, flow),
        frame.continues_as(taken),
        taken.locals == frame.locals,
        taken.pc == frame.pc,
    ensures
        invoke_outcome(before, frame, rest, callable, bound, args, after, later, flow),
{
    let start = choose|start: CallStart| #[trigger]
        invoked(start, taken, rest, later, flow) && call_outcome(
            before,
            callable,
            bound,
            args,
            start,
            after,
        );
    assert(invoked(start, frame, rest, later, flow));
}

/// Calls `callable` from `frame`: the result, if the call is over at once,
/// is pushed on the frame's value stack; else the frame to run is handed
/// out. Either way `frame` goes on at its next instruction.
pub fn op_invoke<H: NativeHost>(
    vm: &mut VM,
    host: &H,
    frame: &mut Frame,
    callable: MemoryAddress,
    bound: Option<MemoryAddress>,
    args: Vec<MemoryAddress>,
) -> (flow: Flow)
    requires
        old(vm).wf(),
        frame_ok(old(vm).heap@, *old(frame)),
        old(frame).at_instruction(old(vm).heap@),
        old(vm).valid(callable),
        option_below(bound, old(vm).heap.len() as int),
        all_below(args@, old(vm).heap.len() as int),
    ensures
        handled(*old(vm), *old(frame), *final(vm), *final(frame)),
        match flow {
            Flow::Next => final(vm).pending_exception is None,
            Flow::Call(callee) => frame_ok(final(vm).heap@, callee) && !callee.entry,
            Flow::Raised => final(vm).pending_exception is Some,
            _ => false,
        },
        invoke_outcome(
            *old(vm),
            *old(frame),
            old(frame).value_stack@,
            callable,
            bound,
            args@,
            *final(vm),
            *final(frame),
            flow,
        ),
    decreases old(vm).steps_left, 9nat,
{
    let ghost given = args@;
    let start = start_call(vm, host, callable, bound, args);
    proof {
        lemma_frame_evolves(old(vm).heap@, vm.heap@, *old(frame));
    }
    let ghost began = start;
    let flow = match start {
        CallStart::Value(result) => {
            frame.value_stack.push(result);
            frame.pc = frame.pc + 1;
            Flow::Next
        },
        CallStart::Enter(callee) => {
            frame.pc = frame.pc + 1;
            Flow::Call(callee)
        },
        CallStart::Raised => Flow::Raised,
    };
    assert(call_outcome(*old(vm), callable, bound, given, began, *vm));
    assert(invoked(began, *old(frame), old(frame).value_stack@, *frame, flow));
    flow
}

/// The method that an operator instruction calls on its left operand.
pub open spec fn operator_method(i: InstructionView) -> Option<Seq<char>> {
    match i {
        InstructionView::BinaryAdd => Some("__add__"@),
        InstructionView::BinarySubtract => Some("__sub__"@),
        InstructionView::BinaryMultiply => Some("__mul__"@),
        InstructionView::BinaryTrueDivision => Some("__truediv__"@),
        InstructionView::BinaryModulus => Some("__mod__"@),
        InstructionView::CompareEquals => Some("__eq__"@),
        InstructionView::CompareNotEquals => Some("__neq__"@),
        InstructionView::CompareLessThan => Some("__lt__"@),
        InstructionView::CompareGreaterThan => Some("__gt__"@),
        InstructionView::CompareLessEquals => Some("__le__"@),
        InstructionView::CompareGreaterEquals => Some("__ge__"@),
        InstructionView::IndexAccess => Some("__getitem__"@),
        _ => None,
    }
}

/// The method that an operator instruction calls on its left operand.
pub fn method_of_operator(i: &Instruction) -> (r: Option<&'static str>)
    ensures
        match r {
            Some(name) => operator_method(i.deep_view()) == Some(name@),
            None => operator_method(i.deep_view()) is None,
        },
{
    match i {
        Instruction::BinaryAdd => Some("__add__"),
        Instruction::BinarySubtract => Some("__sub__"),
        Instruction::BinaryMultiply => Some("__mul__"),
        Instruction::BinaryTrueDivision => Some("__truediv__"),
        Instruction::BinaryModulus => Some("__mod__"),
        Instruction::CompareEquals => Some("__eq__"),
        Instruction::CompareNotEquals => Some("__neq__"),
        Instruction::CompareLessThan => Some("__lt__"),
        Instruction::CompareGreaterThan => Some("__gt__"),
        Instruction::CompareLessEquals => Some("__le__"),
        Instruction::CompareGreaterEquals => Some("__ge__"),
        Instruction::IndexAccess => Some("__getitem__"),
        _ => None,
    }
}

/// What is said where the type `kind` has no method `method` for an
/// operator.
pub open spec fn missing_operator(kind: Seq<char>, method: Seq<char>) -> Seq<char> {
    "unsupported operand: '"@ + kind + "' has no "@ + method
}

/// What an operator instruction that calls `method` leaves: the method
/// is looked up on the operand below the top of the value stack and
/// called with the operand on top; without such a method a `TypeError` is
/// raised.
pub open spec fn operator_outcome(
    before: VM,
    frame: Frame,
    method: Seq<char>,
    after: VM,
    later: Frame,
    flow: Flow,
) -> bool
    decreases before.steps_left, 38nat,
{
    let n = frame.value_stack.len() as int;
    if n < 2 {
        flow == Flow::Fault(Fault::StackUnderflow) && after == before && later == frame
    } else {
        let rest = frame.value_stack@.subrange(0, n - 2);
        let args = seq![frame.value_stack[n - 1]];
        match before.lookup(frame.value_stack[n - 2], method) {
            Some(Attribute::Value(found)) => invoke_outcome(
                before,
                frame,
                rest,
                found,
                None,
                args,
                after,
                later,
                flow,
            ),
            Some(Attribute::Method { receiver, callable }) => invoke_outcome(
                before,
                frame,
                rest,
                callable,
                Some(receiver),
                args,
                after,
                later,
                flow,
            ),
            None => flow is Raised && before.raises(
                after,
                before.builtin_type_addrs.type_err,
                before.heap.len(),
                missing_operator(before.type_name_of(frame.value_stack[n - 2]), method),
            ) && frame.continues_as(later) && later.locals == frame.locals && later.pc == frame.pc
                && later.value_stack@ == rest,
        }
    }
}

/// An operator instruction: pops the right operand, then the left one, and
/// calls the method `method` of the left operand on the right one. Raises a
/// `TypeError` if the left operand has no such method.
pub fn op_operator<H: NativeHost>(vm: &mut VM, host: &H, frame: &mut Frame, method: &str) -> (flow:
    Flow)
    requires
        old(vm).wf(),
        frame_ok(old(vm).heap@, *old(frame)),
        old(frame).at_instruction(old(vm).heap@),
    ensures
        handled(*old(vm), *old(frame), *final(vm), *final(frame)),
        match flow {
            Flow::Next => true,
            Flow::Call(callee) => frame_ok(final(vm).heap@, callee) && !callee.entry,
            Flow::Raised => final(vm).pending_exception is Some,
            Flow::Fault(fault) => fault == Fault::StackUnderflow,
            _ => false,
        },
        operator_outcome(*old(vm), *old(frame), method@, *final(vm), *final(frame), flow),
    decreases old(vm).steps_left, 10nat,
{
    let n = frame.value_stack.len();
    if n < 2 {
        return Flow::Fault(Fault::StackUnderflow);
    }
    let ghost stack = frame.value_stack@;
    let rhs = frame.value_stack.pop().unwrap();
    let lhs = frame.value_stack.pop().unwrap();
    assert(frame.value_stack@ =~= stack.subrange(0, n - 2));
    let (callable, bound) = match vm.resolve_attribute(lhs, method) {
        Some(Attribute::Value(found)) => (found, None),
        Some(Attribute::Method { receiver, callable }) => (callable, Some(receiver)),
        None => {
            let kind = vm.get_pyobj_type_name(lhs);
            let message = "unsupported operand: '".to_string().concat(kind.as_str()).concat(
                "' has no ",
            ).concat(method);
            vm.raise_new(vm.builtin_type_addrs.type_err, message);
            proof {
                lemma_frame_evolves(old(vm).heap@, vm.heap@, *old(frame));
            }
            return Flow::Raised;
        },
    };
    let mut args: Vec<MemoryAddress> = Vec::new();
    args.push(rhs);
    let ghost taken = *frame;
    let ghost given = args@;
    let flow = op_invoke(vm, host, frame, callable, bound, args);
    proof {
        assert(given =~= seq![rhs]);
        lemma_invoke_outcome_of(
            *old(vm),
            *old(frame),
            taken,
            taken.value_stack@,
            callable,
            bound,
            given,
            *vm,
            *frame,
            flow,
        );
    }
    flow
}

/// What `CallFunction` with `count` arguments leaves: what is below the
/// arguments on the value stack is called with them.
pub open spec fn call_function_outcome(
    before: VM,
    frame: Frame,
    count: int,
    after: VM,
    later: Frame,
    flow: Flow,
) -> bool
    decreases before.steps_left, 38nat,
{
    let n = frame.value_stack.len() as int;
    if n <= count {
        flow == Flow::Fault(Fault::StackUnderflow) && after == before && later == frame
    } else {
        invoke_outcome(
            before,
            frame,
            frame.value_stack@.subrange(0, n - count - 1),
            frame.value_stack[n - count - 1],
            None,
            frame.value_stack@.subrange(n - count, n),
            after,
            later,
            flow,
        )
    }
}

/// `CallFunction`: pops `count` arguments, the last one first, then what
/// is to be called, and calls it.
pub fn op_call_function<H: NativeHost>(vm: &mut VM, host: &H, frame: &mut Frame, count: usize) -> (flow:
    Flow)
    requires
        old(vm).wf(),
        frame_ok(old(vm).heap@, *old(frame)),
        old(frame).at_instruction(old(vm).heap@),
    ensures
        handled(*old(vm), *old(frame), *final(vm), *final(frame)),
        match flow {
            Flow::Next => true,
            Flow::Call(callee) => frame_ok(final(vm).heap@, callee) && !callee.entry,
            Flow::Raised => final(vm).pending_exception is Some,
            Flow::Fault(fault) => fault == Fault::StackUnderflow,
            _ => false,
        },
        call_function_outcome(
            *old(vm),
            *old(frame),
            count as int,
            *final(vm),
            *final(frame),
            flow,
        ),
    decreases old(vm).steps_left, 10nat,
{
    let n = frame.value_stack.len();
    if n <= count {
        return Flow::Fault(Fault::StackUnderflow);
    }
    let ghost stack = frame.value_stack@;
    let args = frame.value_stack.split_off(n - count);
    let callable = frame.value_stack.pop().unwrap();
    assert(frame.value_stack@ =~= stack.subrange(0, n - count - 1));
    let ghost taken = *frame;
    let ghost given = args@;
    let flow = op_invoke(vm, host, frame, callable, None, args);
    proof {
        assert(given =~= stack.subrange(n - count, n as int));
        lemma_invoke_outcome_of(
            *old(vm),
            *old(frame),
            taken,
            taken.value_stack@,
            callable,
            None,
            given,
            *vm,
            *frame,
            flow,
        );
    }
    flow
}

impl VM {
    /// Whether the type of the object at `a`, or a type that it extends,
    /// defines `__bool__` as a function compiled from source.
    pub open spec fn truth_overridden(self, a: MemoryAddress) -> bool
        recommends
            self.valid(a),
    {
        find_method(self.heap@, self.heap[a as int].type_addr, "__bool__"@) matches Some(f)
            && self.valid(f) && self.heap[f as int].structure is Function
    }

    /// Whether the type of the object at `a` defines `__bool__` in source.
    pub fn has_truth_override(&self, a: MemoryAddress) -> (r: bool)
        requires
            self.wf(),
            self.valid(a),
        ensures
            r == self.truth_overridden(a),
    {
        match self.find_in_types(self.heap[a].type_addr, "__bool__") {
            Some(f) => match &self.heap[f].structure {
                PyObjectStructure::Function { .. } => true,
                _ => false,
            },
            None => false,
        }
    }

    /// The items of the list, and the position in it, that the list
    /// iterator at `a` stands for; nothing if the object there is no list
    /// iterator over a list.
    pub open spec fn iteration_at(self, a: MemoryAddress) -> Option<(Seq<MemoryAddress>, int)>
        recommends
            self.valid(a),
    {
        match self.heap[a as int].structure {
            PyObjectStructure::Instance {
                builtin: Some(BuiltInTypeData::ListIterator { list, position }),
            } => match self.heap[list as int].structure {
                PyObjectStructure::Instance { builtin: Some(BuiltInTypeData::List(items)) } => Some(
                    (items@, position as int),
                ),
                _ => None,
            },
            _ => None,
        }
    }

    /// Whether the object at `a` is a list iterator.
    pub open spec fn is_list_iterator(self, a: MemoryAddress) -> bool
        recommends
            self.valid(a),
    {
        self.heap[a as int].structure matches PyObjectStructure::Instance {
            builtin: Some(BuiltInTypeData::ListIterator { .. }),
        }
    }

    /// Takes the next item from the list iterator at `a`: hands it out and
    /// moves the iterator on, or hands out nothing, and leaves the
    /// iterator alone, if it is at the end of its list, or runs over
    /// something that is no list.
    pub fn advance_list_iterator(&mut self, a: MemoryAddress) -> (r: Option<MemoryAddress>)
        requires
            old(self).wf(),
            old(self).valid(a),
            old(self).is_list_iterator(a),
        ensures
            final(self).wf(),
            old(self).before(*final(self)),
            old(self).same_but_heap(*final(self)),
            final(self).heap.len() == old(self).heap.len(),
            forall|b: int|
                0 <= b < old(self).heap.len() && b != a ==> final(self).heap[b] == old(self).heap[b],
            match old(self).iteration_at(a) {
                Some((items, position)) => if position < items.len() {
                    &&& r == Some(items[position])
                    &&& final(self).iteration_at(a) == Some((items, position + 1))
                    &&& final(self).valid(items[position])
                } else {
                    r is None && final(self).heap == old(self).heap
                },
                None => r is None && final(self).heap == old(self).heap,
            },
    {
        assert(self.heap[a as int].closed(self.heap.len() as int));
        let (list, position) = match &self.heap[a].structure {
            PyObjectStructure::Instance {
                builtin: Some(BuiltInTypeData::ListIterator { list, position }),
            } => (*list, *position),
            _ => (0, 0),
        };
        assert(self.heap[list as int].closed(self.heap.len() as int));
        let item = match &self.heap[list].structure {
            PyObjectStructure::Instance { builtin: Some(BuiltInTypeData::List(items)) } => {
                if position < items.len() {
                    Some(items[position])
                } else {
                    None
                }
            },
            _ => None,
        };
        match item {
            Some(found) => {
                match &mut self.heap[a].structure {
                    PyObjectStructure::Instance {
                        builtin: Some(BuiltInTypeData::ListIterator { position: p, .. }),
                    } => {
                        *p = position + 1;
                    },
                    _ => {},
                }
                proof {
                    let object = self.heap[a as int];
                    assert(self.heap@ =~= old(self).heap@.update(a as int, object));
                    crate::runtime::vm::lemma_heap_update(old(self).heap@, a as int, object);
                    crate::runtime::vm::lemma_wf_evolves(*old(self), *self);
                }
                Some(found)
            },
            None => None,
        }
    }
}

/// What `JumpIfFalseAndPopStack` leaves of the machine `before` and the
/// frame `frame`: the machine `after`, the frame `later` and how to go on.
pub open spec fn jump_if_false_outcome(
    before: VM,
    frame: Frame,
    target: int,
    after: VM,
    later: Frame,
    flow: Flow,
) -> bool
    decreases before.steps_left, 38nat,
{
    &&& later.locals == frame.locals
    &&& flow is Next || flow is Raised || flow is Halt || flow is Fault
    &&& flow != Flow::Fault(Fault::InvalidProgram)
    &&& flow is Raised ==> after.pending_exception is Some
    &&& flow is Halt ==> after.steps_left == 0
    &&& flow is Next ==> later.value_stack@ == frame.value_stack@.drop_last() && (later.pc == frame.pc + 1 || later.pc == target)
    &&& frame.value_stack.len() == 0 <==> flow == Flow::Fault(Fault::StackUnderflow)
    &&& frame.value_stack.len() > 0 && !before.truth_overridden(
        frame.value_stack@.last(),
    ) ==> {
        &&& flow is Next
        &&& after == before
        &&& later.value_stack@ == frame.value_stack@.drop_last()
        &&& later.pc == if before.truthy(frame.value_stack@.last()) {
            frame.pc + 1
        } else {
            target
        }
    }
    &&& frame.value_stack.len() > 0 && before.truth_overridden(frame.value_stack@.last())
        ==> exists|answer: Option<MemoryAddress>| #[trigger]
        truth_answered(after, frame, target, answer, later, flow) && method_outcome(
            before,
            frame.value_stack@.last(),
            "__bool__"@,
            Seq::<MemoryAddress>::empty(),
            answer,
            after,
        )
}

/// What `JumpIfFalseAndPopStack` makes of the answer `answer` of an
/// object's `__bool__`, which left the machine `after`: the frame goes on
/// at its next instruction if the answer counts as true, at `target` if
/// not; without an answer an exception is pending, or no step is left.
pub open spec fn truth_answered(
    after: VM,
    frame: Frame,
    target: int,
    answer: Option<MemoryAddress>,
    later: Frame,
    flow: Flow,
) -> bool {
    match answer {
        Some(verdict) => flow is Next && later.pc == if after.truthy(verdict) {
            frame.pc + 1
        } else {
            target
        },
        None => flow == if after.pending_exception is Some {
            Flow::Raised
        } else {
            Flow::Halt
        },
    }
}

/// `JumpIfFalseAndPopStack`: pops a value and goes on at `target` if it
/// does not count as true, at the next instruction if it does. Whether it
/// counts as true is decided by its `__bool__`, where its class defines
/// one, and by what it is otherwise.
pub fn op_jump_if_false<H: NativeHost>(vm: &mut VM, host: &H, frame: &mut Frame, target: usize) -> (flow:
    Flow)
    requires
        old(vm).wf(),
        frame_ok(old(vm).heap@, *old(frame)),
        old(frame).at_instruction(old(vm).heap@),
        target <= code_at(old(vm).heap@, old(frame).code).instructions.len(),
    ensures
        handled(*old(vm), *old(frame), *final(vm), *final(frame)),
        jump_if_false_outcome(
            *old(vm),
            *old(frame),
            target as int,
            *final(vm),
            *final(frame),
            flow,
        ),
    decreases old(vm).steps_left, 10nat,
{
    let value = match frame.value_stack.pop() {
        Some(value) => value,
        None => {
            return Flow::Fault(Fault::StackUnderflow);
        },
    };
    if vm.has_truth_override(value) {
        let answer = call_method(vm, host, value, "__bool__", Vec::new());
        proof {
            lemma_frame_evolves(old(vm).heap@, vm.heap@, *old(frame));
            assert(method_outcome(
                *old(vm),
                value,
                "__bool__"@,
                Seq::<MemoryAddress>::empty(),
                answer,
                *vm,
            ));
        }
        let flow = match answer {
            Some(verdict) => {
                let holds = vm.is_truthy(verdict);
                op_jump_unless(vm, frame, target, holds);
                Flow::Next
            },
            None => {
                if vm.pending_exception.is_some() {
                    Flow::Raised
                } else {
                    Flow::Halt
                }
            },
        };
        proof {
            assert(old(frame).value_stack@.last() == value);
            assert(truth_answered(*vm, *old(frame), target as int, answer, *frame, flow));
        }
        flow
    } else {
        let holds = vm.is_truthy(value);
        op_jump_unless(vm, frame, target, holds);
        Flow::Next
    }
}

/// What `ForIter` leaves of the machine `before` and the frame `frame`:
/// the machine `after`, the frame `later` and how to go on.
pub open spec fn for_iter_outcome(
    before: VM,
    frame: Frame,
    target: int,
    after: VM,
    later: Frame,
    flow: Flow,
) -> bool
    decreases before.steps_left, 38nat,
{
    &&& later.locals == frame.locals
    &&& flow is Next || flow is Raised || flow is Halt || flow is Fault
    &&& flow != Flow::Fault(Fault::InvalidProgram)
    &&& flow is Raised ==> after.pending_exception is Some
    &&& flow is Halt ==> after.steps_left == 0
    &&& flow is Next ==> (later.pc == frame.pc + 1 && later.value_stack.len()
        == frame.value_stack.len() + 1) || (later.pc == target && later.value_stack.len() == frame.value_stack.len() - 1)
    &&& frame.value_stack.len() == 0 <==> flow == Flow::Fault(Fault::StackUnderflow)
    &&& frame.value_stack.len() > 0 && before.is_list_iterator(
        frame.value_stack@.last(),
    ) ==> {
        let iterator = frame.value_stack@.last();
        &&& flow is Next
        &&& after.pending_exception == before.pending_exception
        &&& match before.iteration_at(iterator) {
            Some((items, position)) if position < items.len() => {
                &&& later.pc == frame.pc + 1
                &&& later.value_stack@ == frame.value_stack@.push(items[position])
                &&& after.iteration_at(iterator) == Some((items, position + 1))
            },
            _ => {
                &&& later.pc == target
                &&& later.value_stack@ == frame.value_stack@.drop_last()
                &&& after == before
            },
        }
    }
    &&& frame.value_stack.len() > 0 && !before.is_list_iterator(frame.value_stack@.last())
        ==> exists|item: Option<MemoryAddress>, called: VM| #[trigger]
        asked_for_item(called, frame, target, item, after, later, flow) && method_outcome(
            before,
            frame.value_stack@.last(),
            "__next__"@,
            Seq::<MemoryAddress>::empty(),
            item,
            called,
        )
}

/// What `ForIter` makes of the answer `item` of an iterator's `__next__`,
/// which left the machine `called`: an item is put on the value stack,
/// and the frame goes on at its next instruction; a pending
/// `StopIteration` is taken back, the iterator is taken off the value
/// stack, and the frame goes on at `target`.
pub open spec fn asked_for_item(
    called: VM,
    frame: Frame,
    target: int,
    item: Option<MemoryAddress>,
    after: VM,
    later: Frame,
    flow: Flow,
) -> bool {
    match item {
        Some(found) => flow is Next && after == called && later.pc == frame.pc + 1
            && later.value_stack@ == frame.value_stack@.push(found),
        None => match called.pending_exception {
            Some(exception) => if called.heap[exception as int].type_addr
                == called.builtin_type_addrs.stop_iteration {
                flow is Next && after == (VM { pending_exception: None, ..called }) && later.pc
                    == target && later.value_stack@ == frame.value_stack@.drop_last()
            } else {
                flow is Raised && after == called
            },
            None => flow is Halt && after == called,
        },
    }
}

/// `ForIter`: asks the iterator on top of the stack for its next item and
/// pushes it; at the end of the iteration, pops the iterator and goes on
/// at `target`. A list iterator is asked directly; any other object
/// through its `__next__`, which ends the iteration by raising
/// `StopIteration`.
pub fn op_for_iter<H: NativeHost>(vm: &mut VM, host: &H, frame: &mut Frame, target: usize) -> (flow: Flow)
    requires
        old(vm).wf(),
        frame_ok(old(vm).heap@, *old(frame)),
        old(frame).at_instruction(old(vm).heap@),
        target <= code_at(old(vm).heap@, old(frame).code).instructions.len(),
    ensures
        handled(*old(vm), *old(frame), *final(vm), *final(frame)),
        for_iter_outcome(
            *old(vm),
            *old(frame),
            target as int,
            *final(vm),
            *final(frame),
            flow,
        ),
    decreases old(vm).steps_left, 10nat,
{
    let n = frame.value_stack.len();
    if n == 0 {
        return Flow::Fault(Fault::StackUnderflow);
    }
    let iterator = frame.value_stack[n - 1];
    let direct = match &vm.heap[iterator].structure {
        PyObjectStructure::Instance { builtin: Some(BuiltInTypeData::ListIterator { .. }) } => true,
        _ => false,
    };
    if direct {
        let item = vm.advance_list_iterator(iterator);
        proof {
            lemma_frame_evolves(old(vm).heap@, vm.heap@, *old(frame));
            assert(code_at(old(vm).heap@, frame.code) == code_at(vm.heap@, frame.code)) by {
                if iterator != frame.code {
                    assert(vm.heap[frame.code as int] == old(vm).heap[frame.code as int]);
                }
            }
        }
        match item {
            Some(found) => {
                frame.value_stack.push(found);
                frame.pc = frame.pc + 1;
            },
            None => {
                frame.value_stack.pop();
                frame.pc = target;
            },
        }
        return Flow::Next;
    }
    let item = call_method(vm, host, iterator, "__next__", Vec::new());
    let ghost called = *vm;
    proof {
        lemma_frame_evolves(old(vm).heap@, vm.heap@, *old(frame));
        assert(method_outcome(
            *old(vm),
            iterator,
            "__next__"@,
            Seq::<MemoryAddress>::empty(),
            item,
            called,
        ));
    }
    let flow = match item {
        Some(found) => {
            frame.value_stack.push(found);
            frame.pc = frame.pc + 1;
            Flow::Next
        },
        None => {
            match vm.pending_exception {
                Some(exception) => {
                    if vm.heap[exception].type_addr == vm.builtin_type_addrs.stop_iteration {
                        vm.pending_exception = None;
                        frame.value_stack.pop();
                        frame.pc = target;
                        Flow::Next
                    } else {
                        Flow::Raised
                    }
                },
                None => Flow::Halt,
            }
        },
    };
    assert(asked_for_item(called, *old(frame), target as int, item, *vm, *frame, flow));
    flow
}

/// What the first `n` of the slots `slots` hold, each under the name of
/// its slot in `names`; of two slots of one name the later one counts.
pub open spec fn slot_table(
    names: Seq<String>,
    slots: Seq<Option<MemoryAddress>>,
    n: nat,
) -> Map<Seq<char>, MemoryAddress>
    decreases n,
{
    if n == 0 || n > names.len() || n > slots.len() {
        Map::empty()
    } else {
        let before = slot_table(names, slots, (n - 1) as nat);
        match slots[n - 1] {
            Some(a) => before.insert(names[n - 1]@, a),
            None => before,
        }
    }
}

/// The number of slots that have a name.
pub open spec fn named_slots(names: Seq<String>, slots: Seq<Option<MemoryAddress>>) -> nat {
    if names.len() <= slots.len() {
        names.len()
    } else {
        slots.len()
    }
}

/// The methods of a new class: what the slots of its body's frame hold,
/// each under the name of its slot.
fn class_table(vm: &VM, code: MemoryAddress) -> (r: NameMap)
    requires
        vm.wf(),
        vm.valid(code),
        vm.heap[code as int].structure.is_code(),
    ensures
        r.below(vm.heap.len() as int),
        r@ == slot_table(
            code_at(vm.heap@, code).names@,
            vm.locals@,
            named_slots(code_at(vm.heap@, code).names@, vm.locals@),
        ),
{
    let mut table = NameMap::new();
    match &vm.heap[code].structure {
        PyObjectStructure::Instance { builtin: Some(BuiltInTypeData::Code { code: unit, .. }) } => {
            let mut i: usize = 0;
            while i < unit.names.len() && i < vm.locals.len()
                invariant
                    vm.wf(),
                    table.below(vm.heap.len() as int),
                    i <= unit.names.len(),
                    i <= vm.locals.len(),
                    table@ == slot_table(unit.names@, vm.locals@, i as nat),
                decreases unit.names.len() - i,
            {
                match vm.locals[i] {
                    Some(a) => {
                        table.insert(unit.names[i].clone(), a);
                    },
                    None => {},
                }
                i += 1;
            }
        },
        _ => {},
    }
    table
}

/// What `MakeClass` leaves of the machine `before` and the frame `frame`:
/// the machine `after`, the frame `later` and how to go on.
pub open spec fn make_class_outcome(
    before: VM,
    frame: Frame,
    after: VM,
    later: Frame,
    flow: Flow,
) -> bool
    decreases before.steps_left, 38nat,
{
    &&& later.locals == frame.locals
    &&& flow is Next || flow is Raised || flow is Halt || flow is Fault
    &&& flow != Flow::Fault(Fault::InvalidProgram)
    &&& flow is Raised ==> after.pending_exception is Some
    &&& flow is Halt ==> after.steps_left == 0
    &&& frame.value_stack.len() < 2 ==> flow == Flow::Fault(Fault::StackUnderflow)
    &&& flow is Next ==> later.pc == frame.pc + 1
    &&& flow is Next ==> {
        let n = frame.value_stack.len();
        let made = later.value_stack@.last();
        &&& n >= 2
        &&& later.value_stack@.len() == n - 1
        &&& later.value_stack@.drop_last() == frame.value_stack@.subrange(0, n - 2)
        &&& after.heap[made as int].type_addr == before.builtin_type_addrs.type_type
        &&& after.heap[made as int].structure matches PyObjectStructure::Type {
            name,
            supertype,
            ..
        } && supertype is None && (before.heap[frame.value_stack[n - 1] as int].structure matches PyObjectStructure::Instance {
            builtin: Some(BuiltInTypeData::String(text)),
        } && name@ == text@)
    }
    &&& frame.value_stack.len() >= 2 ==> {
        let n = frame.value_stack.len() as int;
        let code = frame.value_stack[n - 2];
        let rest = frame.value_stack@.subrange(0, n - 2);
        match before.text_at(frame.value_stack[n - 1]) {
            Some(name) if before.heap[code as int].structure.is_code() => if before.steps_left
                == 0 {
                flow is Halt && after == before
            } else {
                let paid = VM { steps_left: (before.steps_left - 1) as u64, ..before };
                exists|body: Frame, entered: VM, outcome: ExecutionOutcome, ran: VM|
                    #![trigger body.fresh(code, code_at(before.heap@, code).names.len() as int), paid.same_but_frames(entered), class_made(ran, code, name, outcome, frame, rest, after, later, flow)]
                    body.fresh(code, code_at(before.heap@, code).names.len() as int)
                        && paid.same_but_frames(entered) && entered.frames@
                        == paid.frames@.push(body) && class_made(
                        ran,
                        code,
                        name,
                        outcome,
                        frame,
                        rest,
                        after,
                        later,
                        flow,
                    ) && run_outcome(entered, before.frames.len() as int, outcome, ran)
            },
            _ => flow is Raised && before.raises(
                after,
                before.builtin_type_addrs.type_err,
                before.heap.len(),
                "a class needs a name and a body"@,
            ),
        }
    }
}

impl Frame {
    /// Whether the frame is one in which the code object at `code`, which
    /// has `slots` names, begins to run and hands its result to the
    /// machine: at its first instruction, with empty slots and an empty
    /// value stack.
    pub open spec fn fresh(self, code: MemoryAddress, slots: int) -> bool {
        &&& self.code == code
        &&& self.pc == 0
        &&& self.locals@ == Seq::new(slots as nat, |i: int| None::<MemoryAddress>)
        &&& self.value_stack@ == Seq::<MemoryAddress>::empty()
        &&& self.entry
        &&& self.instance is None
    }
}

/// What `MakeClass` makes of the run of the body of the class `name`,
/// which is the code at `code` and ended as `outcome` with the machine
/// `ran`: where it has finished, a new type of that name is put on
/// `rest`, the value stack without the code and the name, and the frame
/// goes on at its next instruction; the methods of the type are what the
/// slots of the body hold, each under its name. Else the end of the run
/// is handed on.
pub open spec fn class_made(
    ran: VM,
    code: MemoryAddress,
    name: Seq<char>,
    outcome: ExecutionOutcome,
    frame: Frame,
    rest: Seq<MemoryAddress>,
    after: VM,
    later: Frame,
    flow: Flow,
) -> bool {
    match outcome {
        ExecutionOutcome::Finished => {
            let a = ran.heap.len() as int;
            &&& flow is Next
            &&& later.pc == frame.pc + 1
            &&& later.value_stack@ == rest.push(a as usize)
            &&& ran.same_but_heap(after)
            &&& after.heap.len() == a + 1
            &&& forall|b: int| 0 <= b < a ==> after.heap[b] == ran.heap[b]
            &&& after.heap[a].type_addr == ran.builtin_type_addrs.type_type
            &&& after.heap[a].attributes@ == Map::<Seq<char>, MemoryAddress>::empty()
            &&& after.heap[a].structure matches PyObjectStructure::Type {
                name: made,
                functions,
                supertype,
            } && made@ == name && supertype is None && functions@ == slot_table(
                code_at(ran.heap@, code).names@,
                ran.locals@,
                named_slots(code_at(ran.heap@, code).names@, ran.locals@),
            )
        },
        ExecutionOutcome::Raised(_) => flow is Raised && after == ran,
        ExecutionOutcome::OutOfSteps => flow is Halt && after == ran,
        ExecutionOutcome::Fault(fault) => flow == Flow::Fault(fault) && after == ran,
    }
}

/// `MakeClass`: pops the class's name and the code object of its body,
/// runs the body in a frame of its own, and pushes a new type whose methods
/// are what the body has stored. Raises a `TypeError` if the name is no
/// string or the body no code object. Running the body costs one step more.
pub fn op_make_class<H: NativeHost>(vm: &mut VM, host: &H, frame: &mut Frame) -> (flow: Flow)
    requires
        old(vm).wf(),
        frame_ok(old(vm).heap@, *old(frame)),
        old(frame).at_instruction(old(vm).heap@),
    ensures
        handled(*old(vm), *old(frame), *final(vm), *final(frame)),
        make_class_outcome(
            *old(vm),
            *old(frame),
            *final(vm),
            *final(frame),
            flow,
        ),
    decreases old(vm).steps_left, 10nat,
{
    let n = frame.value_stack.len();
    if n < 2 {
        return Flow::Fault(Fault::StackUnderflow);
    }
    let ghost stack = frame.value_stack@;
    let name_addr = frame.value_stack.pop().unwrap();
    let code = frame.value_stack.pop().unwrap();
    assert(frame.value_stack@ =~= stack.subrange(0, n - 2));
    let name = match &vm.heap[name_addr].structure {
        PyObjectStructure::Instance { builtin: Some(BuiltInTypeData::String(text)) } => Some(
            text.clone(),
        ),
        _ => None,
    };
    let slots = match &vm.heap[code].structure {
        PyObjectStructure::Instance { builtin: Some(BuiltInTypeData::Code { code: unit, .. }) } => Some(
            unit.names.len(),
        ),
        _ => None,
    };
    let ghost name_text = match old(vm).text_at(name_addr) {
        Some(text) => text,
        None => Seq::empty(),
    };
    let (name, slots) = match (name, slots) {
        (Some(name), Some(slots)) => (name, slots),
        _ => {
            vm.raise_new(
                vm.builtin_type_addrs.type_err,
                "a class needs a name and a body".to_string(),
            );
            proof {
                lemma_frame_evolves(old(vm).heap@, vm.heap@, *old(frame));
            }
            return Flow::Raised;
        },
    };
    if vm.steps_left == 0 {
        return Flow::Halt;
    }
    vm.steps_left = vm.steps_left - 1;
    let mut locals: Vec<Option<MemoryAddress>> = Vec::new();
    let mut i: usize = 0;
    while i < slots
        invariant
            i <= slots,
            locals.len() == i,
            forall|j: int| 0 <= j < i ==> locals[j] is None,
        decreases slots - i,
    {
        locals.push(None);
        i += 1;
    }
    let body = new_frame(code, locals, true, None);
    let base = vm.frames.len();
    let ghost called = *vm;
    vm.frames.push(body);
    let ghost pushed = *vm;
    assert(pushed.frames@.subrange(0, base as int) =~= called.frames@);
    let outcome = run(vm, host, base);
    let ghost ended = *vm;
    proof {
        lemma_evolves_trans(old(vm).heap@, pushed.heap@, vm.heap@);
        assert(vm.frames@ =~= old(vm).frames@);
        lemma_frame_evolves(old(vm).heap@, vm.heap@, *old(frame));
        assert(body.locals@ =~= Seq::new(slots as nat, |i: int| None::<MemoryAddress>));
        assert(body.fresh(code, slots as int));
        assert(called.same_but_frames(pushed));
    }
    let ghost rest = frame.value_stack@;
    let flow = match outcome {
        ExecutionOutcome::Finished => {
            let ghost ran = *vm;
            assert(crate::runtime::datamodel::same_object(
                old(vm).heap[code as int],
                vm.heap[code as int],
            ));
            let functions = class_table(vm, code);
            let class = PyObject {
                type_addr: vm.builtin_type_addrs.type_type,
                structure: PyObjectStructure::Type { name, functions, supertype: None },
                attributes: NameMap::new(),
            };
            let a = vm.allocate(class);
            proof {
                lemma_evolves_trans(old(vm).heap@, ran.heap@, vm.heap@);
                lemma_frame_evolves(old(vm).heap@, vm.heap@, *old(frame));
            }
            let ghost rest = frame.value_stack@;
            frame.value_stack.push(a);
            frame.pc = frame.pc + 1;
            assert(frame.value_stack@.drop_last() =~= rest);
            Flow::Next
        },
        ExecutionOutcome::Raised(_) => Flow::Raised,
        ExecutionOutcome::OutOfSteps => Flow::Halt,
        ExecutionOutcome::Fault(fault) => Flow::Fault(fault),
    };
    proof {
        let paid = VM { steps_left: (old(vm).steps_left - 1) as u64, ..*old(vm) };
        assert(called == paid);
        assert(body.fresh(code, code_at(old(vm).heap@, code).names.len() as int));
        assert(paid.same_but_frames(pushed));
        assert(pushed.frames@ == paid.frames@.push(body));
        assert(class_made(ended, code, name_text, outcome, *old(frame), rest, *vm, *frame, flow));
        assert(run_outcome(pushed, old(vm).frames.len() as int, outcome, ended));
    }
    flow
}

} // verus!
