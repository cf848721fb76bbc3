//! The interpreter: one instruction at a time, on the innermost frame.

use vstd::prelude::*;
use crate::bytecode::balance::leaves_with;
use crate::bytecode::balance::lemma_course_begins;
use crate::bytecode::closed::instruction_closed;
use crate::bytecode::program::CodeObject;
use crate::bytecode::program::Instruction;
use crate::bytecode::program::InstructionView;
use crate::bytecode::program::Program;
use crate::bytecode::support::loadable;
use crate::runtime::attributes::Attribute;
use crate::runtime::calls::CallStart;
use crate::runtime::calls::call_outcome;
use crate::runtime::calls::entered;
use crate::runtime::calls::start_call;
use crate::runtime::course::follows;
use crate::runtime::course::frame_code;
use crate::runtime::course::frame_on_course;
use crate::runtime::course::lemma_course_at_end;
use crate::runtime::course::lemma_course_goes_on;
use crate::runtime::course::lemma_follows_course;
use crate::runtime::course::lemma_frame_code_stays;
use crate::runtime::datamodel::BuiltInTypeData;
use crate::runtime::datamodel::PyObjectStructure;
use crate::runtime::datamodel::all_below;
use crate::runtime::datamodel::lemma_evolves_trans;
use crate::runtime::invoking::call_function_outcome;
use crate::runtime::invoking::for_iter_outcome;
use crate::runtime::invoking::jump_if_false_outcome;
use crate::runtime::invoking::make_class_outcome;
use crate::runtime::invoking::method_of_operator;
use crate::runtime::invoking::op_call_function;
use crate::runtime::invoking::op_for_iter;
use crate::runtime::invoking::op_jump_if_false;
use crate::runtime::invoking::op_make_class;
use crate::runtime::invoking::op_operator;
use crate::runtime::invoking::operator_method;
use crate::runtime::invoking::operator_outcome;
use crate::runtime::names::MemoryAddress;
use crate::runtime::natives::NativeHost;
use crate::runtime::opcodes::build_list_outcome;
use crate::runtime::opcodes::handled;
use crate::runtime::opcodes::missing_attribute;
use crate::runtime::opcodes::load_attr_outcome;
use crate::runtime::opcodes::load_global_outcome;
use crate::runtime::opcodes::load_name_outcome;
use crate::runtime::opcodes::make_function_outcome;
use crate::runtime::opcodes::op_build_list;
use crate::runtime::opcodes::op_jump;
use crate::runtime::opcodes::op_load_attr;
use crate::runtime::opcodes::op_load_const;
use crate::runtime::opcodes::op_load_global;
use crate::runtime::opcodes::op_load_name;
use crate::runtime::opcodes::op_make_function;
use crate::runtime::opcodes::op_pop_top;
use crate::runtime::opcodes::op_raise;
use crate::runtime::opcodes::op_return;
use crate::runtime::opcodes::op_store_attr;
use crate::runtime::opcodes::op_store_name;
use crate::runtime::opcodes::raise_outcome;
use crate::runtime::opcodes::store_attr_outcome;
use crate::runtime::opcodes::store_name_outcome;
use crate::runtime::vm::Frame;
use crate::runtime::vm::VM;
use crate::runtime::vm::code_at;
use crate::runtime::vm::consts_at;
use crate::runtime::vm::frame_ok;
use crate::runtime::vm::lemma_frame_evolves;

verus! {

/// What stops the machine other than the program itself.
#[derive(Debug, Clone, Copy, PartialEq, Eq, Structural)]
pub enum Fault {
    /// An instruction needed more values than the value stack held.
    StackUnderflow,
    /// An instruction that the compiler resolves was left unresolved.
    UnresolvedInstruction,
    /// The program has no unit, or a unit that cannot be loaded.
    InvalidProgram,
}

/// How a run ended.
#[derive(Debug, Clone, Copy, PartialEq, Eq, Structural)]
pub enum ExecutionOutcome {
    /// The code ran to its end.
    Finished,
    /// The exception at this address was raised and is pending.
    Raised(MemoryAddress),
    /// The machine had no steps left.
    OutOfSteps,
    Fault(Fault),
}

/// What an instruction asks of the machine next.
pub enum Flow {
    /// Go on with the frame.
    Next,
    /// Run this frame first.
    Call(Frame),
    /// The frame is done, with this result.
    Return(MemoryAddress),
    /// An exception is pending.
    Raised,
    /// The machine has no steps left for a call that the instruction
    /// needs.
    Halt,
    Fault(Fault),
}

impl Frame {
    /// Whether `later` is this frame further on in the same call.
    pub open spec fn continues_as(self, later: Frame) -> bool {
        &&& later.code == self.code
        &&& later.entry == self.entry
        &&& later.instance == self.instance
        &&& later.locals.len() == self.locals.len()
    }
}

/// A frame for the code at `code`, which starts at the first instruction
/// with the slots `locals` and an empty value stack.
pub fn new_frame(
    code: MemoryAddress,
    locals: Vec<Option<MemoryAddress>>,
    entry: bool,
    instance: Option<MemoryAddress>,
) -> (r: Frame)
    ensures
        r.code == code,
        r.pc == 0,
        r.locals == locals,
        r.value_stack@ == Seq::<MemoryAddress>::empty(),
        r.entry == entry,
        r.instance == instance,
{
    Frame { code, pc: 0, locals, value_stack: Vec::new(), entry, instance }
}

/// What the end of the call that ran in `frame`, with the result `value`,
/// leaves of the machine `before`: the frame below, from which it was
/// called, gets the result on its value stack; a frame that hands its
/// result to the machine leaves it there, with its value stack and its
/// slots. The result is the frame's instance, if it has one.
pub open spec fn finish_outcome(before: VM, frame: Frame, value: MemoryAddress, after: VM) -> bool {
    &&& after.heap == before.heap
    &&& after.steps_left == before.steps_left
    &&& after.builtin_type_addrs == before.builtin_type_addrs
    &&& after.pending_exception == before.pending_exception
    &&& after.globals == before.globals
    &&& after.modules == before.modules
    &&& after.frames.len() == before.frames.len()
    &&& ({
        let result = match frame.instance {
            Some(instance) => instance,
            None => value,
        };
        if frame.entry || before.frames.len() == 0 {
            &&& after.frames == before.frames
            &&& after.returned == Some(result)
            &&& after.stack == frame.value_stack
            &&& after.locals == frame.locals
        } else {
            let top = before.frames.len() - 1;
            &&& after.returned == before.returned
            &&& after.stack == before.stack
            &&& after.locals == before.locals
            &&& forall|i: int| 0 <= i < top ==> after.frames[i] == before.frames[i]
            &&& before.frames[top].continues_as(after.frames[top])
            &&& after.frames[top].pc == before.frames[top].pc
            &&& after.frames[top].locals == before.frames[top].locals
            &&& after.frames[top].value_stack@ == before.frames[top].value_stack@.push(
                result,
            )
        }
    })
}

/// Ends the call of `frame` with the result `value`: the caller gets the
/// instance that the call was made for, if there is one, and `value`
/// otherwise. It is pushed on the value stack of the frame below, or, if
/// the frame hands its result to the machine, kept in the machine together
/// with what the frame leaves behind.
pub fn finish_frame(vm: &mut VM, frame: Frame, value: MemoryAddress)
    requires
        old(vm).wf(),
        frame_ok(old(vm).heap@, frame),
        old(vm).valid(value),
    ensures
        final(vm).wf(),
        finish_outcome(*old(vm), frame, value, *final(vm)),
{
    let result = match frame.instance {
        Some(instance) => instance,
        None => value,
    };
    if frame.entry || vm.frames.len() == 0 {
        vm.returned = Some(result);
        vm.stack = frame.value_stack;
        vm.locals = frame.locals;
    } else {
        let top = vm.frames.len() - 1;
        assert(frame_ok(vm.heap@, vm.frames[top as int]));
        vm.frames[top].value_stack.push(result);
        assert forall|i: int| 0 <= i < vm.frames.len() implies frame_ok(
            vm.heap@,
            #[trigger] vm.frames[i],
        ) by {
            if i != top {
                assert(vm.frames[i] == old(vm).frames[i]);
            }
        }
    }
}

/// What running `frame` to its end on top of the calls in progress of
/// the machine `began` leaves, as a frame that hands its result to the
/// machine: where the run has finished, the result `r` is what the frame
/// returned; else there is none. After a fault an exception is pending.
pub open spec fn ran_to_end(began: VM, frame: Frame, r: Option<MemoryAddress>, after: VM) -> bool
    decreases began.steps_left, 59nat,
{
    exists|entered: VM, outcome: ExecutionOutcome, ran: VM|
        #![trigger began.same_but_frames(entered), run_ended(outcome, ran, r, after)]
        began.same_but_frames(entered) && entered.frames@ == began.frames@.push(
            Frame { entry: true, ..frame },
        ) && run_ended(outcome, ran, r, after) && run_outcome(
            entered,
            began.frames.len() as int,
            outcome,
            ran,
        )
}

/// What a call makes of the run of its frame, which ended as `outcome`
/// with the machine `ran`: where the run has finished, the result `r` is
/// what the frame returned; else there is none. After a fault an
/// exception is pending.
pub open spec fn run_ended(
    outcome: ExecutionOutcome,
    ran: VM,
    r: Option<MemoryAddress>,
    after: VM,
) -> bool {
    match outcome {
        ExecutionOutcome::Finished => r == ran.returned && after == ran,
        ExecutionOutcome::Fault(_) => r is None && if ran.pending_exception is Some {
            after == ran
        } else {
            ran.raises(after, ran.builtin_type_addrs.exception, ran.heap.len(), "the called code cannot be run"@)
        },
        _ => r is None && after == ran,
    }
}

/// What the call of `callable` with `args`, on the receiver `bound` if
/// one is given, leaves when it is run to its end: it begins as
/// [`call_outcome`] says, and a frame that it needs is run to its end.
pub open spec fn complete_call(
    before: VM,
    callable: MemoryAddress,
    bound: Option<MemoryAddress>,
    args: Seq<MemoryAddress>,
    r: Option<MemoryAddress>,
    after: VM,
) -> bool
    decreases before.steps_left, 60nat,
{
    exists|start: CallStart, began: VM| #[trigger]
        call_begun(start, began, before, r, after) && call_outcome(
            before,
            callable,
            bound,
            args,
            start,
            began,
        ) && (start matches CallStart::Enter(frame) ==> ran_to_end(began, frame, r, after))
}

/// What a call that is run to its end makes of how it began, as `start`
/// with the machine `began`: a call that is over at once has its value
/// as its result, or none with an exception pending.
pub open spec fn call_begun(
    start: CallStart,
    began: VM,
    before: VM,
    r: Option<MemoryAddress>,
    after: VM,
) -> bool {
    began.steps_left <= before.steps_left && match start {
        CallStart::Value(a) => r == Some(a) && after == began,
        CallStart::Raised => r is None && after == began,
        CallStart::Enter(_) => true,
    }
}

/// What the call of the method `name` of the object at `receiver` with
/// `args` leaves. With an exception pending or no step left nothing
/// happens. Else the call costs a step; the method is looked up, an
/// `AttributeError` being raised if there is none, and called to its end,
/// as [`complete_call`] says.
pub open spec fn method_outcome(
    before: VM,
    receiver: MemoryAddress,
    name: Seq<char>,
    args: Seq<MemoryAddress>,
    r: Option<MemoryAddress>,
    after: VM,
) -> bool
    decreases before.steps_left, 10nat,
{
    if before.pending_exception is Some || before.steps_left == 0 {
        r is None && after == before
    } else {
        let paid = VM { steps_left: (before.steps_left - 1) as u64, ..before };
        match paid.lookup(receiver, name) {
            None => r is None && paid.raises(
                after,
                paid.builtin_type_addrs.attribute_err,
                paid.heap.len(),
                missing_attribute(name),
            ),
            Some(Attribute::Value(found)) => complete_call(paid, found, None, args, r, after),
            Some(Attribute::Method { receiver: bound, callable }) => complete_call(
                paid,
                callable,
                Some(bound),
                args,
                r,
                after,
            ),
        }
    }
}

/// Calls the method `name` of the object at `receiver` with the arguments
/// `args` and runs it to its end. Returns the result, or nothing if an
/// exception is pending or the machine has no steps left. The call costs
/// one step.
pub fn call_method<H: NativeHost>(
    vm: &mut VM,
    host: &H,
    receiver: MemoryAddress,
    name: &str,
    args: Vec<MemoryAddress>,
) -> (r: Option<MemoryAddress>)
    requires
        old(vm).wf(),
        old(vm).valid(receiver),
        all_below(args@, old(vm).heap.len() as int),
    ensures
        old(vm).after_call(*final(vm)),
        match r {
            Some(a) => final(vm).valid(a) && final(vm).pending_exception is None,
            None => final(vm).pending_exception is Some || final(vm).steps_left == 0,
        },
        method_outcome(*old(vm), receiver, name@, args@, r, *final(vm)),
    decreases old(vm).steps_left, 4nat,
{
    if vm.pending_exception.is_some() || vm.steps_left == 0 {
        return None;
    }
    vm.steps_left = vm.steps_left - 1;
    let ghost paid = *vm;
    let ghost given = args@;
    let (callable, bound) = match vm.resolve_attribute(receiver, name) {
        Some(Attribute::Value(found)) => (found, None),
        Some(Attribute::Method { receiver: bound, callable }) => (callable, Some(bound)),
        None => {
            let message = "object has no attribute '".to_string().concat(name).concat("'");
            vm.raise_new(vm.builtin_type_addrs.attribute_err, message);
            return None;
        },
    };
    let start = start_call(vm, host, callable, bound, args);
    let ghost began = *vm;
    let ghost how = start;
    assert(call_outcome(paid, callable, bound, given, how, began));
    match start {
        CallStart::Value(result) => {
            assert(call_begun(how, began, paid, Some(result), *vm));
            assert(complete_call(paid, callable, bound, given, Some(result), *vm));
            Some(result)
        },
        CallStart::Raised => {
            assert(call_begun(how, began, paid, None, *vm));
            assert(complete_call(paid, callable, bound, given, None, *vm));
            None
        },
        CallStart::Enter(frame) => {
            let ghost made = frame;
            let mut entered = frame;
            entered.entry = true;
            let base = vm.frames.len();
            vm.frames.push(entered);
            let ghost pushed = *vm;
            assert(pushed.frames@.subrange(0, base as int) =~= began.frames@);
            let outcome = run(vm, host, base);
            let ghost ran = *vm;
            proof {
                lemma_evolves_trans(old(vm).heap@, pushed.heap@, vm.heap@);
                assert(vm.frames@ =~= old(vm).frames@);
                assert(run_outcome(pushed, began.frames.len() as int, outcome, ran));
            }
            let r = match outcome {
                ExecutionOutcome::Finished => vm.returned,
                ExecutionOutcome::Raised(_) => None,
                ExecutionOutcome::OutOfSteps => None,
                ExecutionOutcome::Fault(_) => {
                    if vm.pending_exception.is_none() {
                        vm.raise_new(
                            vm.builtin_type_addrs.exception,
                            "the called code cannot be run".to_string(),
                        );
                        proof {
                            lemma_evolves_trans(old(vm).heap@, ran.heap@, vm.heap@);
                        }
                    }
                    None
                },
            };
            assert(began.same_but_frames(pushed) && run_ended(outcome, ran, r, *vm));
            assert(ran_to_end(began, made, r, *vm));
            assert(call_begun(how, began, paid, r, *vm));
            assert(complete_call(paid, callable, bound, given, r, *vm));
            r
        },
    }
}

impl VM {
    /// Whether a run of the frames from the index `base` on goes on from
    /// this machine: no exception is pending, a frame is left to run, and
    /// a step to run it.
    pub open spec fn goes_on(self, base: int) -> bool {
        self.pending_exception is None && self.frames.len() > base && self.steps_left > 0
    }

    /// Whether `taken` is this machine with the innermost frame taken off
    /// and one step fewer left.
    pub open spec fn taken_off(self, taken: VM) -> bool {
        &&& self.frames.len() > 0
        &&& taken.frames@ == self.frames@.drop_last()
        &&& taken.steps_left == self.steps_left - 1
        &&& taken.heap == self.heap
        &&& taken.globals == self.globals
        &&& taken.modules == self.modules
        &&& taken.builtin_type_addrs == self.builtin_type_addrs
        &&& taken.pending_exception == self.pending_exception
        &&& taken.returned == self.returned
        &&& taken.stack == self.stack
        &&& taken.locals == self.locals
    }

    /// Whether `after` is this machine without the frames from the index
    /// `base` on.
    pub open spec fn cut_to(self, base: int, after: VM) -> bool {
        self.same_but_frames(after) && after.frames@ == self.frames@.subrange(0, base)
    }

    /// Whether `next` is this machine one step of its innermost frame
    /// later, as [`step_outcome`] says, with the result `r` of the step.
    pub open spec fn steps_to(self, next: VM, r: Result<(), Fault>) -> bool
        decreases self.steps_left, 56nat,
    {
        exists|taken: VM| #[trigger]
            self.taken_off(taken) && step_outcome(taken, self.frames@.last(), next, r)
    }
}

/// Whether each machine of `trace` but the last goes on with a run from
/// `base` and is the next one a step later.
pub open spec fn run_trace(trace: Seq<VM>, base: int) -> bool
    decreases (if trace.len() >= 1 { trace[0].steps_left } else { 0 }), 57nat,
{
    trace.len() >= 1 && forall|i: int|
        0 <= i < trace.len() - 1 ==> (#[trigger] trace[i]).goes_on(base) && trace[i].steps_left
            <= trace[0].steps_left && trace[i].steps_to(trace[i + 1], Ok(()))
}

/// A run that goes on from its last machine has that machine's next step
/// as its next machine.
pub proof fn lemma_trace_goes_on(trace: Seq<VM>, base: int, next: VM)
    requires
        run_trace(trace, base),
        trace.last().goes_on(base),
        trace.last().steps_left <= trace[0].steps_left,
        trace.last().steps_to(next, Ok(())),
    ensures
        run_trace(trace.push(next), base),
{
    let longer = trace.push(next);
    assert forall|i: int| 0 <= i < longer.len() - 1 implies (#[trigger] longer[i]).goes_on(base)
        && longer[i].steps_left <= longer[0].steps_left && longer[i].steps_to(
        longer[i + 1],
        Ok(()),
    ) by {
        if i < trace.len() - 1 {
            assert(longer[i] == trace[i]);
            assert(longer[i + 1] == trace[i + 1]);
        } else {
            assert(longer[i] == trace.last());
            assert(longer[i + 1] == next);
        }
    }
}

/// A step succeeds in one way only.
proof fn lemma_one_success(r: Result<(), Fault>)
    requires
        r is Ok,
    ensures
        r == Ok::<(), Fault>(()),
{
    let done = r->Ok_0;
    assert(done == ());
}

/// A run has ended as its last machine says.
pub proof fn lemma_run_ended(
    trace: Seq<VM>,
    before: VM,
    base: int,
    r: ExecutionOutcome,
    after: VM,
)
    requires
        begins_with(trace, before),
        run_trace(trace, base),
        trace.last().steps_left <= before.steps_left,
        match r {
            ExecutionOutcome::Raised(a) => trace.last().pending_exception == Some(a)
                && trace.last().cut_to(base, after),
            ExecutionOutcome::Finished => trace.last().pending_exception is None
                && trace.last().frames.len() == base && after == trace.last(),
            ExecutionOutcome::OutOfSteps => trace.last().pending_exception is None
                && trace.last().frames.len() > base && trace.last().steps_left == 0
                && trace.last().cut_to(base, after),
            ExecutionOutcome::Fault(fault) => trace.last().goes_on(base) && exists|failed: VM| #[trigger]
                failed.cut_to(base, after) && trace.last().steps_to(failed, Err(fault)),
        },
    ensures
        run_outcome(before, base, r, after),
{
}

/// Whether the machines `trace` begin with the machine `before`.
pub open spec fn begins_with(trace: Seq<VM>, before: VM) -> bool {
    trace.len() >= 1 && trace[0] == before
}

/// What a run of the frames of `before` from the index `base` on leaves:
/// the machine takes step after step while it goes on, and the run ends
/// with the machine that does not go on, or with a fault of the next
/// step. The frames from `base` on are gone then.
pub open spec fn run_outcome(before: VM, base: int, r: ExecutionOutcome, after: VM) -> bool
    decreases before.steps_left, 58nat,
{
    exists|trace: Seq<VM>| #[trigger]
        begins_with(trace, before) && run_trace(trace, base) && trace.last().steps_left
            <= before.steps_left && ({
            let last = trace.last();
            match r {
                ExecutionOutcome::Raised(a) => last.pending_exception == Some(a) && last.cut_to(
                    base,
                    after,
                ),
                ExecutionOutcome::Finished => last.pending_exception is None && last.frames.len()
                    == base && after == last,
                ExecutionOutcome::OutOfSteps => last.pending_exception is None && last.frames.len()
                    > base && last.steps_left == 0 && last.cut_to(base, after),
                ExecutionOutcome::Fault(fault) => last.goes_on(base) && exists|failed: VM| #[trigger]
                    failed.cut_to(base, after) && last.steps_to(failed, Err(fault)),
            }
        })
}

/// Runs the frames from index `base` on until the frame at `base`, which
/// hands its result to the machine, has returned, or an exception is
/// pending, or no step is left, or a fault occurs. The frames from `base`
/// on are gone then; those below are as they were.
///
/// Where the frame at `base` is the only one to run and is on the course
/// of its code, the machine holds, when the run has finished, as many
/// values of that frame as its code leaves behind.
pub fn run<H: NativeHost>(vm: &mut VM, host: &H, base: usize) -> (r: ExecutionOutcome)
    requires
        old(vm).wf(),
        base < old(vm).frames.len(),
        old(vm).frames[base as int].entry,
    ensures
        final(vm).wf(),
        old(vm).before(*final(vm)),
        final(vm).builtin_type_addrs == old(vm).builtin_type_addrs,
        final(vm).frames@ == old(vm).frames@.subrange(0, base as int),
        r != ExecutionOutcome::Fault(Fault::InvalidProgram),
        match r {
            ExecutionOutcome::Finished => final(vm).pending_exception is None && (final(vm).returned matches Some(a) && final(vm).valid(a)),
            ExecutionOutcome::Raised(a) => final(vm).pending_exception == Some(a),
            ExecutionOutcome::OutOfSteps => final(vm).steps_left == 0 && final(vm).pending_exception is None,
            ExecutionOutcome::Fault(_) => true,
        },
        r == ExecutionOutcome::Finished && old(vm).runs_on_course(base as int) ==> leaves_with(
            frame_code(old(vm).heap@, old(vm).frames[base as int]),
            final(vm).stack.len() as int,
        ),
        run_outcome(*old(vm), base as int, r, *final(vm)),
    decreases old(vm).steps_left, 14nat,
{
    let ghost mut trace = seq![*vm];
    let ghost below = vm.frames@.subrange(0, base as int);
    let ghost first = vm.frames[base as int];
    let ghost code = frame_code(vm.heap@, first);
    let ghost followed = vm.runs_on_course(base as int);
    assert(frame_ok(vm.heap@, first));
    loop
        invariant
            vm.wf(),
            old(vm).wf(),
            old(vm).before(*vm),
            vm.builtin_type_addrs == old(vm).builtin_type_addrs,
            base <= vm.frames.len(),
            below == old(vm).frames@.subrange(0, base as int),
            vm.frames@.subrange(0, base as int) == below,
            vm.frames.len() > base ==> vm.frames[base as int].entry,
            vm.frames.len() == base ==> vm.returned is Some,
            frame_ok(vm.heap@, first),
            code == frame_code(vm.heap@, first),
            base < old(vm).frames.len(),
            code == frame_code(old(vm).heap@, old(vm).frames[base as int]),
            followed == old(vm).runs_on_course(base as int),
            followed ==> vm.course_held(base as int, first, code),
            run_trace(trace, base as int),
            trace[0] == *old(vm),
            trace.last() == *vm,
        decreases vm.steps_left,
    {
        let ghost head = *vm;
        assert(begins_with(trace, *old(vm)));
        if let Some(exception) = vm.pending_exception {
            vm.frames.truncate(base);
            proof {
                assert(vm.frames@ =~= below);
                assert(head.cut_to(base as int, *vm));
                lemma_run_ended(trace, *old(vm), base as int, ExecutionOutcome::Raised(exception), *vm);
            }
            return ExecutionOutcome::Raised(exception);
        }
        if vm.frames.len() == base {
            proof {
                assert(vm.frames@ =~= below);
                lemma_run_ended(trace, *old(vm), base as int, ExecutionOutcome::Finished, *vm);
            }
            return ExecutionOutcome::Finished;
        }
        if vm.steps_left == 0 {
            vm.frames.truncate(base);
            proof {
                assert(vm.frames@ =~= below);
                assert(head.cut_to(base as int, *vm));
                lemma_run_ended(trace, *old(vm), base as int, ExecutionOutcome::OutOfSteps, *vm);
            }
            return ExecutionOutcome::OutOfSteps;
        }
        let result = advance(vm, host, base, Ghost(first), Ghost(code));
        proof {
            lemma_evolves_trans(old(vm).heap@, head.heap@, vm.heap@);
        }
        match result {
            Ok(()) => {
                proof {
                    assert(trace.last() == head);
                    lemma_one_success(result);
                    assert(head.steps_to(*vm, Ok(())));
                    lemma_trace_goes_on(trace, base as int, *vm);
                    trace = trace.push(*vm);
                }
            },
            Err(fault) => {
                let ghost failed = *vm;
                vm.frames.truncate(base);
                proof {
                    assert(vm.frames@ =~= below);
                    assert(failed.cut_to(base as int, *vm));
                    assert(head.steps_to(failed, Err(fault)));
                    lemma_run_ended(trace, *old(vm), base as int, ExecutionOutcome::Fault(fault), *vm);
                }
                return ExecutionOutcome::Fault(fault);
            },
        }
    }
}

/// Takes the innermost frame of a run from `base` one step on. The run
/// stays on the course of `code`, the code of the frame `first` that it
/// began with, if it was on it.
fn advance<H: NativeHost>(
    vm: &mut VM,
    host: &H,
    base: usize,
    Ghost(first): Ghost<Frame>,
    Ghost(code): Ghost<Seq<InstructionView>>,
) -> (r: Result<(), Fault>)
    requires
        old(vm).wf(),
        old(vm).goes_on(base as int),
        old(vm).frames[base as int].entry,
        frame_ok(old(vm).heap@, first),
        code == frame_code(old(vm).heap@, first),
    ensures
        final(vm).wf(),
        old(vm).before(*final(vm)),
        final(vm).builtin_type_addrs == old(vm).builtin_type_addrs,
        base <= final(vm).frames.len(),
        final(vm).frames@.subrange(0, base as int) == old(vm).frames@.subrange(0, base as int),
        final(vm).frames.len() > base ==> final(vm).frames[base as int].entry,
        final(vm).frames.len() == base && r is Ok ==> final(vm).returned is Some,
        final(vm).steps_left < old(vm).steps_left,
        frame_ok(final(vm).heap@, first),
        code == frame_code(final(vm).heap@, first),
        r != Err::<(), Fault>(Fault::InvalidProgram),
        old(vm).steps_to(*final(vm), r),
        r is Ok && old(vm).course_held(base as int, first, code) ==> final(vm).course_held(
            base as int,
            first,
            code,
        ),
    decreases old(vm).steps_left, 13nat,
{
    let ghost head = *vm;
    let ghost below = vm.frames@.subrange(0, base as int);
    vm.steps_left = vm.steps_left - 1;
    let ghost before = *vm;
    let frame = vm.frames.pop().unwrap();
    let ghost popped = *vm;
    assert(frame_ok(before.heap@, before.frames[before.frames.len() - 1]));
    assert forall|i: int| 0 <= i < vm.frames.len() implies frame_ok(
        vm.heap@,
        #[trigger] vm.frames[i],
    ) by {
        assert(vm.frames[i] == before.frames[i]);
    }
    let result = step(vm, host, frame);
    proof {
        assert forall|i: int| 0 <= i < base implies vm.frames[i] == below[i] by {
            assert(popped.frames[i] == before.frames@.subrange(0, base as int)[i]);
        }
        assert(vm.frames@.subrange(0, base as int) =~= below);
        lemma_frame_evolves(head.heap@, vm.heap@, first);
        lemma_frame_code_stays(head.heap@, vm.heap@, first);
        if result is Ok && head.course_held(base as int, first, code) {
            lemma_course_goes_on(head, popped, frame, *vm, base as int, first, code);
        }
        assert(head.taken_off(popped) && step_outcome(popped, head.frames@.last(), *vm, result));
        assert(head.steps_to(*vm, result));
    }
    result
}

/// Whether a step that began with the frames `before` below the frame it
/// ran left the frames `after`: frames further down are untouched, and the
/// frame directly below only if the one that ran was called from it and
/// has returned, which hands it one value. On top there is the frame that
/// ran, unless it has returned, and above it at most the frame of a call
/// that it made.
pub open spec fn frames_stepped(before: Seq<Frame>, frame: Frame, after: Seq<Frame>) -> bool {
    let k = before.len() as int;
    let kept = if frame.entry || k == 0 {
        k
    } else {
        k - 1
    };
    &&& kept <= after.len() <= k + 2
    &&& forall|i: int| 0 <= i < kept ==> after[i] == before[i]
    &&& kept < k ==> after.len() >= k && after[k - 1].entry == before[k - 1].entry
    &&& after.len() > k ==> after[k].entry == frame.entry && after[k].code == frame.code && (k > 0
        ==> after[k - 1] == before[k - 1])
    &&& after.len() > k + 1 ==> !after[k + 1].entry
}

/// Whether the frame `frame`, if it was called from the frame below it
/// and is gone from the frames `after`, has handed that frame one value
/// and left it where it stood.
pub open spec fn handed_down(before: Seq<Frame>, frame: Frame, after: Seq<Frame>) -> bool {
    let k = before.len() as int;
    after.len() == k && !frame.entry && k > 0 ==> after[k - 1].code == before[k - 1].code
        && after[k - 1].pc == before[k - 1].pc && after[k - 1].value_stack.len() == before[k
        - 1].value_stack.len() + 1
}

impl VM {
    /// Whether `later` differs from this machine in the calls in progress
    /// at most.
    pub open spec fn same_but_frames(self, later: VM) -> bool {
        &&& later.heap == self.heap
        &&& later.globals == self.globals
        &&& later.modules == self.modules
        &&& later.builtin_type_addrs == self.builtin_type_addrs
        &&& later.pending_exception == self.pending_exception
        &&& later.returned == self.returned
        &&& later.stack == self.stack
        &&& later.locals == self.locals
        &&& later.steps_left == self.steps_left
    }
}

/// What going on as `flow` says leaves of the machine `before`, from
/// which `frame` was taken to run an instruction: the frame is put back,
/// with the frame of the call that it made on top of it if it made one;
/// or its call ends, as [`finish_outcome`] says; or the fault is handed
/// on, and the frame is gone.
pub open spec fn flow_outcome(
    before: VM,
    frame: Frame,
    flow: Flow,
    after: VM,
    r: Result<(), Fault>,
) -> bool {
    match flow {
        Flow::Call(callee) => r is Ok && before.same_but_frames(after) && after.frames@
            == before.frames@.push(frame).push(callee),
        Flow::Return(value) => r is Ok && finish_outcome(before, frame, value, after),
        Flow::Fault(fault) => r == Err::<(), Fault>(fault) && after == before,
        _ => r is Ok && before.same_but_frames(after) && after.frames@ == before.frames@.push(frame),
    }
}

/// Puts the frame back on the machine after an instruction, together with
/// the frame of a call that the instruction began, or ends its call.
fn apply_flow(vm: &mut VM, frame: Frame, flow: Flow, Ghost(origin): Ghost<Frame>) -> (r: Result<
    (),
    Fault,
>)
    requires
        old(vm).wf(),
        frame_ok(old(vm).heap@, frame),
        origin.continues_as(frame),
        match flow {
            Flow::Call(callee) => frame_ok(old(vm).heap@, callee) && !callee.entry,
            Flow::Return(value) => old(vm).valid(value),
            _ => true,
        },
    ensures
        final(vm).wf(),
        final(vm).heap == old(vm).heap,
        final(vm).steps_left == old(vm).steps_left,
        final(vm).builtin_type_addrs == old(vm).builtin_type_addrs,
        final(vm).pending_exception == old(vm).pending_exception,
        frames_stepped(old(vm).frames@, origin, final(vm).frames@),
        r is Ok ==> handed_down(old(vm).frames@, origin, final(vm).frames@),
        final(vm).frames.len() == old(vm).frames.len() && (origin.entry || old(vm).frames.len()
            == 0) && r is Ok ==> final(vm).returned is Some,
        r is Err <==> flow is Fault,
        r matches Err(fault) ==> flow == Flow::Fault(fault),
        flow_outcome(*old(vm), frame, flow, *final(vm), r),
        match flow {
            Flow::Call(_) => final(vm).frames.len() == old(vm).frames.len() + 2 && final(vm).frames[old(vm).frames.len() as int] == frame,
            Flow::Return(_) => final(vm).frames.len() == old(vm).frames.len() && (origin.entry
                || old(vm).frames.len() == 0 ==> final(vm).stack == frame.value_stack),
            Flow::Fault(_) => final(vm).frames == old(vm).frames,
            _ => final(vm).frames.len() == old(vm).frames.len() + 1 && final(vm).frames[old(vm).frames.len() as int] == frame,
        },
{
    match flow {
        Flow::Next => {
            vm.frames.push(frame);
            Ok(())
        },
        Flow::Raised => {
            vm.frames.push(frame);
            Ok(())
        },
        Flow::Halt => {
            vm.frames.push(frame);
            Ok(())
        },
        Flow::Call(callee) => {
            vm.frames.push(frame);
            vm.frames.push(callee);
            Ok(())
        },
        Flow::Return(value) => {
            finish_frame(vm, frame, value);
            Ok(())
        },
        Flow::Fault(fault) => Err(fault),
    }
}

/// What the instruction `i` leaves of the machine `before` and the frame
/// `frame`, which stands at it: the machine `after`, the frame `later`
/// and how to go on.
pub open spec fn instruction_outcome(
    i: InstructionView,
    before: VM,
    frame: Frame,
    after: VM,
    later: Frame,
    flow: Flow,
) -> bool
    decreases before.steps_left, 39nat,
{
    match i {
        InstructionView::LoadConst(index) => after == before && flow is Next && frame.advanced_to(
            later,
            frame.value_stack@.push(consts_at(before.heap@, frame.code)[index]),
        ),
        InstructionView::LoadName(slot) => load_name_outcome(
            before,
            frame,
            slot,
            after,
            later,
            flow,
        ),
        InstructionView::LoadGlobal(slot) => load_global_outcome(
            before,
            frame,
            slot,
            after,
            later,
            flow,
        ),
        InstructionView::StoreName(slot) => store_name_outcome(
            before,
            frame,
            slot,
            after,
            later,
            flow,
        ),
        InstructionView::LoadAttr(name) => load_attr_outcome(
            before,
            frame,
            name,
            after,
            later,
            flow,
        ),
        InstructionView::StoreAttr(slot) => store_attr_outcome(
            before,
            frame,
            slot,
            after,
            later,
            flow,
        ),
        InstructionView::BuildList { number_elements } => build_list_outcome(
            before,
            frame,
            number_elements,
            after,
            later,
            flow,
        ),
        InstructionView::CallFunction { number_arguments } => call_function_outcome(
            before,
            frame,
            number_arguments,
            after,
            later,
            flow,
        ),
        InstructionView::MakeFunction(has_defaults) => make_function_outcome(
            before,
            frame,
            has_defaults,
            after,
            later,
            flow,
        ),
        InstructionView::MakeClass => make_class_outcome(before, frame, after, later, flow),
        InstructionView::JumpUnconditional(target) => after == before && flow is Next
            && frame.continues_as(later) && later.pc == target && later.value_stack
            == frame.value_stack && later.locals == frame.locals,
        InstructionView::JumpIfFalseAndPopStack(target) => jump_if_false_outcome(
            before,
            frame,
            target,
            after,
            later,
            flow,
        ),
        InstructionView::ForIter(target) => for_iter_outcome(
            before,
            frame,
            target,
            after,
            later,
            flow,
        ),
        InstructionView::Raise => raise_outcome(before, frame, after, later, flow),
        InstructionView::ReturnValue => after == before && frame.continues_as(later) && later.locals
            == frame.locals && later.pc == frame.pc && if frame.value_stack.len() == 0 {
            flow == Flow::Fault(Fault::StackUnderflow)
        } else {
            flow == Flow::Return(frame.value_stack@.last()) && later.value_stack@
                == frame.value_stack@.drop_last()
        },
        InstructionView::PopTop => after == before && if frame.value_stack.len() == 0 {
            flow == Flow::Fault(Fault::StackUnderflow)
        } else {
            flow is Next && frame.advanced_to(later, frame.value_stack@.drop_last())
        },
        InstructionView::UnresolvedLoadName(_) => flow == Flow::Fault(Fault::UnresolvedInstruction)
            && after == before && later == frame,
        InstructionView::UnresolvedStoreName(_) => flow == Flow::Fault(Fault::UnresolvedInstruction)
            && after == before && later == frame,
        InstructionView::UnresolvedStoreAttr(_) => flow == Flow::Fault(Fault::UnresolvedInstruction)
            && after == before && later == frame,
        InstructionView::UnresolvedBreak => flow == Flow::Fault(Fault::UnresolvedInstruction)
            && after == before && later == frame,
        _ => operator_method(i) matches Some(method) && operator_outcome(
            before,
            frame,
            method,
            after,
            later,
            flow,
        ),
    }
}

/// Carries out `instruction`, which `frame` stands at.
pub fn dispatch<H: NativeHost>(
    vm: &mut VM,
    host: &H,
    frame: &mut Frame,
    instruction: &Instruction,
) -> (flow: Flow)
    requires
        old(vm).wf(),
        frame_ok(old(vm).heap@, *old(frame)),
        old(frame).at_instruction(old(vm).heap@),
        instruction_closed(
            instruction.deep_view(),
            0,
            code_at(old(vm).heap@, old(frame).code).instructions.len() as int,
            consts_at(old(vm).heap@, old(frame).code).len() as int,
            old(frame).locals.len() as int,
        ),
    ensures
        handled(*old(vm), *old(frame), *final(vm), *final(frame)),
        flow != Flow::Fault(Fault::InvalidProgram),
        match flow {
            Flow::Call(callee) => frame_ok(final(vm).heap@, callee) && !callee.entry,
            Flow::Return(value) => final(vm).valid(value),
            Flow::Raised => final(vm).pending_exception is Some,
            Flow::Halt => final(vm).steps_left == 0,
            _ => true,
        },
        follows(instruction.deep_view(), *old(frame), *final(frame), flow),
        instruction_outcome(
            instruction.deep_view(),
            *old(vm),
            *old(frame),
            *final(vm),
            *final(frame),
            flow,
        ),
    decreases old(vm).steps_left, 11nat,
{
    match instruction {
        Instruction::LoadConst(index) => {
            op_load_const(vm, frame, *index);
            Flow::Next
        },
        Instruction::LoadName(slot) => op_load_name(vm, frame, *slot),
        Instruction::LoadGlobal(slot) => op_load_global(vm, frame, *slot),
        Instruction::StoreName(slot) => op_store_name(vm, frame, *slot),
        Instruction::LoadAttr(name) => op_load_attr(vm, frame, name.as_str()),
        Instruction::StoreAttr(slot) => op_store_attr(vm, frame, *slot),
        Instruction::BuildList { number_elements } => op_build_list(vm, frame, *number_elements),
        Instruction::CallFunction { number_arguments } => op_call_function(
            vm,
            host,
            frame,
            *number_arguments,
        ),
        Instruction::MakeFunction(has_defaults) => op_make_function(vm, frame, *has_defaults),
        Instruction::MakeClass => op_make_class(vm, host, frame),
        Instruction::JumpUnconditional(target) => {
            op_jump(vm, frame, *target);
            Flow::Next
        },
        Instruction::JumpIfFalseAndPopStack(target) => op_jump_if_false(vm, host, frame, *target),
        Instruction::ForIter(target) => op_for_iter(vm, host, frame, *target),
        Instruction::Raise => op_raise(vm, frame),
        Instruction::ReturnValue => op_return(vm, frame),
        Instruction::PopTop => op_pop_top(vm, frame),
        Instruction::UnresolvedLoadName(_) => Flow::Fault(Fault::UnresolvedInstruction),
        Instruction::UnresolvedStoreName(_) => Flow::Fault(Fault::UnresolvedInstruction),
        Instruction::UnresolvedStoreAttr(_) => Flow::Fault(Fault::UnresolvedInstruction),
        Instruction::UnresolvedBreak => Flow::Fault(Fault::UnresolvedInstruction),
        _ => match method_of_operator(instruction) {
            Some(method) => op_operator(vm, host, frame, method),
            None => Flow::Fault(Fault::UnresolvedInstruction),
        },
    }
}

/// What one step of `frame` leaves of the machine `before`, from which
/// the frame was taken: what its instruction leaves, as
/// [`instruction_outcome`] says, and then going on as that says, as
/// [`flow_outcome`] says. At the end of its code the frame returns
/// `None`.
pub open spec fn step_outcome(before: VM, frame: Frame, after: VM, r: Result<(), Fault>) -> bool
    decreases before.steps_left, 40nat,
{
    let code = frame_code(before.heap@, frame);
    if frame.pc >= code.len() {
        flow_outcome(before, frame, Flow::Return(before.builtin_type_addrs.none_val), after, r)
    } else {
        exists|mid: VM, later: Frame, flow: Flow| #[trigger]
            flow_outcome(mid, later, flow, after, r) && instruction_outcome(
                code[frame.pc as int],
                before,
                frame,
                mid,
                later,
                flow,
            )
    }
}

/// Runs one instruction of `frame`, the innermost frame, which has been
/// taken off the machine for it; the frame is put back unless its call has
/// ended. At the end of its code the frame returns `None`.
///
/// A frame that was on the course of its code is on it afterwards, unless
/// an exception is pending or the machine has run out of steps.
pub fn step<H: NativeHost>(vm: &mut VM, host: &H, frame: Frame) -> (r: Result<(), Fault>)
    requires
        old(vm).wf(),
        frame_ok(old(vm).heap@, frame),
    ensures
        final(vm).wf(),
        old(vm).before(*final(vm)),
        final(vm).builtin_type_addrs == old(vm).builtin_type_addrs,
        frames_stepped(old(vm).frames@, frame, final(vm).frames@),
        r is Ok ==> handed_down(old(vm).frames@, frame, final(vm).frames@),
        final(vm).frames.len() == old(vm).frames.len() && (frame.entry || old(vm).frames.len()
            == 0) && r is Ok ==> final(vm).returned is Some,
        r != Err::<(), Fault>(Fault::InvalidProgram),
        step_outcome(*old(vm), frame, *final(vm), r),
        r is Ok && final(vm).pending_exception is None && frame_on_course(
            frame_code(old(vm).heap@, frame),
            frame,
            0,
        ) ==> old(vm).course_kept(frame, *final(vm)),
    decreases old(vm).steps_left, 12nat,
{
    let ghost origin = frame;
    let ghost code = frame_code(vm.heap@, frame);
    let mut frame = frame;
    let instruction = match vm.fetch(&frame) {
        Some(instruction) => instruction,
        None => {
            let nothing = vm.builtin_type_addrs.none_val;
            proof {
                if frame_on_course(code, origin, 0) {
                    lemma_course_at_end(code, origin);
                }
            }
            return apply_flow(vm, frame, Flow::Return(nothing), Ghost(origin));
        },
    };
    let flow = dispatch(vm, host, &mut frame, &instruction);
    proof {
        assert(code[origin.pc as int] == instruction.deep_view());
        if frame_on_course(code, origin, 0) {
            lemma_follows_course(code, origin, frame, flow);
        }
    }
    let ghost mid = *vm;
    let ghost later = frame;
    let r = apply_flow(vm, frame, flow, Ghost(origin));
    assert(flow_outcome(mid, later, flow, *vm, r) && instruction_outcome(
        code[origin.pc as int],
        *old(vm),
        origin,
        mid,
        later,
        flow,
    ));
    r
}

impl VM {
    /// Whether `fresh` is this machine without what an earlier run left
    /// behind: no exception is pending, and no result, value stack or
    /// slots are kept.
    pub open spec fn cleared_to(self, fresh: VM) -> bool {
        &&& fresh.heap == self.heap
        &&& fresh.frames == self.frames
        &&& fresh.globals == self.globals
        &&& fresh.modules == self.modules
        &&& fresh.builtin_type_addrs == self.builtin_type_addrs
        &&& fresh.steps_left == self.steps_left
        &&& fresh.pending_exception is None
        &&& fresh.returned is None
        &&& fresh.stack@ == Seq::<MemoryAddress>::empty()
        &&& fresh.locals@ == Seq::<Option<MemoryAddress>>::empty()
    }

    /// Whether `frame` is the frame in which the unit `unit`, loaded into
    /// this machine, begins to run as the top-level unit: at its first
    /// instruction, with empty slots and an empty value stack.
    pub open spec fn begins(self, unit: CodeObject, frame: Frame) -> bool {
        &&& self.valid(frame.code)
        &&& self.heap[frame.code as int].structure.is_code()
        &&& code_at(self.heap@, frame.code).deep_view() == unit.deep_view()
        &&& frame.pc == 0
        &&& frame.locals@ == Seq::new(unit.names.len() as nat, |i: int| None::<MemoryAddress>)
        &&& frame.value_stack@ == Seq::<MemoryAddress>::empty()
        &&& frame.entry
        &&& frame.instance is None
    }
}

/// What running `program` leaves of the machine `before`: what an
/// earlier run left behind is cleared, the top-level unit is loaded,
/// which only adds objects, and a frame for it runs to its end on top
/// of the calls in progress, as [`run_outcome`] says.
pub open spec fn program_outcome(
    before: VM,
    program: Program,
    r: ExecutionOutcome,
    after: VM,
) -> bool {
    exists|fresh: VM, loaded: VM, entered: VM, main: Frame|
        #![trigger fresh.grown_to(loaded), loaded.begins(program.code_objects[0], main), loaded.same_but_frames(entered)]
        before.cleared_to(fresh) && fresh.grown_to(loaded) && loaded.begins(
            program.code_objects[0],
            main,
        ) && loaded.same_but_frames(entered) && entered.frames@ == loaded.frames@.push(main)
            && run_outcome(entered, before.frames.len() as int, r, after)
}

/// A program has run as the run of the frame of its loaded top-level
/// unit has.
proof fn lemma_program_ran(
    before: VM,
    program: Program,
    fresh: VM,
    loaded: VM,
    entered: VM,
    main: Frame,
    r: ExecutionOutcome,
    after: VM,
)
    requires
        before.cleared_to(fresh),
        fresh.grown_to(loaded),
        loaded.begins(program.code_objects[0], main),
        loaded.same_but_frames(entered),
        entered.frames@ == loaded.frames@.push(main),
        run_outcome(entered, before.frames.len() as int, r, after),
    ensures
        program_outcome(before, program, r, after),
{
}

/// Runs `program` to its end: loads its top-level unit and runs it in a
/// frame of its own, on top of the calls in progress, which are as they
/// were when it is over.
///
/// A pending exception, and what an earlier run left behind, is cleared
/// first. When the run has finished, `stack` holds the values that the
/// top-level frame left on its stack, and `locals` its slots: as many
/// values as the top-level unit leaves behind by the depths that it
/// keeps to.
pub fn execute_program<H: NativeHost>(vm: &mut VM, host: &H, program: Program) -> (r:
    ExecutionOutcome)
    requires
        old(vm).wf(),
    ensures
        final(vm).wf(),
        old(vm).before(*final(vm)),
        final(vm).builtin_type_addrs == old(vm).builtin_type_addrs,
        final(vm).frames@ == old(vm).frames@,
        r == ExecutionOutcome::Fault(Fault::InvalidProgram) <==> (program.code_objects.len() == 0
            || !loadable(program.code_objects[0])),
        match r {
            ExecutionOutcome::Finished => final(vm).pending_exception is None,
            ExecutionOutcome::Raised(a) => final(vm).pending_exception == Some(a),
            ExecutionOutcome::OutOfSteps => final(vm).steps_left == 0,
            ExecutionOutcome::Fault(_) => true,
        },
        r == ExecutionOutcome::Finished ==> leaves_with(
            program.deep_view().code_objects[0].instructions,
            final(vm).stack.len() as int,
        ),
        r != ExecutionOutcome::Fault(Fault::InvalidProgram) ==> program_outcome(
            *old(vm),
            program,
            r,
            *final(vm),
        ),
{
    vm.pending_exception = None;
    vm.returned = None;
    vm.stack = Vec::new();
    vm.locals = Vec::new();
    if program.code_objects.len() == 0 {
        return ExecutionOutcome::Fault(Fault::InvalidProgram);
    }
    let ghost cleared = *vm;
    let code = match vm.load_code(&program.code_objects[0]) {
        Some(code) => code,
        None => {
            return ExecutionOutcome::Fault(Fault::InvalidProgram);
        },
    };
    let slots = match &vm.heap[code].structure {
        PyObjectStructure::Instance { builtin: Some(BuiltInTypeData::Code { code: unit, .. }) } => unit.names.len(),
        _ => 0,
    };
    let mut locals: Vec<Option<MemoryAddress>> = Vec::new();
    let mut i: usize = 0;
    while i < slots
        invariant
            i <= slots,
            locals.len() == i,
            forall|j: int| 0 <= j < i ==> locals[j] is None,
        decreases slots - i,
    {
        locals.push(None);
        i += 1;
    }
    let main = new_frame(code, locals, true, None);
    let base = vm.frames.len();
    let ghost loaded = *vm;
    vm.frames.push(main);
    let ghost pushed = *vm;
    assert(pushed.frames@.subrange(0, base as int) =~= loaded.frames@);
    proof {
        lemma_course_begins(frame_code(pushed.heap@, main));
        assert(pushed.frames[base as int] == main);
        assert(program.deep_view().code_objects[0] == program.code_objects[0].deep_view());
        assert(frame_code(pushed.heap@, main) == program.deep_view().code_objects[0].instructions);
    }
    let outcome = run(vm, host, base);
    proof {
        lemma_evolves_trans(old(vm).heap@, pushed.heap@, vm.heap@);
        assert(vm.frames@ =~= old(vm).frames@);
        assert(main.locals@ =~= Seq::new(
            program.code_objects[0].names.len() as nat,
            |i: int| None::<MemoryAddress>,
        ));
        lemma_program_ran(*old(vm), program, cleared, loaded, pushed, main, outcome, *vm);
    }
    outcome
}

} // verus!
