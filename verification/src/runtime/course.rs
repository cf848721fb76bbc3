//! How deep a frame's value stack is while its code runs: each
//! instruction that the machine carries out moves the frame along the
//! depths that its code keeps to.

use vstd::prelude::*;
use crate::bytecode::balance::lemma_course_ends;
use crate::bytecode::balance::lemma_course_jumps;
use crate::bytecode::balance::lemma_course_moves;
use crate::bytecode::balance::leaves_with;
use crate::bytecode::balance::moves;
use crate::bytecode::balance::on_course;
use crate::bytecode::program::InstructionView;
use crate::runtime::datamodel::evolves;
use crate::runtime::datamodel::same_object;
use crate::runtime::datamodel::PyObject;
use crate::runtime::interpreter::frames_stepped;
use crate::runtime::interpreter::handed_down;
use crate::runtime::interpreter::Flow;
use crate::runtime::vm::code_at;
use crate::runtime::vm::frame_ok;
use crate::runtime::vm::Frame;
use crate::runtime::vm::VM;

verus! {

/// The instructions that `frame` runs.
pub open spec fn frame_code(heap: Seq<PyObject>, frame: Frame) -> Seq<InstructionView> {
    code_at(heap, frame.code).deep_view().instructions
}

/// Whether `frame` is on the course of `code` once it has been handed
/// `owed` values more: one while a call that it made is running, none
/// otherwise.
pub open spec fn frame_on_course(code: Seq<InstructionView>, frame: Frame, owed: int) -> bool {
    on_course(code, frame.pc as int, frame.value_stack.len() + owed)
}

/// A frame runs the same instructions on the heap at any later time.
pub proof fn lemma_frame_code_stays(old: Seq<PyObject>, new: Seq<PyObject>, frame: Frame)
    requires
        frame_ok(old, frame),
        evolves(old, new),
    ensures
        frame_code(new, frame) == frame_code(old, frame),
{
    assert(same_object(old[frame.code as int], new[frame.code as int]));
}

/// Whether the frame `after` and the flow `flow` are what the instruction
/// `i` can make of the frame `before`, as far as the index and the depth
/// of the value stack go.
pub open spec fn follows(i: InstructionView, before: Frame, after: Frame, flow: Flow) -> bool {
    let d = before.value_stack.len() as int;
    let n = after.value_stack.len() as int;
    match flow {
        Flow::Next => match i {
            InstructionView::JumpUnconditional(t) => after.pc == t && n == d,
            InstructionView::JumpIfFalseAndPopStack(t) => (after.pc == before.pc + 1 || after.pc
                == t) && n == d - 1,
            InstructionView::ForIter(t) => (after.pc == before.pc + 1 && n == d + 1) || (after.pc
                == t && n == d - 1),
            _ => moves(i) matches Some((takes, gives)) && after.pc == before.pc + 1 && n == d
                - takes + gives,
        },
        Flow::Call(_) => moves(i) matches Some((takes, gives)) && gives == 1 && after.pc
            == before.pc + 1 && n == d - takes,
        Flow::Return(_) => i is ReturnValue && n == d - 1,
        _ => true,
    }
}

/// A frame on course stays on course through an instruction: it goes on
/// on course, or waits on course for the value of a call, or returns with
/// what its code leaves behind.
pub proof fn lemma_follows_course(
    code: Seq<InstructionView>,
    before: Frame,
    after: Frame,
    flow: Flow,
)
    requires
        before.pc < code.len(),
        frame_on_course(code, before, 0),
        follows(code[before.pc as int], before, after, flow),
    ensures
        match flow {
            Flow::Next => frame_on_course(code, after, 0),
            Flow::Call(_) => frame_on_course(code, after, 1),
            Flow::Return(_) => leaves_with(code, after.value_stack.len() as int),
            _ => true,
        },
{
    let pc = before.pc as int;
    let d = before.value_stack.len() as int;
    let n = after.value_stack.len() as int;
    lemma_course_jumps(code, pc, d);
    if moves(code[pc]) is Some {
        lemma_course_moves(code, pc, d);
    }
    match flow {
        Flow::Next => {
            assert(on_course(code, after.pc as int, n));
        },
        Flow::Call(_) => {
            assert(on_course(code, after.pc as int, n + 1));
        },
        _ => {},
    }
}

/// A frame on course at the end of its code holds what the code leaves
/// behind.
pub proof fn lemma_course_at_end(code: Seq<InstructionView>, frame: Frame)
    requires
        frame.pc == code.len(),
        frame_on_course(code, frame, 0),
    ensures
        leaves_with(code, frame.value_stack.len() as int),
{
    lemma_course_ends(code, frame.value_stack.len() as int);
}

impl VM {
    /// Whether the machine `after` keeps the course of the frame `frame`,
    /// which ran one instruction on top of the frames of this machine: if
    /// the frame is still there, it is on course, with a value owed to it
    /// if it has made a call; if it has handed its result to the machine,
    /// the machine holds what the frame's code leaves behind.
    pub open spec fn course_kept(self, frame: Frame, after: VM) -> bool {
        let k = self.frames.len() as int;
        let code = frame_code(self.heap@, frame);
        if after.frames.len() == k {
            frame.entry || k == 0 ==> leaves_with(code, after.stack.len() as int)
        } else if after.frames.len() == k + 1 {
            after.steps_left > 0 ==> frame_on_course(code, after.frames[k], 0)
        } else {
            frame_on_course(code, after.frames[k], 1)
        }
    }

    /// Whether the frame at `base` is the innermost frame and is on the
    /// course of its code.
    pub open spec fn runs_on_course(self, base: int) -> bool {
        self.frames.len() == base + 1 && frame_on_course(
            frame_code(self.heap@, self.frames[base]),
            self.frames[base],
            0,
        )
    }

    /// Whether a run of the frame `first` from the index `base` of the
    /// frames, which began on the course of `code`, is on it: the frames
    /// above that frame were called from the one below them; the frame is
    /// on course, with a value owed to it while a call runs; and once it
    /// has returned, the machine holds what `code` leaves behind.
    pub open spec fn course_held(self, base: int, first: Frame, code: Seq<InstructionView>) -> bool {
        let top = self.frames.len() as int;
        &&& forall|i: int| base < i < top ==> !(#[trigger] self.frames[i]).entry
        &&& top > base ==> self.frames[base].code == first.code
        &&& self.pending_exception is None ==> {
            &&& top == base ==> leaves_with(code, self.stack.len() as int)
            &&& top == base + 1 && self.steps_left > 0 ==> frame_on_course(
                code,
                self.frames[base],
                0,
            )
            &&& top > base + 1 ==> frame_on_course(code, self.frames[base], 1)
        }
    }
}

/// A run that is on course is on course after a step of its innermost
/// frame.
pub proof fn lemma_course_goes_on(
    before: VM,
    popped: VM,
    frame: Frame,
    after: VM,
    base: int,
    first: Frame,
    code: Seq<InstructionView>,
)
    requires
        0 <= base < before.frames.len(),
        before.pending_exception is None,
        before.steps_left > 0,
        before.course_held(base, first, code),
        before.frames[base].entry,
        popped.frames@ == before.frames@.drop_last(),
        popped.heap == before.heap,
        frame == before.frames@.last(),
        frame_code(popped.heap@, first) == code,
        frames_stepped(popped.frames@, frame, after.frames@),
        handed_down(popped.frames@, frame, after.frames@),
        after.pending_exception is None && frame_on_course(
            frame_code(popped.heap@, frame),
            frame,
            0,
        ) ==> popped.course_kept(frame, after),
    ensures
        after.course_held(base, first, code),
{
    let k = popped.frames.len() as int;
    let top = after.frames.len() as int;
    assert forall|i: int| base < i < top implies !(#[trigger] after.frames[i]).entry by {
        if i < k {
            assert(before.frames[i] == popped.frames[i]);
        }
    }
    if k == base {
        assert(frame_code(popped.heap@, frame) == code);
    } else {
        assert(!frame.entry);
        assert(before.frames[base] == popped.frames[base]);
        assert(before.frames[k - 1] == popped.frames[k - 1]);
    }
}

} // verus!
