//! The instructions that the machine carries out by itself, without a call.

use vstd::prelude::*;
use crate::runtime::attributes::Attribute;
use crate::runtime::datamodel::all_below;
use crate::runtime::datamodel::BuiltInTypeData;
use crate::runtime::datamodel::PyObject;
use crate::runtime::datamodel::PyObjectStructure;
use crate::runtime::interpreter::Fault;
use crate::runtime::interpreter::Flow;
use crate::runtime::names::MemoryAddress;
use crate::runtime::names::NameMap;
use crate::runtime::vm::code_at;
use crate::runtime::vm::consts_at;
use crate::runtime::vm::frame_ok;
use crate::runtime::vm::lemma_frame_evolves;
use crate::runtime::vm::Frame;
use crate::runtime::vm::BUILTIN_MODULE;
use crate::runtime::vm::VM;

verus! {

impl Frame {
    /// Whether `later` is this frame one instruction further on, with the
    /// value stack `stack` and the same slots.
    pub open spec fn advanced_to(self, later: Frame, stack: Seq<MemoryAddress>) -> bool {
        &&& self.continues_as(later)
        &&& later.pc == self.pc + 1
        &&& later.value_stack@ == stack
        &&& later.locals@ == self.locals@
    }

    /// Whether the frame has an instruction left to run.
    pub open spec fn at_instruction(self, heap: Seq<PyObject>) -> bool {
        self.pc < code_at(heap, self.code).instructions.len()
    }
}

/// Whether `frame` fits the machine `later`, which the machine `vm` has
/// become while the frame went on from `before`.
pub open spec fn handled(vm: VM, before: Frame, later: VM, frame: Frame) -> bool {
    vm.after_call(later) && frame_ok(later.heap@, frame) && before.continues_as(frame)
}

/// What is said of a name that means nothing.
pub open spec fn missing_name(name: Seq<char>) -> Seq<char> {
    "name '"@ + name + "' is not defined"@
}

/// What is said of an object that has nothing under the name `name`.
pub open spec fn missing_attribute(name: Seq<char>) -> Seq<char> {
    "object has no attribute '"@ + name + "'"@
}

impl VM {
    /// What a name means outside the frames: what the top-level unit has
    /// stored under it; else the built-in of that name; else the module of
    /// that name.
    pub open spec fn global_value(self, name: Seq<char>) -> Option<MemoryAddress> {
        if self.globals@.contains_key(name) {
            Some(self.globals@[name])
        } else if self.member_of(BUILTIN_MODULE@, name) is Some {
            self.member_of(BUILTIN_MODULE@, name)
        } else if self.modules@.contains_key(name) {
            Some(self.modules@[name])
        } else {
            None
        }
    }

    /// What `name` means outside the frames.
    pub fn find_global(&self, name: &str) -> (r: Option<MemoryAddress>)
        requires
            self.wf(),
        ensures
            r == self.global_value(name@),
            r matches Some(a) ==> self.valid(a),
    {
        match self.globals.get(name) {
            Some(a) => {
                return Some(a);
            },
            None => {},
        }
        match self.find_member(BUILTIN_MODULE, name) {
            Some(a) => {
                proof {
                    let m = self.modules@[BUILTIN_MODULE@];
                    assert(self.heap[m as int].closed(self.heap.len() as int));
                }
                return Some(a);
            },
            None => {},
        }
        self.modules.get(name)
    }
}

/// `LoadConst`: pushes the object of the constant `index`.
pub fn op_load_const(vm: &VM, frame: &mut Frame, index: usize)
    requires
        vm.wf(),
        frame_ok(vm.heap@, *old(frame)),
        old(frame).at_instruction(vm.heap@),
        index < consts_at(vm.heap@, old(frame).code).len(),
    ensures
        frame_ok(vm.heap@, *final(frame)),
        old(frame).advanced_to(
            *final(frame),
            old(frame).value_stack@.push(consts_at(vm.heap@, old(frame).code)[index as int]),
        ),
{
    let a = vm.const_address(frame, index);
    frame.value_stack.push(a);
    frame.pc = frame.pc + 1;
}

/// What `LoadName` leaves of the machine `before` and the frame `frame`:
/// the machine `after`, the frame `later` and how to go on.
pub open spec fn load_name_outcome(
    before: VM,
    frame: Frame,
    slot: int,
    after: VM,
    later: Frame,
    flow: Flow,
) -> bool {
    &&& match frame.locals[slot] {
        Some(a) => flow is Next && after == before && frame.advanced_to(
            later,
            frame.value_stack@.push(a),
        ),
        None => flow is Raised && later == frame && before.raises(after, before.builtin_type_addrs.name_err, before.heap.len(), missing_name(code_at(before.heap@, frame.code).names[slot]@)),
    }
}

/// `LoadName`: pushes what the slot holds; raises a `NameError` if the
/// slot is empty.
pub fn op_load_name(vm: &mut VM, frame: &mut Frame, slot: usize) -> (flow: Flow)
    requires
        old(vm).wf(),
        frame_ok(old(vm).heap@, *old(frame)),
        old(frame).at_instruction(old(vm).heap@),
        slot < old(frame).locals.len(),
    ensures
        handled(*old(vm), *old(frame), *final(vm), *final(frame)),
        load_name_outcome(*old(vm), *old(frame), slot as int, *final(vm), *final(frame), flow),
{
    match frame.locals[slot] {
        Some(a) => {
            frame.value_stack.push(a);
            frame.pc = frame.pc + 1;
            Flow::Next
        },
        None => {
            let name = vm.slot_name(frame, slot);
            let message = "name '".to_string().concat(name.as_str()).concat("' is not defined");
            vm.raise_new(vm.builtin_type_addrs.name_err, message);
            proof {
                lemma_frame_evolves(old(vm).heap@, vm.heap@, *frame);
            }
            Flow::Raised
        },
    }
}

/// What `LoadGlobal` leaves of the machine `before` and the frame `frame`:
/// the machine `after`, the frame `later` and how to go on.
pub open spec fn load_global_outcome(
    before: VM,
    frame: Frame,
    slot: int,
    after: VM,
    later: Frame,
    flow: Flow,
) -> bool {
    &&& match before.global_value(code_at(before.heap@, frame.code).names[slot]@) {
        Some(a) => flow is Next && after == before && frame.advanced_to(
            later,
            frame.value_stack@.push(a),
        ),
        None => flow is Raised && later == frame && before.raises(after, before.builtin_type_addrs.name_err, before.heap.len(), missing_name(code_at(before.heap@, frame.code).names[slot]@)),
    }
}

/// `LoadGlobal`: pushes what the name of the slot means outside the
/// frames; raises a `NameError` if it means nothing.
pub fn op_load_global(vm: &mut VM, frame: &mut Frame, slot: usize) -> (flow: Flow)
    requires
        old(vm).wf(),
        frame_ok(old(vm).heap@, *old(frame)),
        old(frame).at_instruction(old(vm).heap@),
        slot < old(frame).locals.len(),
    ensures
        handled(*old(vm), *old(frame), *final(vm), *final(frame)),
        load_global_outcome(*old(vm), *old(frame), slot as int, *final(vm), *final(frame), flow),
{
    let name = vm.slot_name(frame, slot);
    match vm.find_global(name.as_str()) {
        Some(a) => {
            frame.value_stack.push(a);
            frame.pc = frame.pc + 1;
            Flow::Next
        },
        None => {
            let message = "name '".to_string().concat(name.as_str()).concat("' is not defined");
            vm.raise_new(vm.builtin_type_addrs.name_err, message);
            proof {
                lemma_frame_evolves(old(vm).heap@, vm.heap@, *frame);
            }
            Flow::Raised
        },
    }
}

/// What `StoreName` leaves of the machine `before` and the frame `frame`:
/// the machine `after`, the frame `later` and how to go on.
pub open spec fn store_name_outcome(
    before: VM,
    frame: Frame,
    slot: int,
    after: VM,
    later: Frame,
    flow: Flow,
) -> bool {
    &&& after.heap == before.heap
    &&& after.pending_exception == before.pending_exception
    &&& after.steps_left == before.steps_left
    &&& if frame.value_stack.len() == 0 {
        flow == Flow::Fault(Fault::StackUnderflow)
    } else {
        let value = frame.value_stack@.last();
        &&& flow is Next
        &&& frame.continues_as(later)
        &&& later.pc == frame.pc + 1
        &&& later.value_stack@ == frame.value_stack@.drop_last()
        &&& later.locals@ == frame.locals@.update(slot, Some(value))
        &&& after.globals@ == if code_at(before.heap@, frame.code).main {
            before.globals@.insert(
                code_at(before.heap@, frame.code).names[slot]@,
                value,
            )
        } else {
            before.globals@
        }
    }
}

/// `StoreName`: pops a value into the slot. In the top-level unit the
/// value is stored as a global under the slot's name too.
pub fn op_store_name(vm: &mut VM, frame: &mut Frame, slot: usize) -> (flow: Flow)
    requires
        old(vm).wf(),
        frame_ok(old(vm).heap@, *old(frame)),
        old(frame).at_instruction(old(vm).heap@),
        slot < old(frame).locals.len(),
    ensures
        handled(*old(vm), *old(frame), *final(vm), *final(frame)),
        store_name_outcome(*old(vm), *old(frame), slot as int, *final(vm), *final(frame), flow),
{
    match frame.value_stack.pop() {
        Some(value) => {
            frame.locals.set(slot, Some(value));
            frame.pc = frame.pc + 1;
            if vm.runs_main(frame) {
                let name = vm.slot_name(frame, slot);
                vm.globals.insert(name, value);
            }
            Flow::Next
        },
        None => Flow::Fault(Fault::StackUnderflow),
    }
}

/// `PopTop`: drops the value on top of the stack.
pub fn op_pop_top(vm: &VM, frame: &mut Frame) -> (flow: Flow)
    requires
        vm.wf(),
        frame_ok(vm.heap@, *old(frame)),
        old(frame).at_instruction(vm.heap@),
    ensures
        frame_ok(vm.heap@, *final(frame)),
        old(frame).continues_as(*final(frame)),
        if old(frame).value_stack.len() == 0 {
            flow == Flow::Fault(Fault::StackUnderflow)
        } else {
            flow is Next && old(frame).advanced_to(
                *final(frame),
                old(frame).value_stack@.drop_last(),
            )
        },
{
    match frame.value_stack.pop() {
        Some(_) => {
            frame.pc = frame.pc + 1;
            Flow::Next
        },
        None => Flow::Fault(Fault::StackUnderflow),
    }
}

/// `JumpUnconditional`: goes on at `target`.
pub fn op_jump(vm: &VM, frame: &mut Frame, target: usize)
    requires
        vm.wf(),
        frame_ok(vm.heap@, *old(frame)),
        target <= code_at(vm.heap@, old(frame).code).instructions.len(),
    ensures
        frame_ok(vm.heap@, *final(frame)),
        old(frame).continues_as(*final(frame)),
        final(frame).pc == target,
        final(frame).value_stack == old(frame).value_stack,
        final(frame).locals == old(frame).locals,
{
    frame.pc = target;
}

/// The jump of `JumpIfFalseAndPopStack` once the value on top of the
/// stack is popped and known to count as true or not: goes on at `target`
/// if it does not, at the next instruction if it does.
pub fn op_jump_unless(vm: &VM, frame: &mut Frame, target: usize, holds: bool)
    requires
        vm.wf(),
        frame_ok(vm.heap@, *old(frame)),
        old(frame).at_instruction(vm.heap@),
        target <= code_at(vm.heap@, old(frame).code).instructions.len(),
    ensures
        frame_ok(vm.heap@, *final(frame)),
        old(frame).continues_as(*final(frame)),
        final(frame).pc == if holds {
            old(frame).pc + 1
        } else {
            target as int
        },
        final(frame).value_stack == old(frame).value_stack,
        final(frame).locals == old(frame).locals,
{
    if holds {
        frame.pc = frame.pc + 1;
    } else {
        frame.pc = target;
    }
}

/// What `LoadAttr` leaves of the machine `before` and the frame `frame`:
/// the machine `after`, the frame `later` and how to go on.
pub open spec fn load_attr_outcome(
    before: VM,
    frame: Frame,
    name: Seq<char>,
    after: VM,
    later: Frame,
    flow: Flow,
) -> bool {
    &&& if frame.value_stack.len() == 0 {
        flow == Flow::Fault(Fault::StackUnderflow)
    } else {
        let receiver = frame.value_stack@.last();
        let rest = frame.value_stack@.drop_last();
        match before.lookup(receiver, name) {
            Some(Attribute::Value(found)) => flow is Next && after == before && frame.advanced_to(later, rest.push(found)),
            Some(Attribute::Method { receiver: bound, callable }) => {
                let a = before.heap.len();
                &&& flow is Next
                &&& frame.advanced_to(later, rest.push(a))
                &&& after.heap@.len() == a + 1
                &&& after.heap[a as int].structure == (PyObjectStructure::BoundMethod {
                    receiver,
                    callable,
                })
                &&& after.heap[a as int].type_addr == before.builtin_type_addrs.bound_method
                &&& before.same_but_heap(after)
            },
            None => flow is Raised && before.raises(after, before.builtin_type_addrs.attribute_err, before.heap.len(), missing_attribute(name)),
        }
    }
}

/// `LoadAttr`: pops an object and pushes what it has under `name`: the
/// attribute itself, or a new bound method if the lookup finds a callable
/// to bind. Raises an `AttributeError` if the object has nothing under
/// that name.
pub fn op_load_attr(vm: &mut VM, frame: &mut Frame, name: &str) -> (flow: Flow)
    requires
        old(vm).wf(),
        frame_ok(old(vm).heap@, *old(frame)),
        old(frame).at_instruction(old(vm).heap@),
    ensures
        handled(*old(vm), *old(frame), *final(vm), *final(frame)),
        load_attr_outcome(*old(vm), *old(frame), name@, *final(vm), *final(frame), flow),
{
    let receiver = match frame.value_stack.pop() {
        Some(receiver) => receiver,
        None => {
            return Flow::Fault(Fault::StackUnderflow);
        },
    };
    match vm.resolve_attribute(receiver, name) {
        Some(Attribute::Value(found)) => {
            frame.value_stack.push(found);
            frame.pc = frame.pc + 1;
            Flow::Next
        },
        Some(Attribute::Method { receiver: bound, callable }) => {
            let method = PyObject {
                type_addr: vm.builtin_type_addrs.bound_method,
                structure: PyObjectStructure::BoundMethod { receiver, callable },
                attributes: NameMap::new(),
            };
            let a = vm.allocate(method);
            frame.value_stack.push(a);
            frame.pc = frame.pc + 1;
            proof {
                lemma_frame_evolves(old(vm).heap@, vm.heap@, *old(frame));
            }
            Flow::Next
        },
        None => {
            let message = "object has no attribute '".to_string().concat(name).concat("'");
            vm.raise_new(vm.builtin_type_addrs.attribute_err, message);
            proof {
                lemma_frame_evolves(old(vm).heap@, vm.heap@, *old(frame));
            }
            Flow::Raised
        },
    }
}

/// What `StoreAttr` leaves of the machine `before` and the frame `frame`:
/// the machine `after`, the frame `later` and how to go on.
pub open spec fn store_attr_outcome(
    before: VM,
    frame: Frame,
    slot: int,
    after: VM,
    later: Frame,
    flow: Flow,
) -> bool {
    &&& if frame.value_stack.len() < 2 {
        flow == Flow::Fault(Fault::StackUnderflow)
    } else {
        let n = frame.value_stack.len();
        let target = frame.value_stack[n - 1];
        let value = frame.value_stack[n - 2];
        &&& flow is Next
        &&& frame.advanced_to(later, frame.value_stack@.subrange(0, n - 2))
        &&& after.heap.len() == before.heap.len()
        &&& after.heap[target as int].attributes@ == before.heap[target as int].attributes@.insert(
            code_at(before.heap@, frame.code).names[slot]@,
            value,
        )
        &&& forall|b: int|
            0 <= b < before.heap.len() && b != target ==> after.heap[b] == before.heap[b]
        &&& before.same_but_heap(after)
    }
}

/// `StoreAttr`: pops the object to store into, then the value, and sets
/// the object's attribute of the slot's name to the value.
pub fn op_store_attr(vm: &mut VM, frame: &mut Frame, slot: usize) -> (flow: Flow)
    requires
        old(vm).wf(),
        frame_ok(old(vm).heap@, *old(frame)),
        old(frame).at_instruction(old(vm).heap@),
        slot < old(frame).locals.len(),
    ensures
        handled(*old(vm), *old(frame), *final(vm), *final(frame)),
        store_attr_outcome(*old(vm), *old(frame), slot as int, *final(vm), *final(frame), flow),
{
    if frame.value_stack.len() < 2 {
        return Flow::Fault(Fault::StackUnderflow);
    }
    let ghost stack = frame.value_stack@;
    let target = frame.value_stack.pop().unwrap();
    let value = frame.value_stack.pop().unwrap();
    let name = vm.slot_name(frame, slot);
    vm.set_attribute(target, name, value);
    frame.pc = frame.pc + 1;
    proof {
        assert(frame.value_stack@ =~= stack.subrange(0, stack.len() - 2));
        assert(code_at(old(vm).heap@, frame.code) == code_at(vm.heap@, frame.code)) by {
            if target != frame.code {
                assert(vm.heap[frame.code as int] == old(vm).heap[frame.code as int]);
            }
        }
    }
    Flow::Next
}

/// What `BuildList` leaves of the machine `before` and the frame `frame`:
/// the machine `after`, the frame `later` and how to go on.
pub open spec fn build_list_outcome(
    before: VM,
    frame: Frame,
    count: int,
    after: VM,
    later: Frame,
    flow: Flow,
) -> bool {
    &&& if frame.value_stack.len() < count {
        flow == Flow::Fault(Fault::StackUnderflow)
    } else {
        let n = frame.value_stack.len();
        let a = before.heap.len();
        &&& flow is Next
        &&& frame.advanced_to(
            later,
            frame.value_stack@.subrange(0, n - count).push(a),
        )
        &&& after.heap.len() == a + 1
        &&& after.heap[a as int].type_addr == before.builtin_type_addrs.list
        &&& after.heap[a as int].structure matches PyObjectStructure::Instance {
            builtin: Some(BuiltInTypeData::List(items)),
        } && items@ == frame.value_stack@.subrange(n - count, n as int)
        &&& forall|b: int| 0 <= b < a ==> after.heap[b] == before.heap[b]
        &&& before.same_but_heap(after)
    }
}

/// `BuildList`: pops `count` values and pushes a new list of them, the
/// value pushed first in front.
pub fn op_build_list(vm: &mut VM, frame: &mut Frame, count: usize) -> (flow: Flow)
    requires
        old(vm).wf(),
        frame_ok(old(vm).heap@, *old(frame)),
        old(frame).at_instruction(old(vm).heap@),
    ensures
        handled(*old(vm), *old(frame), *final(vm), *final(frame)),
        build_list_outcome(*old(vm), *old(frame), count as int, *final(vm), *final(frame), flow),
{
    let n = frame.value_stack.len();
    if n < count {
        return Flow::Fault(Fault::StackUnderflow);
    }
    let items = frame.value_stack.split_off(n - count);
    let a = vm.allocate_type_byaddr_raw(vm.builtin_type_addrs.list, BuiltInTypeData::List(items));
    frame.value_stack.push(a);
    frame.pc = frame.pc + 1;
    proof {
        lemma_frame_evolves(old(vm).heap@, vm.heap@, *old(frame));
    }
    Flow::Next
}

/// The items of the list at `addr`, copied; nothing if the object there is
/// no list.
pub fn list_items(vm: &VM, addr: MemoryAddress) -> (r: Option<Vec<MemoryAddress>>)
    requires
        vm.wf(),
        vm.valid(addr),
    ensures
        match r {
            Some(items) => vm.heap[addr as int].structure matches PyObjectStructure::Instance {
                builtin: Some(BuiltInTypeData::List(held)),
            } && items@ == held@ && all_below(items@, vm.heap.len() as int),
            None => !(vm.heap[addr as int].structure matches PyObjectStructure::Instance {
                builtin: Some(BuiltInTypeData::List(_)),
            }),
        },
{
    match &vm.heap[addr].structure {
        PyObjectStructure::Instance { builtin: Some(BuiltInTypeData::List(held)) } => {
            proof {
                assert(vm.heap[addr as int].closed(vm.heap.len() as int));
            }
            let mut items: Vec<MemoryAddress> = Vec::new();
            let mut i: usize = 0;
            while i < held.len()
                invariant
                    i <= held.len(),
                    items@ == held@.subrange(0, i as int),
                decreases held.len() - i,
            {
                items.push(held[i]);
                assert(items@ =~= held@.subrange(0, i + 1));
                i += 1;
            }
            assert(items@ =~= held@);
            Some(items)
        },
        _ => None,
    }
}

/// What `MakeFunction` leaves of the machine `before` and the frame
/// `frame`: the machine `after`, the frame `later` and how to go on.
pub open spec fn make_function_outcome(
    before: VM,
    frame: Frame,
    has_defaults: bool,
    after: VM,
    later: Frame,
    flow: Flow,
) -> bool {
    &&& ({
        let n = frame.value_stack.len();
        let used: int = if has_defaults {
            3
        } else {
            2
        };
        if n < used {
            flow == Flow::Fault(Fault::StackUnderflow)
        } else {
            let code = frame.value_stack[n - 2];
            let a = before.heap.len();
            let made = {
                &&& flow is Next
                &&& frame.advanced_to(
                    later,
                    frame.value_stack@.subrange(0, n - used).push(a),
                )
                &&& after.heap.len() == a + 1
                &&& after.heap[a as int].type_addr == before.builtin_type_addrs.function
                &&& forall|b: int| 0 <= b < a ==> after.heap[b] == before.heap[b]
                &&& before.same_but_heap(after)
            };
            if has_defaults {
                match before.heap[frame.value_stack[n - 3] as int].structure {
                    PyObjectStructure::Instance {
                        builtin: Some(BuiltInTypeData::List(items)),
                    } => made && (after.heap[a as int].structure
                        matches PyObjectStructure::Function { code: c, defaults } && c == code
                        && defaults@ == items@),
                    _ => flow is Raised && before.raises(after, before.builtin_type_addrs.type_err, a, "default values must be a list"@),
                }
            } else {
                made && (after.heap[a as int].structure matches PyObjectStructure::Function {
                    code: c,
                    defaults,
                } && c == code && defaults@ == Seq::<MemoryAddress>::empty())
            }
        }
    })
}

/// `MakeFunction`: pops the function's name and its code object, and, if
/// `has_defaults`, a list of default values; pushes a new function. Raises
/// a `TypeError` if what should be the list of default values is no list.
pub fn op_make_function(vm: &mut VM, frame: &mut Frame, has_defaults: bool) -> (flow: Flow)
    requires
        old(vm).wf(),
        frame_ok(old(vm).heap@, *old(frame)),
        old(frame).at_instruction(old(vm).heap@),
    ensures
        handled(*old(vm), *old(frame), *final(vm), *final(frame)),
        make_function_outcome(*old(vm), *old(frame), has_defaults, *final(vm), *final(frame), flow),
{
    let n = frame.value_stack.len();
    if n < 2 || (has_defaults && n < 3) {
        return Flow::Fault(Fault::StackUnderflow);
    }
    let ghost stack = frame.value_stack@;
    let _name = frame.value_stack.pop().unwrap();
    let code = frame.value_stack.pop().unwrap();
    let defaults = if has_defaults {
        let list = frame.value_stack.pop().unwrap();
        match list_items(vm, list) {
            Some(items) => items,
            None => {
                vm.raise_new(
                    vm.builtin_type_addrs.type_err,
                    "default values must be a list".to_string(),
                );
                proof {
                    lemma_frame_evolves(old(vm).heap@, vm.heap@, *old(frame));
                }
                return Flow::Raised;
            },
        }
    } else {
        Vec::new()
    };
    let function = PyObject {
        type_addr: vm.builtin_type_addrs.function,
        structure: PyObjectStructure::Function { code, defaults },
        attributes: NameMap::new(),
    };
    let a = vm.allocate(function);
    frame.value_stack.push(a);
    frame.pc = frame.pc + 1;
    proof {
        lemma_frame_evolves(old(vm).heap@, vm.heap@, *old(frame));
        if has_defaults {
            assert(frame.value_stack@ =~= stack.subrange(0, n - 3).push(a));
        } else {
            assert(frame.value_stack@ =~= stack.subrange(0, n - 2).push(a));
        }
    }
    Flow::Next
}

/// What `Raise` leaves of the machine `before` and the frame `frame`: the
/// machine `after`, the frame `later` and how to go on.
pub open spec fn raise_outcome(
    before: VM,
    frame: Frame,
    after: VM,
    later: Frame,
    flow: Flow,
) -> bool {
    &&& after.heap == before.heap
    &&& if frame.value_stack.len() == 0 {
        flow == Flow::Fault(Fault::StackUnderflow)
    } else {
        &&& flow is Raised
        &&& after.pending_exception == Some(frame.value_stack@.last())
        &&& frame.advanced_to(later, frame.value_stack@.drop_last())
    }
}

/// `Raise`: pops an exception and makes it the pending one.
pub fn op_raise(vm: &mut VM, frame: &mut Frame) -> (flow: Flow)
    requires
        old(vm).wf(),
        frame_ok(old(vm).heap@, *old(frame)),
        old(frame).at_instruction(old(vm).heap@),
    ensures
        handled(*old(vm), *old(frame), *final(vm), *final(frame)),
        raise_outcome(*old(vm), *old(frame), *final(vm), *final(frame), flow),
{
    match frame.value_stack.pop() {
        Some(exception) => {
            vm.raise_exception(exception);
            frame.pc = frame.pc + 1;
            Flow::Raised
        },
        None => Flow::Fault(Fault::StackUnderflow),
    }
}

/// `ReturnValue`: pops the result of the call.
pub fn op_return(vm: &VM, frame: &mut Frame) -> (flow: Flow)
    requires
        vm.wf(),
        frame_ok(vm.heap@, *old(frame)),
    ensures
        frame_ok(vm.heap@, *final(frame)),
        old(frame).continues_as(*final(frame)),
        final(frame).locals == old(frame).locals,
        final(frame).pc == old(frame).pc,
        if old(frame).value_stack.len() == 0 {
            flow == Flow::Fault(Fault::StackUnderflow)
        } else {
            flow == Flow::Return(old(frame).value_stack@.last()) && final(frame).value_stack@
                == old(frame).value_stack@.drop_last() && vm.valid(old(frame).value_stack@.last())
        },
{
    match frame.value_stack.pop() {
        Some(value) => Flow::Return(value),
        None => Flow::Fault(Fault::StackUnderflow),
    }
}

} // verus!
