//! How a call begins: native functions run at once, functions get the
//! frame in which they run, and types make instances of themselves.

use vstd::prelude::*;
use crate::runtime::attributes::find_method;
use crate::runtime::datamodel::BuiltInTypeData;
use crate::runtime::datamodel::CallParams;
use crate::runtime::datamodel::NativeFunction;
use crate::runtime::datamodel::PyObject;
use crate::runtime::datamodel::PyObjectStructure;
use crate::runtime::datamodel::all_below;
use crate::runtime::datamodel::lemma_evolves_trans;
use crate::runtime::datamodel::option_below;
use crate::runtime::frames::bind_arguments;
use crate::runtime::frames::bound_slots;
use crate::runtime::frames::lemma_bound_slots_below;
use crate::runtime::interpreter::new_frame;
use crate::runtime::names::MemoryAddress;
use crate::runtime::names::NameMap;
use crate::runtime::natives::NativeHost;
use crate::runtime::natives::call_native;
use crate::runtime::natives::native_outcome;
use crate::runtime::vm::Frame;
use crate::runtime::vm::VM;
use crate::runtime::vm::code_at;
use crate::runtime::vm::frame_ok;

verus! {

/// How a call begins.
pub enum CallStart {
    /// It is over already, with this result.
    Value(MemoryAddress),
    /// This frame is to be run.
    Enter(Frame),
    /// An exception is pending.
    Raised,
}

/// The arguments of a call as the callee sees them: the receiver of a
/// bound method in front.
pub open spec fn call_args(bound: Option<MemoryAddress>, args: Seq<MemoryAddress>) -> Seq<
    MemoryAddress,
> {
    match bound {
        Some(receiver) => seq![receiver] + args,
        None => args,
    }
}

/// The arguments of a call as the callee sees them.
fn with_receiver(bound: Option<MemoryAddress>, args: Vec<MemoryAddress>) -> (r: Vec<MemoryAddress>)
    ensures
        r@ == call_args(bound, args@),
{
    match bound {
        Some(receiver) => {
            let mut all: Vec<MemoryAddress> = Vec::new();
            all.push(receiver);
            let mut rest = args;
            all.append(&mut rest);
            assert(all@ =~= seq![receiver] + args@);
            all
        },
        None => args,
    }
}

impl VM {
    /// The frame in which the function at `function` runs when called with
    /// `args`, if the object there is a function with loaded code and the
    /// arguments fit its parameters.
    pub open spec fn callee_slots(self, function: MemoryAddress, args: Seq<MemoryAddress>) -> Option<
        Seq<Option<MemoryAddress>>,
    > {
        match self.heap[function as int].structure {
            PyObjectStructure::Function { code, defaults } => if self.heap[code as int].structure.is_code() {
                bound_slots(
                    code_at(self.heap@, code).params.len() as int,
                    code_at(self.heap@, code).names.len() as int,
                    args,
                    defaults@,
                )
            } else {
                None
            },
            _ => None,
        }
    }

    /// The frame for a call of the function at `function` with `args`.
    pub fn enter_function(
        &self,
        function: MemoryAddress,
        args: &Vec<MemoryAddress>,
        instance: Option<MemoryAddress>,
    ) -> (r: Option<Frame>)
        requires
            self.wf(),
            self.valid(function),
            all_below(args@, self.heap.len() as int),
            option_below(instance, self.heap.len() as int),
        ensures
            match r {
                Some(frame) => self.callee_slots(function, args@) == Some(frame.locals@)
                    && frame_ok(self.heap@, frame) && frame.pc == 0 && frame.value_stack@
                    == Seq::<MemoryAddress>::empty() && !frame.entry && frame.instance == instance
                    && Some(frame.code) == (match self.heap[function as int].structure {
                    PyObjectStructure::Function { code, .. } => Some(code),
                    _ => None,
                }),
                None => self.callee_slots(function, args@) is None,
            },
    {
        assert(self.heap[function as int].closed(self.heap.len() as int));
        match &self.heap[function].structure {
            PyObjectStructure::Function { code, defaults } => {
                match &self.heap[*code].structure {
                    PyObjectStructure::Instance {
                        builtin: Some(BuiltInTypeData::Code { code: unit, consts }),
                    } => {
                        assert(self.heap[*code as int].closed(self.heap.len() as int));
                        match bind_arguments(unit.params.len(), unit.names.len(), args, defaults) {
                            Some(locals) => {
                                proof {
                                    lemma_bound_slots_below(
                                        unit.params.len() as int,
                                        unit.names.len() as int,
                                        args@,
                                        defaults@,
                                        self.heap.len() as int,
                                    );
                                }
                                Some(new_frame(*code, locals, false, instance))
                            },
                            None => None,
                        }
                    },
                    _ => None,
                }
            },
            _ => None,
        }
    }
}

/// What the call of `callable` is a call of: the callable of a bound
/// method, to be called on the method's receiver, or `callable` itself.
pub open spec fn call_target(vm: VM, callable: MemoryAddress, bound: Option<MemoryAddress>) -> (
    MemoryAddress,
    Option<MemoryAddress>,
) {
    match vm.heap[callable as int].structure {
        PyObjectStructure::BoundMethod { receiver, callable: inner } => if bound is None {
            (inner, Some(receiver))
        } else {
            (callable, bound)
        },
        _ => (callable, bound),
    }
}

/// Whether `r` is the frame in which the function at `function` begins
/// to run with the slots `slots`, to yield `instance` if one is given.
pub open spec fn entered(
    vm: VM,
    r: CallStart,
    function: MemoryAddress,
    slots: Seq<Option<MemoryAddress>>,
    instance: Option<MemoryAddress>,
) -> bool {
    &&& r matches CallStart::Enter(frame)
    &&& vm.heap[function as int].structure matches PyObjectStructure::Function { code, .. }
    &&& frame.code == code
    &&& frame.pc == 0
    &&& frame.locals@ == slots
    &&& frame.value_stack@ == Seq::<MemoryAddress>::empty()
    &&& !frame.entry
    &&& frame.instance == instance
}

/// Whether `made` is the machine `before` with one more object, a new
/// instance of the type at `t` without attributes.
pub open spec fn instance_made(before: VM, t: MemoryAddress, made: VM) -> bool {
    let a = before.heap.len() as int;
    &&& before.same_but_heap(made)
    &&& made.heap.len() == a + 1
    &&& forall|b: int| 0 <= b < a ==> made.heap[b] == before.heap[b]
    &&& made.heap[a].type_addr == t
    &&& made.heap[a].structure == (PyObjectStructure::Instance { builtin: None })
    &&& made.heap[a].attributes@ == Map::<Seq<char>, MemoryAddress>::empty()
}

/// What a call that is over at once has come to: `Raised` if an
/// exception is pending, the value `a` if not.
pub open spec fn call_over(after: VM, a: MemoryAddress) -> CallStart {
    if after.pending_exception is Some {
        CallStart::Raised
    } else {
        CallStart::Value(a)
    }
}

/// What the call of the native function `function` on `receiver` with
/// `args` leaves: a result `a` and the machine `after`.
pub open spec fn native_called(
    function: NativeFunction,
    before: VM,
    receiver: Option<MemoryAddress>,
    args: Seq<MemoryAddress>,
    a: MemoryAddress,
    after: VM,
) -> bool
    decreases before.steps_left, 34nat,
{
    exists|params: CallParams| #[trigger]
        params.carries(receiver, args) && native_outcome(function, before, params, a, after)
}

/// What the call of the function at `function` with `args` leaves: the
/// frame in which it runs, with the arguments and then the function's
/// default values in its first slots, or a `TypeError` if they do not fit.
pub open spec fn function_called(
    before: VM,
    function: MemoryAddress,
    args: Seq<MemoryAddress>,
    instance: Option<MemoryAddress>,
    r: CallStart,
    after: VM,
) -> bool {
    match before.callee_slots(function, args) {
        Some(slots) => after == before && entered(before, r, function, slots, instance),
        None => r is Raised && before.raises(
            after,
            before.builtin_type_addrs.type_err,
            before.heap.len(),
            "the arguments do not fit the function's parameters"@,
        ),
    }
}

/// What the call of the type at `t` with `args` leaves: a new instance
/// of the type is the result of the call, once the `__init__` of the
/// type, if it has one, has run on it with `args`.
pub open spec fn type_called(
    before: VM,
    t: MemoryAddress,
    args: Seq<MemoryAddress>,
    r: CallStart,
    after: VM,
) -> bool
    decreases before.steps_left, 35nat,
{
    let instance = before.heap.len();
    exists|made: VM| #[trigger]
        instance_made(before, t, made) && match find_method(made.heap@, t, "__init__"@) {
            None => after == made && r == call_over(after, instance),
            Some(init) => match made.heap[init as int].structure {
                PyObjectStructure::NativeFunction { function } => r == call_over(after, instance)
                    && exists|a: MemoryAddress| #[trigger]
                    after.valid(a) && native_called(function, made, Some(instance), args, a, after),
                _ => function_called(made, init, seq![instance] + args, Some(instance), r, after),
            },
        }
}

/// What beginning the call of `callable` with `args`, on the receiver
/// `bound` if one is given, leaves.
///
/// A bound method is called as its callable on its receiver. A native
/// function runs at once. A function gets the frame in which it runs. A
/// type makes an instance of itself. Anything else raises a `TypeError`.
pub open spec fn call_outcome(
    before: VM,
    callable: MemoryAddress,
    bound: Option<MemoryAddress>,
    args: Seq<MemoryAddress>,
    r: CallStart,
    after: VM,
) -> bool
    decreases before.steps_left, 36nat,
{
    let (target, receiver) = call_target(before, callable, bound);
    match before.heap[target as int].structure {
        PyObjectStructure::NativeFunction { function } => exists|a: MemoryAddress|
            r == #[trigger] call_over(after, a) && native_called(
                function,
                before,
                receiver,
                args,
                a,
                after,
            ),
        PyObjectStructure::Function { .. } => function_called(
            before,
            target,
            call_args(receiver, args),
            None,
            r,
            after,
        ),
        PyObjectStructure::Type { .. } => type_called(before, target, args, r, after),
        _ => r is Raised && before.raises(
            after,
            before.builtin_type_addrs.type_err,
            before.heap.len(),
            "object is not callable"@,
        ),
    }
}

/// Begins the call of `callable` with the arguments `args`, on the
/// receiver `bound` if one is given.
///
/// A bound method is called as its callable on its receiver. A native
/// function runs at once. For a function, the frame in which it runs is
/// made: a `TypeError` is raised if the arguments do not fit. A type makes
/// a new instance of itself, which is the result of the call; if the type,
/// or one it extends, has `__init__`, that runs on the instance first.
/// Anything else raises a `TypeError`.
pub fn start_call<H: NativeHost>(
    vm: &mut VM,
    host: &H,
    callable: MemoryAddress,
    bound: Option<MemoryAddress>,
    args: Vec<MemoryAddress>,
) -> (r: CallStart)
    requires
        old(vm).wf(),
        old(vm).valid(callable),
        option_below(bound, old(vm).heap.len() as int),
        all_below(args@, old(vm).heap.len() as int),
    ensures
        old(vm).after_call(*final(vm)),
        match r {
            CallStart::Value(a) => final(vm).valid(a) && final(vm).pending_exception is None,
            CallStart::Enter(frame) => frame_ok(final(vm).heap@, frame),
            CallStart::Raised => final(vm).pending_exception is Some,
        },
        call_outcome(*old(vm), callable, bound, args@, r, *final(vm)),
    decreases old(vm).steps_left, 8nat,
{
    assert(old(vm).heap[callable as int].closed(old(vm).heap.len() as int));
    let (target, receiver) = match &vm.heap[callable].structure {
        PyObjectStructure::BoundMethod { receiver, callable: inner } => {
            if bound.is_none() {
                (*inner, Some(*receiver))
            } else {
                (callable, bound)
            }
        },
        _ => (callable, bound),
    };
    assert(old(vm).heap[target as int].closed(old(vm).heap.len() as int));
    let native = match &vm.heap[target].structure {
        PyObjectStructure::NativeFunction { function } => Some(*function),
        _ => None,
    };
    let is_function = match &vm.heap[target].structure {
        PyObjectStructure::Function { .. } => true,
        _ => false,
    };
    let is_type = match &vm.heap[target].structure {
        PyObjectStructure::Type { .. } => true,
        _ => false,
    };
    let ghost given = args@;
    if let Some(function) = native {
        let params = CallParams { func_name: None, bound_pyobj: receiver, params: args };
        let ghost handed = params;
        let result = call_native(vm, host, function, params);
        assert(native_called(function, *old(vm), receiver, given, result, *vm)) by {
            assert(handed.carries(receiver, given));
            assert(native_outcome(function, *old(vm), handed, result, *vm));
        }
        let r = if vm.pending_exception.is_some() {
            CallStart::Raised
        } else {
            CallStart::Value(result)
        };
        assert(r == call_over(*vm, result));
        r
    } else if is_function {
        let all = with_receiver(receiver, args);
        assert(all_below(all@, vm.heap.len() as int));
        match vm.enter_function(target, &all, None) {
            Some(frame) => CallStart::Enter(frame),
            None => {
                vm.raise_new(
                    vm.builtin_type_addrs.type_err,
                    "the arguments do not fit the function's parameters".to_string(),
                );
                CallStart::Raised
            },
        }
    } else if is_type {
        let object = PyObject {
            type_addr: target,
            structure: PyObjectStructure::Instance { builtin: None },
            attributes: NameMap::new(),
        };
        let instance = vm.allocate(object);
        let ghost made = *vm;
        assert(instance_made(*old(vm), target, made));
        match vm.find_in_types(target, "__init__") {
            None => {
                if vm.pending_exception.is_some() {
                    CallStart::Raised
                } else {
                    CallStart::Value(instance)
                }
            },
            Some(init) => {
                let init_native = match &vm.heap[init].structure {
                    PyObjectStructure::NativeFunction { function } => Some(*function),
                    _ => None,
                };
                match init_native {
                    Some(function) => {
                        let params = CallParams {
                            func_name: None,
                            bound_pyobj: Some(instance),
                            params: args,
                        };
                        let ghost handed = params;
                        let result = call_native(vm, host, function, params);
                        proof {
                            lemma_evolves_trans(old(vm).heap@, made.heap@, vm.heap@);
                            assert(handed.carries(Some(instance), given));
                            assert(native_outcome(function, made, handed, result, *vm));
                            assert(native_called(function, made, Some(instance), given, result, *vm));
                            assert(vm.valid(result));
                        }
                        if vm.pending_exception.is_some() {
                            CallStart::Raised
                        } else {
                            CallStart::Value(instance)
                        }
                    },
                    None => {
                        let all = with_receiver(Some(instance), args);
                        assert(all_below(all@, vm.heap.len() as int));
                        assert(all@ == seq![instance] + given);
                        match vm.enter_function(init, &all, Some(instance)) {
                            Some(frame) => CallStart::Enter(frame),
                            None => {
                                vm.raise_new(
                                    vm.builtin_type_addrs.type_err,
                                    "the arguments do not fit the function's parameters".to_string(),
                                );
                                proof {
                                    lemma_evolves_trans(old(vm).heap@, made.heap@, vm.heap@);
                                }
                                CallStart::Raised
                            },
                        }
                    },
                }
            },
        }
    } else {
        vm.raise_new(vm.builtin_type_addrs.type_err, "object is not callable".to_string());
        CallStart::Raised
    }
}

} // verus!
