//! Frames: reading the code that a frame runs, and binding the arguments of
//! a call to the slots of a new frame.

use vstd::prelude::*;
use crate::bytecode::closed::instruction_closed;
use crate::bytecode::closed::unit_closed;
use crate::bytecode::program::Instruction;
use crate::runtime::datamodel::all_below;
use crate::runtime::datamodel::set_below;
use crate::runtime::datamodel::BuiltInTypeData;
use crate::runtime::datamodel::PyObjectStructure;
use crate::runtime::names::MemoryAddress;
use crate::runtime::vm::code_at;
use crate::runtime::vm::consts_at;
use crate::runtime::vm::frame_ok;
use crate::runtime::vm::Frame;
use crate::runtime::vm::VM;

verus! {

/// The slots of a new frame for a call with the arguments `args` of a
/// function with `params` parameters, of which the last ones have the
/// default values `defaults`, and with `slots` slots in all: the arguments
/// fill the first slots, default values the parameters that are left, and
/// the other slots are empty. There is no such frame if the arguments are
/// too many, or too few for the parameters without default value.
pub open spec fn bound_slots(
    params: int,
    slots: int,
    args: Seq<MemoryAddress>,
    defaults: Seq<MemoryAddress>,
) -> Option<Seq<Option<MemoryAddress>>> {
    if defaults.len() <= params <= slots && params - defaults.len() <= args.len() <= params {
        Some(
            Seq::new(
                slots as nat,
                |i: int|
                    if i < args.len() {
                        Some(args[i])
                    } else if i < params {
                        Some(defaults[i - (params - defaults.len())])
                    } else {
                        None
                    },
            ),
        )
    } else {
        None
    }
}

/// The slots of a new frame for a call.
pub fn bind_arguments(
    params: usize,
    slots: usize,
    args: &Vec<MemoryAddress>,
    defaults: &Vec<MemoryAddress>,
) -> (r: Option<Vec<Option<MemoryAddress>>>)
    ensures
        match r {
            Some(locals) => Some(locals@) == bound_slots(
                params as int,
                slots as int,
                args@,
                defaults@,
            ),
            None => bound_slots(params as int, slots as int, args@, defaults@) is None,
        },
{
    if defaults.len() > params || params > slots {
        return None;
    }
    let required = params - defaults.len();
    if args.len() < required || args.len() > params {
        return None;
    }
    let mut locals: Vec<Option<MemoryAddress>> = Vec::new();
    let mut i: usize = 0;
    while i < slots
        invariant
            i <= slots,
            defaults.len() <= params <= slots,
            required == params - defaults.len(),
            required <= args.len() <= params,
            locals.len() == i,
            forall|j: int|
                0 <= j < i ==> #[trigger] locals[j] == bound_slots(
                    params as int,
                    slots as int,
                    args@,
                    defaults@,
                ).unwrap()[j],
        decreases slots - i,
    {
        let slot = if i < args.len() {
            Some(args[i])
        } else if i < params {
            Some(defaults[i - required])
        } else {
            None
        };
        locals.push(slot);
        i += 1;
    }
    assert(locals@ =~= bound_slots(params as int, slots as int, args@, defaults@).unwrap());
    Some(locals)
}

/// A call without arguments of a function all of whose parameters have a
/// default value binds each parameter to its default value.
pub proof fn lemma_defaults_fill_all(slots: int, defaults: Seq<MemoryAddress>)
    requires
        defaults.len() <= slots,
    ensures
        bound_slots(defaults.len() as int, slots, Seq::empty(), defaults) is Some,
        forall|i: int|
            0 <= i < defaults.len() ==> bound_slots(
                defaults.len() as int,
                slots,
                Seq::empty(),
                defaults,
            ).unwrap()[i] == Some(defaults[i]),
{
}

/// Bound slots hold only addresses that the arguments and default values
/// hold.
pub proof fn lemma_bound_slots_below(
    params: int,
    slots: int,
    args: Seq<MemoryAddress>,
    defaults: Seq<MemoryAddress>,
    n: int,
)
    requires
        all_below(args, n),
        all_below(defaults, n),
        bound_slots(params, slots, args, defaults) is Some,
    ensures
        set_below(bound_slots(params, slots, args, defaults).unwrap(), n),
        bound_slots(params, slots, args, defaults).unwrap().len() == slots,
{
}

impl VM {
    /// The instruction that `frame` is about to run; none at the end of
    /// its code.
    pub fn fetch(&self, frame: &Frame) -> (r: Option<Instruction>)
        requires
            self.wf(),
            frame_ok(self.heap@, *frame),
        ensures
            match r {
                Some(i) => frame.pc < code_at(self.heap@, frame.code).instructions.len()
                    && i.deep_view() == code_at(
                    self.heap@,
                    frame.code,
                ).instructions[frame.pc as int].deep_view() && instruction_closed(
                    i.deep_view(),
                    0,
                    code_at(self.heap@, frame.code).instructions.len() as int,
                    consts_at(self.heap@, frame.code).len() as int,
                    frame.locals.len() as int,
                ),
                None => frame.pc == code_at(self.heap@, frame.code).instructions.len(),
            },
    {
        match &self.heap[frame.code].structure {
            PyObjectStructure::Instance { builtin: Some(BuiltInTypeData::Code { code, consts }) } => {
                if frame.pc < code.instructions.len() {
                    proof {
                        assert(self.heap[frame.code as int].closed(self.heap.len() as int));
                        let unit = code.deep_view();
                        assert(unit_closed(unit));
                        assert(unit.instructions[frame.pc as int]
                            == code.instructions[frame.pc as int].deep_view());
                        assert(unit.consts.len() == code.consts.len());
                        assert(unit.names.len() == code.names.len());
                    }
                    Some(code.instructions[frame.pc].clone())
                } else {
                    None
                }
            },
            _ => None,
        }
    }

    /// The object of the constant `index` of the code that `frame` runs.
    pub fn const_address(&self, frame: &Frame, index: usize) -> (r: MemoryAddress)
        requires
            self.wf(),
            frame_ok(self.heap@, *frame),
            index < consts_at(self.heap@, frame.code).len(),
        ensures
            r == consts_at(self.heap@, frame.code)[index as int],
            self.valid(r),
    {
        match &self.heap[frame.code].structure {
            PyObjectStructure::Instance { builtin: Some(BuiltInTypeData::Code { code, consts }) } => {
                proof {
                    assert(self.heap[frame.code as int].closed(self.heap.len() as int));
                }
                consts[index]
            },
            _ => 0,
        }
    }

    /// The name of the slot `slot` of the code that `frame` runs.
    pub fn slot_name(&self, frame: &Frame, slot: usize) -> (r: String)
        requires
            self.wf(),
            frame_ok(self.heap@, *frame),
            slot < frame.locals.len(),
        ensures
            r@ == code_at(self.heap@, frame.code).names[slot as int]@,
    {
        match &self.heap[frame.code].structure {
            PyObjectStructure::Instance { builtin: Some(BuiltInTypeData::Code { code, consts }) } => {
                code.names[slot].clone()
            },
            _ => String::new(),
        }
    }

    /// Whether `frame` runs the code of a top-level unit.
    pub fn runs_main(&self, frame: &Frame) -> (r: bool)
        requires
            self.wf(),
            frame_ok(self.heap@, *frame),
        ensures
            r == code_at(self.heap@, frame.code).main,
    {
        match &self.heap[frame.code].structure {
            PyObjectStructure::Instance { builtin: Some(BuiltInTypeData::Code { code, consts }) } => {
                code.main
            },
            _ => false,
        }
    }
}

} // verus!
