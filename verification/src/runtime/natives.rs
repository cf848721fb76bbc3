//! Native functions: the machine's own and those of its host.

use vstd::prelude::*;
use crate::builtin_types::bool_type;
use crate::builtin_types::code_object;
use crate::builtin_types::int_type;
use crate::builtin_types::list_type;
use crate::builtin_types::string_type;
use crate::runtime::datamodel::all_below;
use crate::runtime::datamodel::option_below;
use crate::runtime::datamodel::CallParams;
use crate::runtime::datamodel::BuiltInTypeData;
use crate::runtime::datamodel::NativeFunction;
use crate::runtime::datamodel::PyObjectStructure;
use crate::runtime::names::MemoryAddress;
use crate::runtime::vm::VM;

verus! {

impl CallParams {
    /// Whether the receiver and the arguments are objects of `vm`.
    pub open spec fn valid_in(self, vm: VM) -> bool {
        option_below(self.bound_pyobj, vm.heap.len() as int) && all_below(
            self.params@,
            vm.heap.len() as int,
        )
    }
}

impl VM {
    /// What a call leaves behind: a sound machine, in which every object
    /// that was there is still there, with the calls in progress and the
    /// well-known addresses as they were.
    pub open spec fn after_call(self, later: VM) -> bool {
        &&& later.wf()
        &&& self.before(later)
        &&& later.frames@ == self.frames@
        &&& later.builtin_type_addrs == self.builtin_type_addrs
    }
}

/// The functions that the host of the machine provides: those that are
/// registered as [`crate::runtime::datamodel::NativeFunction::External`].
pub trait NativeHost {
    /// Runs the host's function number `id` on `params` and returns the
    /// address of its result. To fail, the function raises an exception in
    /// `vm`; what it returns is not used then.
    fn call_external(&self, id: u64, vm: &mut VM, params: CallParams) -> (r: MemoryAddress)
        requires
            old(vm).wf(),
            params.valid_in(*old(vm)),
        ensures
            old(vm).after_call(*final(vm)),
            final(vm).valid(r),
    ;
}

/// A host without functions: calling one raises a `TypeError`.
pub struct NoHost;

impl NativeHost for NoHost {
    fn call_external(&self, id: u64, vm: &mut VM, params: CallParams) -> (r: MemoryAddress)
        ensures
            old(vm).raises(
                *final(vm),
                old(vm).builtin_type_addrs.type_err,
                r,
                "the host provides no functions"@,
            ),
    {
        vm.raise_new(vm.builtin_type_addrs.type_err, "the host provides no functions".to_string())
    }
}

impl VM {
    /// The items of the list at `a`, if the object there is a list.
    pub open spec fn list_at(self, a: MemoryAddress) -> Option<Seq<MemoryAddress>> {
        match self.heap[a as int].structure {
            PyObjectStructure::Instance { builtin: Some(BuiltInTypeData::List(items)) } => Some(
                items@,
            ),
            _ => None,
        }
    }

    /// The integer that the object at `a` carries, if it carries one.
    pub open spec fn int_at(self, a: MemoryAddress) -> Option<i128> {
        match self.heap[a as int].structure {
            PyObjectStructure::Instance { builtin: Some(BuiltInTypeData::Int(i)) } => Some(i),
            _ => None,
        }
    }

    /// The text of the string at `a`, if the object there is a string.
    pub open spec fn text_at(self, a: MemoryAddress) -> Option<Seq<char>> {
        match self.heap[a as int].structure {
            PyObjectStructure::Instance { builtin: Some(BuiltInTypeData::String(s)) } => Some(s@),
            _ => None,
        }
    }

    /// The number of items of the list at `a`.
    pub fn list_length(&self, a: MemoryAddress) -> (r: Option<usize>)
        requires
            self.valid(a),
        ensures
            match r {
                Some(n) => self.list_at(a) matches Some(items) && items.len() == n,
                None => self.list_at(a) is None,
            },
    {
        match &self.heap[a].structure {
            PyObjectStructure::Instance { builtin: Some(BuiltInTypeData::List(items)) } => Some(
                items.len(),
            ),
            _ => None,
        }
    }

    /// The item `index` of the list at `a`.
    pub fn list_item(&self, a: MemoryAddress, index: usize) -> (r: Option<MemoryAddress>)
        requires
            self.wf(),
            self.valid(a),
        ensures
            match r {
                Some(item) => self.valid(item) && (self.list_at(a) matches Some(items) && index
                    < items.len() && items[index as int] == item),
                None => match self.list_at(a) {
                    Some(items) => index >= items.len(),
                    None => true,
                },
            },
    {
        match &self.heap[a].structure {
            PyObjectStructure::Instance { builtin: Some(BuiltInTypeData::List(items)) } => {
                if index < items.len() {
                    assert(self.heap[a as int].closed(self.heap.len() as int));
                    Some(items[index])
                } else {
                    None
                }
            },
            _ => None,
        }
    }

    /// The integer that the object at `a` carries.
    pub fn int_value(&self, a: MemoryAddress) -> (r: Option<i128>)
        requires
            self.valid(a),
        ensures
            r == self.int_at(a),
    {
        match &self.heap[a].structure {
            PyObjectStructure::Instance { builtin: Some(BuiltInTypeData::Int(i)) } => Some(*i),
            _ => None,
        }
    }

    /// The text of the string at `a`.
    pub fn text_value(&self, a: MemoryAddress) -> (r: Option<String>)
        requires
            self.valid(a),
        ensures
            match r {
                Some(text) => self.text_at(a) == Some(text@),
                None => self.text_at(a) is None,
            },
    {
        match &self.heap[a].structure {
            PyObjectStructure::Instance { builtin: Some(BuiltInTypeData::String(s)) } => Some(
                s.clone(),
            ),
            _ => None,
        }
    }

    /// The singleton for `holds`.
    pub fn truth_value(&self, holds: bool) -> (r: MemoryAddress)
        requires
            self.wf(),
        ensures
            self.valid(r),
            r == if holds {
                self.builtin_type_addrs.true_val
            } else {
                self.builtin_type_addrs.false_val
            },
    {
        if holds {
            self.builtin_type_addrs.true_val
        } else {
            self.builtin_type_addrs.false_val
        }
    }

    /// Raises a `TypeError` that carries `message`.
    pub fn type_error(&mut self, message: &str) -> (r: MemoryAddress)
        requires
            old(self).wf(),
        ensures
            old(self).after_call(*final(self)),
            final(self).valid(r),
            old(self).raises(*final(self), old(self).builtin_type_addrs.type_err, r, message@),
    {
        self.raise_new(self.builtin_type_addrs.type_err, message.to_string())
    }

    /// A new integer.
    pub fn new_int(&mut self, value: i128) -> (r: MemoryAddress)
        requires
            old(self).wf(),
        ensures
            old(self).after_call(*final(self)),
            old(self).grown_to(*final(self)),
            r == old(self).heap.len(),
            final(self).heap.len() == old(self).heap.len() + 1,
            final(self).int_at(r) == Some(value),
            final(self).heap[r as int].type_addr == old(self).builtin_type_addrs.int,
    {
        self.allocate_type_byaddr_raw(self.builtin_type_addrs.int, BuiltInTypeData::Int(value))
    }

    /// A new string.
    pub fn new_string(&mut self, text: String) -> (r: MemoryAddress)
        requires
            old(self).wf(),
        ensures
            old(self).after_call(*final(self)),
            old(self).grown_to(*final(self)),
            r == old(self).heap.len(),
            final(self).heap.len() == old(self).heap.len() + 1,
            final(self).text_at(r) == Some(text@),
            final(self).heap[r as int].type_addr == old(self).builtin_type_addrs.string,
    {
        self.allocate_type_byaddr_raw(self.builtin_type_addrs.string, BuiltInTypeData::String(text))
    }
}

impl VM {
    /// Adds `values` at the end of the list at `list`.
    pub fn list_extend(&mut self, list: MemoryAddress, values: Vec<MemoryAddress>)
        requires
            old(self).wf(),
            old(self).valid(list),
            old(self).list_at(list) is Some,
            all_below(values@, old(self).heap.len() as int),
        ensures
            final(self).wf(),
            old(self).after_call(*final(self)),
            old(self).same_but_heap(*final(self)),
            final(self).heap.len() == old(self).heap.len(),
            final(self).list_at(list) == Some(old(self).list_at(list).unwrap() + values@),
            final(self).heap[list as int].type_addr == old(self).heap[list as int].type_addr,
            final(self).heap[list as int].attributes == old(self).heap[list as int].attributes,
            forall|b: int|
                0 <= b < old(self).heap.len() && b != list ==> final(self).heap[b] == old(self).heap[b],
    {
        let mut values = values;
        assert(self.heap[list as int].closed(self.heap.len() as int));
        match &mut self.heap[list].structure {
            PyObjectStructure::Instance { builtin: Some(BuiltInTypeData::List(items)) } => {
                items.append(&mut values);
            },
            _ => {},
        }
        proof {
            let object = self.heap[list as int];
            assert(self.heap@ =~= old(self).heap@.update(list as int, object));
            crate::runtime::vm::lemma_heap_update(old(self).heap@, list as int, object);
            crate::runtime::vm::lemma_wf_evolves(*old(self), *self);
        }
    }
}

impl CallParams {
    /// Whether the call is a call of a method on a receiver with `count`
    /// arguments.
    pub open spec fn is_method_call(self, count: int) -> bool {
        self.bound_pyobj is Some && self.params.len() == count
    }

    /// Whether these are the arguments `args` of a call on the receiver
    /// `receiver`, if one is given.
    pub open spec fn carries(self, receiver: Option<MemoryAddress>, args: Seq<MemoryAddress>) -> bool {
        self.bound_pyobj == receiver && self.params@ == args
    }

    /// The receiver of the method call.
    pub open spec fn receiver(self) -> MemoryAddress
        recommends
            self.bound_pyobj is Some,
    {
        self.bound_pyobj.unwrap()
    }

    /// The receiver, if the call is a call of a method with `count`
    /// arguments.
    pub fn method_receiver(&self, count: usize) -> (r: Option<MemoryAddress>)
        ensures
            match r {
                Some(receiver) => self.is_method_call(count as int) && receiver == self.receiver(),
                None => !self.is_method_call(count as int),
            },
    {
        match self.bound_pyobj {
            Some(receiver) => if self.params.len() == count {
                Some(receiver)
            } else {
                None
            },
            None => None,
        }
    }
}

/// What a call of the native function `function` leaves: the result `r`
/// and the machine `after` of a call with `params` on the machine
/// `before`. What a function of the host leaves is up to the host.
pub open spec fn native_outcome(
    function: NativeFunction,
    before: VM,
    params: CallParams,
    r: MemoryAddress,
    after: VM,
) -> bool
    decreases before.steps_left, 33nat,
{
    match function {
        NativeFunction::ListConcat => list_type::concat_outcome(before, params, r, after),
        NativeFunction::ListExtend => list_type::extend_outcome(before, params, r, after),
        NativeFunction::ListAppend => list_type::append_outcome(before, params, r, after),
        NativeFunction::ListEquals => list_type::equals_outcome(before, params, r, after),
        NativeFunction::ListNotEquals => list_type::not_equals_outcome(before, params, r, after),
        NativeFunction::ListRepr => list_type::list_text_outcome(before, params, ","@, r, after),
        NativeFunction::ListStr => list_type::list_text_outcome(before, params, ", "@, r, after),
        NativeFunction::ListLen => list_type::len_outcome(before, params, r, after),
        NativeFunction::ListGetItem => list_type::getitem_outcome(before, params, r, after),
        NativeFunction::ListIter => list_type::iter_outcome(before, params, r, after),
        NativeFunction::ListIteratorNext => list_type::next_outcome(before, params, r, after),
        NativeFunction::CodeBytecode => code_object::get_bytecode_outcome(before, params, r, after),
        NativeFunction::IntBinary(op) => int_type::int_binary_outcome(before, params, op, r, after),
        NativeFunction::IntNegate => int_type::int_negate_outcome(before, params, r, after),
        NativeFunction::IntPositive => int_type::int_positive_outcome(before, params, r, after),
        NativeFunction::IntRepr => int_type::int_repr_outcome(before, params, r, after),
        NativeFunction::BoolBinary(op) => bool_type::bool_binary_outcome(
            before,
            params,
            op,
            r,
            after,
        ),
        NativeFunction::BoolNot => bool_type::bool_not_outcome(before, params, r, after),
        NativeFunction::BoolRepr => bool_type::bool_repr_outcome(before, params, r, after),
        NativeFunction::StringConcat => string_type::string_concat_outcome(before, params, r, after),
        NativeFunction::StringEquals => string_type::string_equals_outcome(
            before,
            params,
            false,
            r,
            after,
        ),
        NativeFunction::StringNotEquals => string_type::string_equals_outcome(
            before,
            params,
            true,
            r,
            after,
        ),
        NativeFunction::StringRepr => string_type::string_repr_outcome(before, params, r, after),
        NativeFunction::StringStr => string_type::string_str_outcome(before, params, r, after),
        NativeFunction::StringLen => string_type::string_len_outcome(before, params, r, after),
        NativeFunction::NoneRepr => bool_type::none_repr_outcome(before, params, r, after),
        NativeFunction::External(_) => true,
    }
}

/// Runs the native function `function` on `params`.
pub fn call_native<H: NativeHost>(
    vm: &mut VM,
    host: &H,
    function: NativeFunction,
    params: CallParams,
) -> (r: MemoryAddress)
    requires
        old(vm).wf(),
        params.valid_in(*old(vm)),
    ensures
        old(vm).after_call(*final(vm)),
        final(vm).valid(r),
        native_outcome(function, *old(vm), params, r, *final(vm)),
    decreases old(vm).steps_left, 7nat,
{
    match function {
        NativeFunction::ListConcat => list_type::concat(vm, params),
        NativeFunction::ListExtend => list_type::extend(vm, params),
        NativeFunction::ListAppend => list_type::append(vm, params),
        NativeFunction::ListEquals => list_type::equals(vm, host, params),
        NativeFunction::ListNotEquals => list_type::not_equals(vm, host, params),
        NativeFunction::ListRepr => list_type::repr(vm, host, params),
        NativeFunction::ListStr => list_type::to_str(vm, host, params),
        NativeFunction::ListLen => list_type::len(vm, params),
        NativeFunction::ListGetItem => list_type::getitem(vm, params),
        NativeFunction::ListIter => list_type::iter(vm, params),
        NativeFunction::ListIteratorNext => list_type::next(vm, params),
        NativeFunction::CodeBytecode => code_object::get_bytecode(vm, params),
        NativeFunction::IntBinary(op) => int_type::int_binary(vm, params, op),
        NativeFunction::IntNegate => int_type::int_negate(vm, params),
        NativeFunction::IntPositive => int_type::int_positive(vm, params),
        NativeFunction::IntRepr => int_type::int_repr(vm, params),
        NativeFunction::BoolBinary(op) => bool_type::bool_binary(vm, params, op),
        NativeFunction::BoolNot => bool_type::bool_not(vm, params),
        NativeFunction::BoolRepr => bool_type::bool_repr(vm, params),
        NativeFunction::StringConcat => string_type::string_concat(vm, params),
        NativeFunction::StringEquals => string_type::string_equals(vm, params, false),
        NativeFunction::StringNotEquals => string_type::string_equals(vm, params, true),
        NativeFunction::StringRepr => string_type::string_repr(vm, params),
        NativeFunction::StringStr => string_type::string_str(vm, params),
        NativeFunction::StringLen => string_type::string_len(vm, params),
        NativeFunction::NoneRepr => bool_type::none_repr(vm, params),
        NativeFunction::External(id) => host.call_external(id, vm, params),
    }
}

} // verus!
