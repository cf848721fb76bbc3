//! The type of the truth values, and the type of `None`.

use vstd::prelude::*;
use crate::runtime::datamodel::NativeFunction;
use crate::runtime::datamodel::BoolOperation;
use crate::runtime::datamodel::CallParams;
use crate::runtime::names::MemoryAddress;
use crate::runtime::vm::VM;

verus! {

/// The result of an operation on two truth values.
pub open spec fn bool_result(op: BoolOperation, a: bool, b: bool) -> bool {
    match op {
        BoolOperation::And => a && b,
        BoolOperation::Or => a || b,
        BoolOperation::Xor => a != b,
    }
}

/// No operation on two truth values depends on their order.
pub proof fn lemma_bool_operations_symmetric(op: BoolOperation, a: bool, b: bool)
    ensures
        bool_result(op, a, b) == bool_result(op, b, a),
{
}

/// What an operation of a truth value with another leaves: the result `r`
/// and the machine `after` of a call with `params` on the machine
/// `before`.
pub open spec fn bool_binary_outcome(
    before: VM,
    params: CallParams,
    op: BoolOperation,
    r: MemoryAddress,
    after: VM,
) -> bool {
    &&& if params.is_method_call(1) {
        after == before && r == if bool_result(
            op,
            before.truthy(params.receiver()),
            before.truthy(params.params[0]),
        ) {
            before.builtin_type_addrs.true_val
        } else {
            before.builtin_type_addrs.false_val
        }
    } else {
        before.raises(after, before.builtin_type_addrs.type_err, r, "an operation on truth values takes two of them"@)
    }
}

/// An operation of a truth value with another object, which counts by
/// what it is: `__and__`, `__or__` and `__xor__` answer `True` or `False`. Raises a `TypeError` unless it is called on a
/// receiver with one argument.
pub fn bool_binary(vm: &mut VM, params: CallParams, op: BoolOperation) -> (r: MemoryAddress)
    requires
        old(vm).wf(),
        params.valid_in(*old(vm)),
    ensures
        old(vm).after_call(*final(vm)),
        final(vm).valid(r),
        bool_binary_outcome(*old(vm), params, op, r, *final(vm)),
{
    let receiver = match params.method_receiver(1) {
        Some(receiver) => receiver,
        None => {
            return vm.type_error("an operation on truth values takes two of them");
        },
    };
    let a = vm.is_truthy(receiver);
    let b = vm.is_truthy(params.params[0]);
    let holds = match op {
        BoolOperation::And => a && b,
        BoolOperation::Or => a || b,
        BoolOperation::Xor => a != b,
    };
    vm.truth_value(holds)
}

/// What `bool.__not__` leaves: the result `r` and the machine `after` of a
/// call with `params` on the machine `before`.
pub open spec fn bool_not_outcome(
    before: VM,
    params: CallParams,
    r: MemoryAddress,
    after: VM,
) -> bool {
    &&& if params.is_method_call(0) {
        after == before && r == if before.truthy(params.receiver()) {
            before.builtin_type_addrs.false_val
        } else {
            before.builtin_type_addrs.true_val
        }
    } else {
        before.raises(after, before.builtin_type_addrs.type_err, r, "__not__ takes a truth value and no argument"@)
    }
}

/// `bool.__not__`: `False` for a receiver that counts as true, `True` for
/// one that does not. Raises a `TypeError` unless it is called on a
/// receiver without arguments.
pub fn bool_not(vm: &mut VM, params: CallParams) -> (r: MemoryAddress)
    requires
        old(vm).wf(),
        params.valid_in(*old(vm)),
    ensures
        old(vm).after_call(*final(vm)),
        final(vm).valid(r),
        bool_not_outcome(*old(vm), params, r, *final(vm)),
{
    match params.method_receiver(0) {
        Some(receiver) => {
            let holds = vm.is_truthy(receiver);
            vm.truth_value(!holds)
        },
        None => vm.type_error("__not__ takes a truth value and no argument"),
    }
}

/// What `bool.__repr__` leaves: the result `r` and the machine `after` of
/// a call with `params` on the machine `before`.
pub open spec fn bool_repr_outcome(
    before: VM,
    params: CallParams,
    r: MemoryAddress,
    after: VM,
) -> bool {
    &&& if params.is_method_call(0) {
        &&& r == before.heap.len()
        &&& before.grown_to(after)
        &&& after.text_at(r) == Some(
            if before.truthy(params.receiver()) {
                "True"@
            } else {
                "False"@
            },
        )
    } else {
        before.raises(after, before.builtin_type_addrs.type_err, r, "__repr__ takes a truth value and no argument"@)
    }
}

/// `bool.__repr__`: a new string, `True` for a receiver that counts as
/// true and `False` for one that does not. Raises a `TypeError` unless it
/// is called on a receiver without arguments.
pub fn bool_repr(vm: &mut VM, params: CallParams) -> (r: MemoryAddress)
    requires
        old(vm).wf(),
        params.valid_in(*old(vm)),
    ensures
        old(vm).after_call(*final(vm)),
        final(vm).valid(r),
        bool_repr_outcome(*old(vm), params, r, *final(vm)),
{
    match params.method_receiver(0) {
        Some(receiver) => {
            let text = if vm.is_truthy(receiver) {
                "True".to_string()
            } else {
                "False".to_string()
            };
            vm.new_string(text)
        },
        None => vm.type_error("__repr__ takes a truth value and no argument"),
    }
}

/// What the `__repr__` of `None` leaves: the result `r` and the machine
/// `after` of a call with `params` on the machine `before`.
pub open spec fn none_repr_outcome(
    before: VM,
    params: CallParams,
    r: MemoryAddress,
    after: VM,
) -> bool {
    &&& if params.is_method_call(0) {
        &&& r == before.heap.len()
        &&& before.grown_to(after)
        &&& after.text_at(r) == Some("None"@)
    } else {
        before.raises(after, before.builtin_type_addrs.type_err, r, "__repr__ takes None and no argument"@)
    }
}

/// `__repr__` of `None`: a new string, `None`. Raises a `TypeError` unless
/// it is called on a receiver without arguments.
pub fn none_repr(vm: &mut VM, params: CallParams) -> (r: MemoryAddress)
    requires
        old(vm).wf(),
        params.valid_in(*old(vm)),
    ensures
        old(vm).after_call(*final(vm)),
        final(vm).valid(r),
        none_repr_outcome(*old(vm), params, r, *final(vm)),
{
    match params.method_receiver(0) {
        Some(_) => vm.new_string("None".to_string()),
        None => vm.type_error("__repr__ takes None and no argument"),
    }
}

/// The names of the methods of truth values.
pub open spec fn bool_method_names() -> Seq<Seq<char>> {
    seq![
        "__and__"@,
        "__or__"@,
        "__xor__"@,
        "__not__"@,
        "__repr__"@,
        "__str__"@,
    ]
}

/// The native functions that are the methods of truth values, in the order of
/// their names.
pub open spec fn bool_method_functions() -> Seq<NativeFunction> {
    seq![
        NativeFunction::BoolBinary(BoolOperation::And),
        NativeFunction::BoolBinary(BoolOperation::Or),
        NativeFunction::BoolBinary(BoolOperation::Xor),
        NativeFunction::BoolNot,
        NativeFunction::BoolRepr,
        NativeFunction::BoolRepr,
    ]
}

/// The names of the methods of truth values differ from each other.
pub proof fn lemma_bool_method_names_differ()
    ensures
        bool_method_names().no_duplicates(),
{
    reveal_strlit("__and__");
    reveal_strlit("__or__");
    reveal_strlit("__xor__");
    reveal_strlit("__not__");
    reveal_strlit("__repr__");
    reveal_strlit("__str__");
    let names = bool_method_names();
    assert(names[0].len() == 7 && names[0][0] == '_' && names[0][2] == 'a' && names[0][3] == 'n' && names[0][4] == 'd');
    assert(names[1].len() == 6 && names[1][0] == '_' && names[1][2] == 'o' && names[1][3] == 'r' && names[1][4] == '_');
    assert(names[2].len() == 7 && names[2][0] == '_' && names[2][2] == 'x' && names[2][3] == 'o' && names[2][4] == 'r');
    assert(names[3].len() == 7 && names[3][0] == '_' && names[3][2] == 'n' && names[3][3] == 'o' && names[3][4] == 't');
    assert(names[4].len() == 8 && names[4][0] == '_' && names[4][2] == 'r' && names[4][3] == 'e' && names[4][4] == 'p');
    assert(names[5].len() == 7 && names[5][0] == '_' && names[5][2] == 's' && names[5][3] == 't' && names[5][4] == 'r');
}

/// The names of the methods of `None`.
pub open spec fn none_method_names() -> Seq<Seq<char>> {
    seq![
        "__repr__"@,
        "__str__"@,
    ]
}

/// The native functions that are the methods of `None`, in the order of
/// their names.
pub open spec fn none_method_functions() -> Seq<NativeFunction> {
    seq![
        NativeFunction::NoneRepr,
        NativeFunction::NoneRepr,
    ]
}

/// The names of the methods of `None` differ from each other.
pub proof fn lemma_none_method_names_differ()
    ensures
        none_method_names().no_duplicates(),
{
    reveal_strlit("__repr__");
    reveal_strlit("__str__");
    let names = none_method_names();
    assert(names[0].len() == 8 && names[0][0] == '_' && names[0][2] == 'r' && names[0][3] == 'e' && names[0][4] == 'p');
    assert(names[1].len() == 7 && names[1][0] == '_' && names[1][2] == 's' && names[1][3] == 't' && names[1][4] == 'r');
}

} // verus!
