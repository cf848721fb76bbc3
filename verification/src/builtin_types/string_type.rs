//! The string type.

use vstd::prelude::*;
use crate::runtime::datamodel::NativeFunction;
use crate::runtime::datamodel::CallParams;
use crate::runtime::names::MemoryAddress;
use crate::runtime::vm::VM;
use crate::builtin_types::int_type::scalars_equal;
use crate::text::quote;
use crate::text::quoted;

verus! {

/// The texts of the receiver and of the argument of a call of a method
/// with one argument, if both are strings.
pub open spec fn two_texts(vm: VM, params: CallParams) -> Option<(Seq<char>, Seq<char>)> {
    if params.is_method_call(1) {
        match (vm.text_at(params.receiver()), vm.text_at(params.params[0])) {
            (Some(a), Some(b)) => Some((a, b)),
            _ => None,
        }
    } else {
        None
    }
}

/// The text of the receiver of a call of a method without arguments, if
/// it is a string.
pub open spec fn receiver_text(vm: VM, params: CallParams) -> Option<Seq<char>> {
    if params.is_method_call(0) {
        vm.text_at(params.receiver())
    } else {
        None
    }
}

/// What `str.__add__` leaves: the result `r` and the machine `after` of a
/// call with `params` on the machine `before`.
pub open spec fn string_concat_outcome(
    before: VM,
    params: CallParams,
    r: MemoryAddress,
    after: VM,
) -> bool {
    &&& match two_texts(before, params) {
        Some((a, b)) => {
            &&& r == before.heap.len()
            &&& before.grown_to(after)
            &&& after.text_at(r) == Some(a + b)
            &&& after.heap[r as int].type_addr == before.builtin_type_addrs.string
        },
        None => before.raises(after, before.builtin_type_addrs.type_err, r, "can only concatenate str to str"@),
    }
}

/// `str.__add__`: a new string, the receiver's text followed by the
/// argument's. Raises a `TypeError` unless both are strings.
pub fn string_concat(vm: &mut VM, params: CallParams) -> (r: MemoryAddress)
    requires
        old(vm).wf(),
        params.valid_in(*old(vm)),
    ensures
        old(vm).after_call(*final(vm)),
        final(vm).valid(r),
        string_concat_outcome(*old(vm), params, r, *final(vm)),
{
    let receiver = match params.method_receiver(1) {
        Some(receiver) => receiver,
        None => {
            return vm.type_error("can only concatenate str to str");
        },
    };
    match (vm.text_value(receiver), vm.text_value(params.params[0])) {
        (Some(a), Some(b)) => vm.new_string(a.concat(b.as_str())),
        _ => vm.type_error("can only concatenate str to str"),
    }
}

/// What `str.__eq__`, or `str.__neq__` if `negate`, leaves: the result `r`
/// and the machine `after` of a call with `params` on the machine
/// `before`.
pub open spec fn string_equals_outcome(
    before: VM,
    params: CallParams,
    negate: bool,
    r: MemoryAddress,
    after: VM,
) -> bool {
    &&& params.is_method_call(1) && before.text_at(params.receiver()) is Some && !negate ==> r
        == if scalars_equal(before, params.receiver(), params.params[0]) {
        before.builtin_type_addrs.true_val
    } else {
        before.builtin_type_addrs.false_val
    }
    &&& if params.is_method_call(1) && before.text_at(params.receiver()) is Some {
        after == before && r == if (before.text_at(params.receiver()) == before.text_at(params.params[0])) != negate {
            before.builtin_type_addrs.true_val
        } else {
            before.builtin_type_addrs.false_val
        }
    } else {
        before.raises(after, before.builtin_type_addrs.type_err, r, "a comparison of strings takes a string and one argument"@)
    }
}

/// `str.__eq__`, and `str.__neq__` if `negate` is set: whether the
/// receiver and the argument have the same text. A string is unequal to
/// what is no string. Raises a `TypeError` unless the receiver is a string.
pub fn string_equals(vm: &mut VM, params: CallParams, negate: bool) -> (r: MemoryAddress)
    requires
        old(vm).wf(),
        params.valid_in(*old(vm)),
    ensures
        old(vm).after_call(*final(vm)),
        final(vm).valid(r),
        string_equals_outcome(*old(vm), params, negate, r, *final(vm)),
{
    let receiver = match params.method_receiver(1) {
        Some(receiver) => receiver,
        None => {
            return vm.type_error("a comparison of strings takes a string and one argument");
        },
    };
    let a = match vm.text_value(receiver) {
        Some(a) => a,
        None => {
            return vm.type_error("a comparison of strings takes a string and one argument");
        },
    };
    let same = match vm.text_value(params.params[0]) {
        Some(b) => a == b,
        None => false,
    };
    vm.truth_value(same != negate)
}

/// What `str.__repr__` leaves: the result `r` and the machine `after` of a
/// call with `params` on the machine `before`.
pub open spec fn string_repr_outcome(
    before: VM,
    params: CallParams,
    r: MemoryAddress,
    after: VM,
) -> bool {
    &&& match receiver_text(before, params) {
        Some(text) => {
            &&& r == before.heap.len()
            &&& before.grown_to(after)
            &&& after.text_at(r) == Some(quoted(text))
            &&& after.heap[r as int].type_addr == before.builtin_type_addrs.string
        },
        None => before.raises(after, before.builtin_type_addrs.type_err, r, "__repr__ takes a string and no argument"@),
    }
}

/// `str.__repr__`: a new string, the literal that stands for the
/// receiver. Raises a `TypeError` unless the receiver is a string.
pub fn string_repr(vm: &mut VM, params: CallParams) -> (r: MemoryAddress)
    requires
        old(vm).wf(),
        params.valid_in(*old(vm)),
    ensures
        old(vm).after_call(*final(vm)),
        final(vm).valid(r),
        string_repr_outcome(*old(vm), params, r, *final(vm)),
{
    let text = match params.method_receiver(0) {
        Some(receiver) => vm.text_value(receiver),
        None => None,
    };
    match text {
        Some(text) => vm.new_string(quote(text.as_str())),
        None => vm.type_error("__repr__ takes a string and no argument"),
    }
}

/// What `str.__str__` leaves: the result `r` and the machine `after` of a
/// call with `params` on the machine `before`.
pub open spec fn string_str_outcome(
    before: VM,
    params: CallParams,
    r: MemoryAddress,
    after: VM,
) -> bool {
    &&& match receiver_text(before, params) {
        Some(text) => r == params.receiver() && after == before,
        None => before.raises(after, before.builtin_type_addrs.type_err, r, "__str__ takes a string and no argument"@),
    }
}

/// `str.__str__`: the receiver. Raises a `TypeError` unless the receiver
/// is a string.
pub fn string_str(vm: &mut VM, params: CallParams) -> (r: MemoryAddress)
    requires
        old(vm).wf(),
        params.valid_in(*old(vm)),
    ensures
        old(vm).after_call(*final(vm)),
        final(vm).valid(r),
        string_str_outcome(*old(vm), params, r, *final(vm)),
{
    match params.method_receiver(0) {
        Some(receiver) => {
            if vm.text_value(receiver).is_some() {
                return receiver;
            }
        },
        None => {},
    }
    vm.type_error("__str__ takes a string and no argument")
}

/// What `str.__len__` leaves: the result `r` and the machine `after` of a
/// call with `params` on the machine `before`.
pub open spec fn string_len_outcome(
    before: VM,
    params: CallParams,
    r: MemoryAddress,
    after: VM,
) -> bool {
    &&& match receiver_text(before, params) {
        Some(text) => {
            &&& r == before.heap.len()
            &&& before.grown_to(after)
            &&& after.int_at(r) == Some(text.len() as i128)
            &&& after.heap[r as int].type_addr == before.builtin_type_addrs.int
        },
        None => before.raises(after, before.builtin_type_addrs.type_err, r, "__len__ takes a string and no argument"@),
    }
}

/// `str.__len__`: a new integer, the number of characters of the
/// receiver. Raises a `TypeError` unless the receiver is a string.
pub fn string_len(vm: &mut VM, params: CallParams) -> (r: MemoryAddress)
    requires
        old(vm).wf(),
        params.valid_in(*old(vm)),
    ensures
        old(vm).after_call(*final(vm)),
        final(vm).valid(r),
        string_len_outcome(*old(vm), params, r, *final(vm)),
{
    let text = match params.method_receiver(0) {
        Some(receiver) => vm.text_value(receiver),
        None => None,
    };
    match text {
        Some(text) => {
            let n = text.as_str().unicode_len();
            vm.new_int(n as i128)
        },
        None => vm.type_error("__len__ takes a string and no argument"),
    }
}

/// Whether two strings are equal does not depend on their order.
pub proof fn lemma_string_equality_symmetric(vm: VM, a: MemoryAddress, b: MemoryAddress)
    ensures
        (vm.text_at(a) == vm.text_at(b)) == (vm.text_at(b) == vm.text_at(a)),
{
}

/// The names of the methods of strings.
pub open spec fn string_method_names() -> Seq<Seq<char>> {
    seq![
        "__add__"@,
        "__eq__"@,
        "__neq__"@,
        "__repr__"@,
        "__str__"@,
        "__len__"@,
    ]
}

/// The native functions that are the methods of strings, in the order of
/// their names.
pub open spec fn string_method_functions() -> Seq<NativeFunction> {
    seq![
        NativeFunction::StringConcat,
        NativeFunction::StringEquals,
        NativeFunction::StringNotEquals,
        NativeFunction::StringRepr,
        NativeFunction::StringStr,
        NativeFunction::StringLen,
    ]
}

/// The names of the methods of strings differ from each other.
pub proof fn lemma_string_method_names_differ()
    ensures
        string_method_names().no_duplicates(),
{
    reveal_strlit("__add__");
    reveal_strlit("__eq__");
    reveal_strlit("__neq__");
    reveal_strlit("__repr__");
    reveal_strlit("__str__");
    reveal_strlit("__len__");
    let names = string_method_names();
    assert(names[0].len() == 7 && names[0][0] == '_' && names[0][2] == 'a' && names[0][3] == 'd' && names[0][4] == 'd');
    assert(names[1].len() == 6 && names[1][0] == '_' && names[1][2] == 'e' && names[1][3] == 'q' && names[1][4] == '_');
    assert(names[2].len() == 7 && names[2][0] == '_' && names[2][2] == 'n' && names[2][3] == 'e' && names[2][4] == 'q');
    assert(names[3].len() == 8 && names[3][0] == '_' && names[3][2] == 'r' && names[3][3] == 'e' && names[3][4] == 'p');
    assert(names[4].len() == 7 && names[4][0] == '_' && names[4][2] == 's' && names[4][3] == 't' && names[4][4] == 'r');
    assert(names[5].len() == 7 && names[5][0] == '_' && names[5][2] == 'l' && names[5][3] == 'e' && names[5][4] == 'n');
}

} // verus!
