//! The integer type.

use vstd::prelude::*;
use crate::runtime::datamodel::NativeFunction;
use crate::runtime::datamodel::CallParams;
use crate::runtime::datamodel::IntOperation;
use crate::runtime::names::MemoryAddress;
use crate::runtime::vm::VM;
use crate::text::int_text;
use crate::text::int_to_text;

verus! {

/// The remainder of `a` by `b`, which is not 0: the one that is not
/// negative, as `checked_rem_euclid` of the integers gives it; 0 where
/// that gives none, which is the remainder of the least integer by -1.
pub open spec fn remainder(a: i128, b: i128) -> i128 {
    match a.checked_rem_euclid(b) {
        Some(value) => value,
        None => 0,
    }
}

/// Whether the operation divides by zero.
pub open spec fn divides_by_zero(op: IntOperation, b: i128) -> bool {
    op == IntOperation::Modulo && b == 0
}

/// The result of an arithmetic operation, which wraps around at the
/// bounds of the integers; nothing for a comparison, and for a division
/// by zero.
pub open spec fn arithmetic(op: IntOperation, a: i128, b: i128) -> Option<i128> {
    match op {
        IntOperation::Add => Some(a.wrapping_add(b)),
        IntOperation::Subtract => Some(a.wrapping_sub(b)),
        IntOperation::Multiply => Some(a.wrapping_mul(b)),
        IntOperation::Modulo => if b == 0 {
            None
        } else {
            Some(remainder(a, b))
        },
        _ => None,
    }
}

/// The result of a comparison; nothing for an arithmetic operation.
pub open spec fn comparison(op: IntOperation, a: i128, b: i128) -> Option<bool> {
    match op {
        IntOperation::Equals => Some(a == b),
        IntOperation::NotEquals => Some(a != b),
        IntOperation::Less => Some(a < b),
        IntOperation::Greater => Some(a > b),
        IntOperation::LessEquals => Some(a <= b),
        IntOperation::GreaterEquals => Some(a >= b),
        _ => None,
    }
}

/// Whether two objects are equal as scalars: integers, among them the
/// truth values, if they carry the same integer, and strings if they have
/// the same text. It is what `__eq__` answers for a scalar.
pub open spec fn scalars_equal(vm: VM, a: MemoryAddress, b: MemoryAddress) -> bool {
    match (vm.int_at(a), vm.int_at(b)) {
        (Some(x), Some(y)) => x == y,
        _ => match (vm.text_at(a), vm.text_at(b)) {
            (Some(s), Some(t)) => s == t,
            _ => false,
        },
    }
}

/// Whether two scalars are equal does not depend on their order.
pub proof fn lemma_scalar_equality_symmetric(vm: VM, a: MemoryAddress, b: MemoryAddress)
    ensures
        scalars_equal(vm, a, b) == scalars_equal(vm, b, a),
{
}

/// Comparing integers for equality does not depend on their order.
pub proof fn lemma_int_equality_symmetric(a: i128, b: i128)
    ensures
        comparison(IntOperation::Equals, a, b) == comparison(IntOperation::Equals, b, a),
        comparison(IntOperation::NotEquals, a, b) == comparison(IntOperation::NotEquals, b, a),
{
}

/// The integers that the receiver and the argument of a call of a method
/// with one argument carry, if both carry one.
pub open spec fn two_ints(vm: VM, params: CallParams) -> Option<(i128, i128)> {
    if params.is_method_call(1) {
        match (vm.int_at(params.receiver()), vm.int_at(params.params[0])) {
            (Some(a), Some(b)) => Some((a, b)),
            _ => None,
        }
    } else {
        None
    }
}

/// The integer that the receiver of a call of a method without arguments
/// carries, if it carries one.
pub open spec fn receiver_int(vm: VM, params: CallParams) -> Option<i128> {
    if params.is_method_call(0) {
        vm.int_at(params.receiver())
    } else {
        None
    }
}

/// What an operation of an integer with another leaves: the result `r` and
/// the machine `after` of a call with `params` on the machine `before`.
pub open spec fn int_binary_outcome(
    before: VM,
    params: CallParams,
    op: IntOperation,
    r: MemoryAddress,
    after: VM,
) -> bool {
    &&& params.is_method_call(1) && before.int_at(params.receiver()) is Some && op
        == IntOperation::Equals ==> r == if scalars_equal(
        before,
        params.receiver(),
        params.params[0],
    ) {
        before.builtin_type_addrs.true_val
    } else {
        before.builtin_type_addrs.false_val
    }
    &&& match two_ints(before, params) {
        Some((a, b)) => if divides_by_zero(op, b) {
            before.raises(
                after,
                before.builtin_type_addrs.zero_division_err,
                r,
                "integer modulo by zero"@,
            )
        } else {
            match arithmetic(op, a, b) {
            Some(value) => {
                &&& r == before.heap.len()
                &&& before.grown_to(after)
                &&& after.int_at(r) == Some(value)
                &&& after.heap[r as int].type_addr == before.builtin_type_addrs.int
            },
            None => after == before && r == if comparison(op, a, b).unwrap() {
                before.builtin_type_addrs.true_val
            } else {
                before.builtin_type_addrs.false_val
            },
            }
        },
        None => if params.is_method_call(1) && before.int_at(params.receiver()) is Some && (
        op == IntOperation::Equals || op == IntOperation::NotEquals) {
            after == before && r == if op == IntOperation::NotEquals {
                before.builtin_type_addrs.true_val
            } else {
                before.builtin_type_addrs.false_val
            }
        } else {
            before.raises(after, before.builtin_type_addrs.type_err, r, "unsupported operand for an integer operation"@)
        },
    }
}

/// An operation of an integer with another: `__add__`, `__sub__` and
/// `__mul__` make a new integer and wrap around at the bounds; `__mod__`
/// makes the remainder that is not negative, and raises a
/// `ZeroDivisionError` for the remainder by 0; `__eq__`,
/// `__neq__`, `__lt__`, `__gt__`, `__le__` and `__ge__` answer `True` or
/// `False`. An integer is unequal to what is no integer; any other
/// operation with it raises a `TypeError`.
pub fn int_binary(vm: &mut VM, params: CallParams, op: IntOperation) -> (r: MemoryAddress)
    requires
        old(vm).wf(),
        params.valid_in(*old(vm)),
    ensures
        old(vm).after_call(*final(vm)),
        final(vm).valid(r),
        int_binary_outcome(*old(vm), params, op, r, *final(vm)),
{
    let receiver = match params.method_receiver(1) {
        Some(receiver) => receiver,
        None => {
            return vm.type_error("unsupported operand for an integer operation");
        },
    };
    let a = match vm.int_value(receiver) {
        Some(a) => a,
        None => {
            return vm.type_error("unsupported operand for an integer operation");
        },
    };
    let b = match vm.int_value(params.params[0]) {
        Some(b) => b,
        None => {
            return match op {
                IntOperation::Equals => vm.truth_value(false),
                IntOperation::NotEquals => vm.truth_value(true),
                _ => vm.type_error("unsupported operand for an integer operation"),
            };
        },
    };
    match op {
        IntOperation::Add => vm.new_int(a.wrapping_add(b)),
        IntOperation::Subtract => vm.new_int(a.wrapping_sub(b)),
        IntOperation::Multiply => vm.new_int(a.wrapping_mul(b)),
        IntOperation::Modulo => {
            if b == 0 {
                return vm.raise_new(
                    vm.builtin_type_addrs.zero_division_err,
                    "integer modulo by zero".to_string(),
                );
            }
            match a.checked_rem_euclid(b) {
                Some(value) => vm.new_int(value),
                None => vm.new_int(0),
            }
        },
        IntOperation::Equals => vm.truth_value(a == b),
        IntOperation::NotEquals => vm.truth_value(a != b),
        IntOperation::Less => vm.truth_value(a < b),
        IntOperation::Greater => vm.truth_value(a > b),
        IntOperation::LessEquals => vm.truth_value(a <= b),
        IntOperation::GreaterEquals => vm.truth_value(a >= b),
    }
}

/// What `int.__neg__` leaves: the result `r` and the machine `after` of a
/// call with `params` on the machine `before`.
pub open spec fn int_negate_outcome(
    before: VM,
    params: CallParams,
    r: MemoryAddress,
    after: VM,
) -> bool {
    &&& match receiver_int(before, params) {
        Some(a) => {
            &&& r == before.heap.len()
            &&& before.grown_to(after)
            &&& after.int_at(r) == Some(0i128.wrapping_sub(a))
            &&& after.heap[r as int].type_addr == before.builtin_type_addrs.int
        },
        None => before.raises(after, before.builtin_type_addrs.type_err, r, "__neg__ takes an integer and no argument"@),
    }
}

/// `int.__neg__`: a new integer, zero minus the receiver, wrapping around
/// at the bounds. Raises a `TypeError` unless the receiver is an integer.
pub fn int_negate(vm: &mut VM, params: CallParams) -> (r: MemoryAddress)
    requires
        old(vm).wf(),
        params.valid_in(*old(vm)),
    ensures
        old(vm).after_call(*final(vm)),
        final(vm).valid(r),
        int_negate_outcome(*old(vm), params, r, *final(vm)),
{
    let value = match params.method_receiver(0) {
        Some(receiver) => vm.int_value(receiver),
        None => None,
    };
    match value {
        Some(a) => vm.new_int(0i128.wrapping_sub(a)),
        None => vm.type_error("__neg__ takes an integer and no argument"),
    }
}

/// What `int.__pos__` leaves: the result `r` and the machine `after` of a
/// call with `params` on the machine `before`.
pub open spec fn int_positive_outcome(
    before: VM,
    params: CallParams,
    r: MemoryAddress,
    after: VM,
) -> bool {
    &&& match receiver_int(before, params) {
        Some(a) => r == params.receiver() && after == before,
        None => before.raises(after, before.builtin_type_addrs.type_err, r, "__pos__ takes an integer and no argument"@),
    }
}

/// `int.__pos__`: the receiver. Raises a `TypeError` unless the receiver
/// is an integer.
pub fn int_positive(vm: &mut VM, params: CallParams) -> (r: MemoryAddress)
    requires
        old(vm).wf(),
        params.valid_in(*old(vm)),
    ensures
        old(vm).after_call(*final(vm)),
        final(vm).valid(r),
        int_positive_outcome(*old(vm), params, r, *final(vm)),
{
    match params.method_receiver(0) {
        Some(receiver) => {
            if vm.int_value(receiver).is_some() {
                return receiver;
            }
        },
        None => {},
    }
    vm.type_error("__pos__ takes an integer and no argument")
}

/// What `int.__repr__` leaves: the result `r` and the machine `after` of a
/// call with `params` on the machine `before`.
pub open spec fn int_repr_outcome(
    before: VM,
    params: CallParams,
    r: MemoryAddress,
    after: VM,
) -> bool {
    &&& match receiver_int(before, params) {
        Some(a) => {
            &&& r == before.heap.len()
            &&& before.grown_to(after)
            &&& after.text_at(r) == Some(int_text(a as int))
            &&& after.heap[r as int].type_addr == before.builtin_type_addrs.string
        },
        None => before.raises(after, before.builtin_type_addrs.type_err, r, "__repr__ takes an integer and no argument"@),
    }
}

/// `int.__repr__`: a new string, the decimal text of the receiver. Raises
/// a `TypeError` unless the receiver is an integer.
pub fn int_repr(vm: &mut VM, params: CallParams) -> (r: MemoryAddress)
    requires
        old(vm).wf(),
        params.valid_in(*old(vm)),
    ensures
        old(vm).after_call(*final(vm)),
        final(vm).valid(r),
        int_repr_outcome(*old(vm), params, r, *final(vm)),
{
    let value = match params.method_receiver(0) {
        Some(receiver) => vm.int_value(receiver),
        None => None,
    };
    match value {
        Some(a) => vm.new_string(int_to_text(a)),
        None => vm.type_error("__repr__ takes an integer and no argument"),
    }
}

/// The names of the methods of integers.
pub open spec fn int_method_names() -> Seq<Seq<char>> {
    seq![
        "__add__"@,
        "__sub__"@,
        "__mul__"@,
        "__mod__"@,
        "__eq__"@,
        "__neq__"@,
        "__lt__"@,
        "__gt__"@,
        "__le__"@,
        "__ge__"@,
        "__neg__"@,
        "__pos__"@,
        "__repr__"@,
        "__str__"@,
    ]
}

/// The native functions that are the methods of integers, in the order of
/// their names.
pub open spec fn int_method_functions() -> Seq<NativeFunction> {
    seq![
        NativeFunction::IntBinary(IntOperation::Add),
        NativeFunction::IntBinary(IntOperation::Subtract),
        NativeFunction::IntBinary(IntOperation::Multiply),
        NativeFunction::IntBinary(IntOperation::Modulo),
        NativeFunction::IntBinary(IntOperation::Equals),
        NativeFunction::IntBinary(IntOperation::NotEquals),
        NativeFunction::IntBinary(IntOperation::Less),
        NativeFunction::IntBinary(IntOperation::Greater),
        NativeFunction::IntBinary(IntOperation::LessEquals),
        NativeFunction::IntBinary(IntOperation::GreaterEquals),
        NativeFunction::IntNegate,
        NativeFunction::IntPositive,
        NativeFunction::IntRepr,
        NativeFunction::IntRepr,
    ]
}

/// The names of the methods of integers differ from each other.
pub proof fn lemma_int_method_names_differ()
    ensures
        int_method_names().no_duplicates(),
{
    reveal_strlit("__add__");
    reveal_strlit("__sub__");
    reveal_strlit("__mul__");
    reveal_strlit("__mod__");
    reveal_strlit("__eq__");
    reveal_strlit("__neq__");
    reveal_strlit("__lt__");
    reveal_strlit("__gt__");
    reveal_strlit("__le__");
    reveal_strlit("__ge__");
    reveal_strlit("__neg__");
    reveal_strlit("__pos__");
    reveal_strlit("__repr__");
    reveal_strlit("__str__");
    let names = int_method_names();
    assert(names[0].len() == 7 && names[0][0] == '_' && names[0][2] == 'a' && names[0][3] == 'd' && names[0][4] == 'd');
    assert(names[1].len() == 7 && names[1][0] == '_' && names[1][2] == 's' && names[1][3] == 'u' && names[1][4] == 'b');
    assert(names[2].len() == 7 && names[2][0] == '_' && names[2][2] == 'm' && names[2][3] == 'u' && names[2][4] == 'l');
    assert(names[3].len() == 7 && names[3][0] == '_' && names[3][2] == 'm' && names[3][3] == 'o' && names[3][4] == 'd');
    assert(names[4].len() == 6 && names[4][0] == '_' && names[4][2] == 'e' && names[4][3] == 'q' && names[4][4] == '_');
    assert(names[5].len() == 7 && names[5][0] == '_' && names[5][2] == 'n' && names[5][3] == 'e' && names[5][4] == 'q');
    assert(names[6].len() == 6 && names[6][0] == '_' && names[6][2] == 'l' && names[6][3] == 't' && names[6][4] == '_');
    assert(names[7].len() == 6 && names[7][0] == '_' && names[7][2] == 'g' && names[7][3] == 't' && names[7][4] == '_');
    assert(names[8].len() == 6 && names[8][0] == '_' && names[8][2] == 'l' && names[8][3] == 'e' && names[8][4] == '_');
    assert(names[9].len() == 6 && names[9][0] == '_' && names[9][2] == 'g' && names[9][3] == 'e' && names[9][4] == '_');
    assert(names[10].len() == 7 && names[10][0] == '_' && names[10][2] == 'n' && names[10][3] == 'e' && names[10][4] == 'g');
    assert(names[11].len() == 7 && names[11][0] == '_' && names[11][2] == 'p' && names[11][3] == 'o' && names[11][4] == 's');
    assert(names[12].len() == 8 && names[12][0] == '_' && names[12][2] == 'r' && names[12][3] == 'e' && names[12][4] == 'p');
    assert(names[13].len() == 7 && names[13][0] == '_' && names[13][2] == 's' && names[13][3] == 't' && names[13][4] == 'r');
}

} // verus!
