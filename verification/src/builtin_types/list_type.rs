//! The list type.

use vstd::prelude::*;
use crate::builtin_types::registry::add_native_method;
use crate::builtin_types::registry::has_native;
use crate::runtime::datamodel::lemma_evolves_trans;
use crate::runtime::datamodel::BuiltInTypeData;
use crate::runtime::datamodel::CallParams;
use crate::runtime::datamodel::NativeFunction;
use crate::runtime::datamodel::PyObjectStructure;
use crate::runtime::interpreter::call_method;
use crate::runtime::interpreter::method_outcome;
use crate::runtime::names::MemoryAddress;
use crate::runtime::natives::NativeHost;
use crate::runtime::opcodes::list_items;
use crate::runtime::vm::BuiltinTypeAddresses;
use crate::runtime::vm::BUILTIN_MODULE;
use crate::runtime::vm::VM;
use crate::text::bracketed;
use crate::text::join_bracketed;

verus! {

/// The items of the receiver and of the argument of a call of a method
/// with one argument, if both are lists.
pub open spec fn two_lists(vm: VM, params: CallParams) -> Option<
    (Seq<MemoryAddress>, Seq<MemoryAddress>),
> {
    if params.is_method_call(1) {
        match (vm.list_at(params.receiver()), vm.list_at(params.params[0])) {
            (Some(this), Some(other)) => Some((this, other)),
            _ => None,
        }
    } else {
        None
    }
}

/// The items of the receiver of a call of a method with `count`
/// arguments, if it is a list.
pub open spec fn receiver_list(vm: VM, params: CallParams, count: int) -> Option<Seq<MemoryAddress>> {
    if params.is_method_call(count) {
        vm.list_at(params.receiver())
    } else {
        None
    }
}

/// What `list.__add__` leaves: the result `r` and the machine `after` of a
/// call with `params` on the machine `before`.
pub open spec fn concat_outcome(
    before: VM,
    params: CallParams,
    r: MemoryAddress,
    after: VM,
) -> bool {
    &&& match two_lists(before, params) {
        Some((this, other)) => {
            &&& r == before.heap.len()
            &&& before.grown_to(after)
            &&& after.heap.len() == before.heap.len() + 1
            &&& after.list_at(r) == Some(this + other)
            &&& after.heap[r as int].type_addr == before.builtin_type_addrs.list
        },
        None => before.raises(after, before.builtin_type_addrs.type_err, r, "can only concatenate list to list"@),
    }
}

/// `list.__add__`: a new list of the receiver's items followed by the
/// argument's. Raises a `TypeError` unless both are lists.
pub fn concat(vm: &mut VM, params: CallParams) -> (r: MemoryAddress)
    requires
        old(vm).wf(),
        params.valid_in(*old(vm)),
    ensures
        old(vm).after_call(*final(vm)),
        final(vm).valid(r),
        concat_outcome(*old(vm), params, r, *final(vm)),
{
    let receiver = match params.method_receiver(1) {
        Some(receiver) => receiver,
        None => {
            return vm.type_error("can only concatenate list to list");
        },
    };
    let other = params.params[0];
    match (list_items(vm, receiver), list_items(vm, other)) {
        (Some(this), Some(that)) => {
            let mut result = this;
            let mut rest = that;
            result.append(&mut rest);
            vm.allocate_type_byaddr_raw(vm.builtin_type_addrs.list, BuiltInTypeData::List(result))
        },
        _ => vm.type_error("can only concatenate list to list"),
    }
}

/// What `list.extend` leaves: the result `r` and the machine `after` of a
/// call with `params` on the machine `before`.
pub open spec fn extend_outcome(
    before: VM,
    params: CallParams,
    r: MemoryAddress,
    after: VM,
) -> bool {
    &&& match two_lists(before, params) {
        Some((this, other)) => {
            &&& r == params.receiver()
            &&& before.same_but_heap(after)
            &&& after.heap.len() == before.heap.len()
            &&& after.list_at(r) == Some(this + other)
            &&& forall|b: int|
                0 <= b < before.heap.len() && b != r ==> after.heap[b] == before.heap[b]
        },
        None => before.raises(after, before.builtin_type_addrs.type_err, r, "a list can only be extended by a list"@),
    }
}

/// `list.extend`: adds the argument's items at the end of the receiver,
/// which it returns. Raises a `TypeError` unless both are lists.
pub fn extend(vm: &mut VM, params: CallParams) -> (r: MemoryAddress)
    requires
        old(vm).wf(),
        params.valid_in(*old(vm)),
    ensures
        old(vm).after_call(*final(vm)),
        final(vm).valid(r),
        extend_outcome(*old(vm), params, r, *final(vm)),
{
    let receiver = match params.method_receiver(1) {
        Some(receiver) => receiver,
        None => {
            return vm.type_error("a list can only be extended by a list");
        },
    };
    let other = params.params[0];
    if vm.list_length(receiver).is_none() {
        return vm.type_error("a list can only be extended by a list");
    }
    match list_items(vm, other) {
        Some(values) => {
            vm.list_extend(receiver, values);
            receiver
        },
        None => vm.type_error("a list can only be extended by a list"),
    }
}

/// What `list.append` leaves: the result `r` and the machine `after` of a
/// call with `params` on the machine `before`.
pub open spec fn append_outcome(
    before: VM,
    params: CallParams,
    r: MemoryAddress,
    after: VM,
) -> bool {
    &&& match receiver_list(before, params, 1) {
        Some(this) => {
            &&& r == params.receiver()
            &&& before.same_but_heap(after)
            &&& after.heap.len() == before.heap.len()
            &&& after.list_at(r) == Some(this.push(params.params[0]))
            &&& forall|b: int|
                0 <= b < before.heap.len() && b != r ==> after.heap[b] == before.heap[b]
        },
        None => before.raises(after, before.builtin_type_addrs.type_err, r, "list.append takes a list and one argument"@),
    }
}

/// `list.append`: adds the argument at the end of the receiver, which it
/// returns. Raises a `TypeError` unless the receiver is a list.
pub fn append(vm: &mut VM, params: CallParams) -> (r: MemoryAddress)
    requires
        old(vm).wf(),
        params.valid_in(*old(vm)),
    ensures
        old(vm).after_call(*final(vm)),
        final(vm).valid(r),
        append_outcome(*old(vm), params, r, *final(vm)),
{
    let receiver = match params.method_receiver(1) {
        Some(receiver) => receiver,
        None => {
            return vm.type_error("list.append takes a list and one argument");
        },
    };
    if vm.list_length(receiver).is_none() {
        return vm.type_error("list.append takes a list and one argument");
    }
    let mut values: Vec<MemoryAddress> = Vec::new();
    values.push(params.params[0]);
    let ghost this = vm.list_at(receiver).unwrap();
    vm.list_extend(receiver, values);
    assert(this + seq![params.params[0]] =~= this.push(params.params[0]));
    receiver
}

/// What `list.__len__` leaves: the result `r` and the machine `after` of a
/// call with `params` on the machine `before`.
pub open spec fn len_outcome(before: VM, params: CallParams, r: MemoryAddress, after: VM) -> bool {
    &&& match receiver_list(before, params, 0) {
        Some(this) => {
            &&& r == before.heap.len()
            &&& before.grown_to(after)
            &&& after.int_at(r) == Some(this.len() as i128)
            &&& after.heap[r as int].type_addr == before.builtin_type_addrs.int
        },
        None => before.raises(after, before.builtin_type_addrs.type_err, r, "list.__len__ takes a list and no argument"@),
    }
}

/// `list.__len__`: a new integer, the number of items of the receiver.
/// Raises a `TypeError` unless the receiver is a list.
pub fn len(vm: &mut VM, params: CallParams) -> (r: MemoryAddress)
    requires
        old(vm).wf(),
        params.valid_in(*old(vm)),
    ensures
        old(vm).after_call(*final(vm)),
        final(vm).valid(r),
        len_outcome(*old(vm), params, r, *final(vm)),
{
    let receiver = match params.method_receiver(0) {
        Some(receiver) => receiver,
        None => {
            return vm.type_error("list.__len__ takes a list and no argument");
        },
    };
    match vm.list_length(receiver) {
        Some(n) => vm.new_int(n as i128),
        None => vm.type_error("list.__len__ takes a list and no argument"),
    }
}

/// What `list.__getitem__` leaves: the result `r` and the machine `after`
/// of a call with `params` on the machine `before`.
pub open spec fn getitem_outcome(
    before: VM,
    params: CallParams,
    r: MemoryAddress,
    after: VM,
) -> bool {
    &&& match receiver_list(before, params, 1) {
        Some(this) => match before.int_at(params.params[0]) {
            Some(index) => if 0 <= index < this.len() {
                r == this[index as int] && after == before
            } else {
                before.raises(after, before.builtin_type_addrs.index_err, r, "list index out of range"@)
            },
            None => before.raises(after, before.builtin_type_addrs.type_err, r, "list indices must be integers"@),
        },
        None => before.raises(after, before.builtin_type_addrs.type_err, r, "list.__getitem__ takes a list and one argument"@),
    }
}

/// `list.__getitem__`: the item of the receiver at the index given by the
/// argument. Raises an `IndexError` if the index is negative or not below
/// the number of items, and a `TypeError` unless the receiver is a list
/// and the argument an integer.
pub fn getitem(vm: &mut VM, params: CallParams) -> (r: MemoryAddress)
    requires
        old(vm).wf(),
        params.valid_in(*old(vm)),
    ensures
        old(vm).after_call(*final(vm)),
        final(vm).valid(r),
        getitem_outcome(*old(vm), params, r, *final(vm)),
{
    let receiver = match params.method_receiver(1) {
        Some(receiver) => receiver,
        None => {
            return vm.type_error("list.__getitem__ takes a list and one argument");
        },
    };
    let n = match vm.list_length(receiver) {
        Some(n) => n,
        None => {
            return vm.type_error("list.__getitem__ takes a list and one argument");
        },
    };
    let index = match vm.int_value(params.params[0]) {
        Some(index) => index,
        None => {
            return vm.type_error("list indices must be integers");
        },
    };
    if index < 0 || index >= n as i128 {
        return vm.raise_new(
            vm.builtin_type_addrs.index_err,
            "list index out of range".to_string(),
        );
    }
    match vm.list_item(receiver, index as usize) {
        Some(item) => item,
        None => receiver,
    }
}

/// What `list.__iter__` leaves: the result `r` and the machine `after` of
/// a call with `params` on the machine `before`.
pub open spec fn iter_outcome(before: VM, params: CallParams, r: MemoryAddress, after: VM) -> bool {
    &&& match receiver_list(before, params, 0) {
        Some(this) => {
            &&& r == before.heap.len()
            &&& before.grown_to(after)
            &&& after.heap[r as int].structure == (PyObjectStructure::Instance {
                builtin: Some(
                    BuiltInTypeData::ListIterator { list: params.receiver(), position: 0 },
                ),
            })
            &&& after.iteration_at(r) == Some((this, 0int))
            &&& after.heap[r as int].type_addr == before.builtin_type_addrs.list_iterator
        },
        None => before.raises(after, before.builtin_type_addrs.type_err, r, "list.__iter__ takes a list and no argument"@),
    }
}

/// `list.__iter__`: a new iterator that stands in front of the first item
/// of the receiver. Raises a `TypeError` unless the receiver is a list.
pub fn iter(vm: &mut VM, params: CallParams) -> (r: MemoryAddress)
    requires
        old(vm).wf(),
        params.valid_in(*old(vm)),
    ensures
        old(vm).after_call(*final(vm)),
        final(vm).valid(r),
        iter_outcome(*old(vm), params, r, *final(vm)),
{
    let receiver = match params.method_receiver(0) {
        Some(receiver) => receiver,
        None => {
            return vm.type_error("list.__iter__ takes a list and no argument");
        },
    };
    if vm.list_length(receiver).is_none() {
        return vm.type_error("list.__iter__ takes a list and no argument");
    }
    vm.allocate_type_byaddr_raw(
        vm.builtin_type_addrs.list_iterator,
        BuiltInTypeData::ListIterator { list: receiver, position: 0 },
    )
}

/// What the `__next__` of a list iterator leaves: the result `r` and the
/// machine `after` of a call with `params` on the machine `before`.
pub open spec fn next_outcome(before: VM, params: CallParams, r: MemoryAddress, after: VM) -> bool {
    &&& if params.is_method_call(0) && before.is_list_iterator(params.receiver()) {
        match before.iteration_at(params.receiver()) {
            Some((items, position)) if position < items.len() => {
                &&& r == items[position]
                &&& after.iteration_at(params.receiver()) == Some((items, position + 1))
                &&& after.pending_exception == before.pending_exception
            },
            _ => before.raises(after, before.builtin_type_addrs.stop_iteration, r, Seq::<char>::empty()),
        }
    } else {
        before.raises(after, before.builtin_type_addrs.type_err, r, "__next__ takes a list iterator and no argument"@)
    }
}

/// `__next__` of a list iterator: the item that the iterator stands in
/// front of, behind which it stands afterwards. Raises `StopIteration` at
/// the end of the list, and a `TypeError` unless the receiver is a list
/// iterator.
pub fn next(vm: &mut VM, params: CallParams) -> (r: MemoryAddress)
    requires
        old(vm).wf(),
        params.valid_in(*old(vm)),
    ensures
        old(vm).after_call(*final(vm)),
        final(vm).valid(r),
        next_outcome(*old(vm), params, r, *final(vm)),
{
    let receiver = match params.method_receiver(0) {
        Some(receiver) => receiver,
        None => {
            return vm.type_error("__next__ takes a list iterator and no argument");
        },
    };
    let direct = match &vm.heap[receiver].structure {
        PyObjectStructure::Instance { builtin: Some(BuiltInTypeData::ListIterator { .. }) } => true,
        _ => false,
    };
    if !direct {
        return vm.type_error("__next__ takes a list iterator and no argument");
    }
    match vm.advance_list_iterator(receiver) {
        Some(item) => item,
        None => vm.raise_new(vm.builtin_type_addrs.stop_iteration, String::new()),
    }
}

/// What comparing two lists item by item does next.
#[derive(Debug, Clone, Copy, PartialEq, Eq, Structural)]
pub enum ListComparison {
    /// The lists differ.
    Differ,
    /// The lists are equal.
    Same,
    /// The items at this index are to be compared.
    Compare(usize),
}

/// What comparing two lists does once the first `compared` pairs of items
/// were found equal: lists of different lengths differ, lists whose items
/// were all found equal are equal, and otherwise the next pair is compared.
pub open spec fn comparison_step(this_len: int, other_len: int, compared: int) -> ListComparison {
    if this_len != other_len {
        ListComparison::Differ
    } else if compared >= this_len {
        ListComparison::Same
    } else {
        ListComparison::Compare(compared as usize)
    }
}

/// What comparing two lists does once the first `compared` pairs of items
/// were found equal.
pub fn next_comparison(this_len: usize, other_len: usize, compared: usize) -> (r: ListComparison)
    ensures
        r == comparison_step(this_len as int, other_len as int, compared as int),
{
    if this_len != other_len {
        ListComparison::Differ
    } else if compared >= this_len {
        ListComparison::Same
    } else {
        ListComparison::Compare(compared)
    }
}

/// Whether the answer of an item's `__eq__` says that the items are equal:
/// every answer but `False` does; no answer does not.
pub open spec fn says_equal(answer: Option<MemoryAddress>, false_val: MemoryAddress) -> bool {
    answer matches Some(a) && a != false_val
}

/// Whether the answer of an item's `__eq__` says that the items are equal.
pub fn answer_says_equal(answer: Option<MemoryAddress>, false_val: MemoryAddress) -> (r: bool)
    ensures
        r == says_equal(answer, false_val),
{
    match answer {
        Some(a) => a != false_val,
        None => false,
    }
}

/// What `list.__eq__` leaves: the result `r` and the machine `after` of a
/// call with `params` on the machine `before`.
pub open spec fn equals_outcome(
    before: VM,
    params: CallParams,
    r: MemoryAddress,
    after: VM,
) -> bool
    decreases before.steps_left, 32nat,
{
    match receiver_list(before, params, 1) {
        Some(this) => {
            &&& r == before.builtin_type_addrs.true_val || r == before.builtin_type_addrs.false_val
            &&& match before.list_at(params.params[0]) {
                Some(other) => {
                    &&& this.len() != other.len() ==> r == before.builtin_type_addrs.false_val
                        && after == before
                    &&& this == other ==> r == before.builtin_type_addrs.true_val && after
                        == before
                    &&& compared_from(
                        before,
                        params.receiver(),
                        params.params[0],
                        this.len(),
                        other.len(),
                        0,
                        r,
                        after,
                    )
                },
                None => r == before.builtin_type_addrs.false_val && after == before,
            }
        },
        None => before.raises(after, before.builtin_type_addrs.type_err, r, "list.__eq__ takes a list and one argument"@),
    }
}

/// The item `index` of the list at `a`, if there is one.
pub open spec fn item_at(vm: VM, a: MemoryAddress, index: int) -> Option<MemoryAddress> {
    match vm.list_at(a) {
        Some(items) => if 0 <= index < items.len() {
            Some(items[index])
        } else {
            None
        },
        None => None,
    }
}

/// What holds once an item's `__eq__` has answered `answer` and left the
/// machine `asked`: the machine has no more steps left than before and
/// the same well-known addresses, and the answer is an object of it.
pub open spec fn item_asked(before: VM, asked: VM, answer: Option<MemoryAddress>) -> bool {
    asked.steps_left <= before.steps_left && asked.builtin_type_addrs
        == before.builtin_type_addrs && (answer matches Some(a) ==> asked.valid(a))
}

/// What comparing the list at `receiver`, of `count` items, with the
/// list at `other`, of `other_count` items, leaves once the first
/// `compared` pairs of items were found equal.
///
/// Lists of different lengths differ, and lists whose pairs were all
/// found equal are equal. Else the next pair decides: an item equals
/// itself; any other item is asked by its `__eq__`, and the lists differ
/// unless its answer says that the items are equal. A list that has lost
/// the item in the meantime differs.
pub open spec fn compared_from(
    before: VM,
    receiver: MemoryAddress,
    other: MemoryAddress,
    count: nat,
    other_count: nat,
    compared: nat,
    r: MemoryAddress,
    after: VM,
) -> bool
    decreases before.steps_left, 31nat, count - compared,
{
    match comparison_step(count as int, other_count as int, compared as int) {
        ListComparison::Differ => after == before && r == before.builtin_type_addrs.false_val,
        ListComparison::Same => after == before && r == before.builtin_type_addrs.true_val,
        ListComparison::Compare(_) => match (
            item_at(before, receiver, compared as int),
            item_at(before, other, compared as int),
        ) {
            (Some(a), Some(b)) => if a == b {
                compared_from(before, receiver, other, count, other_count, compared + 1, r, after)
            } else {
                exists|answer: Option<MemoryAddress>, asked: VM| #[trigger]
                    item_asked(before, asked, answer) && method_outcome(
                        before,
                        a,
                        "__eq__"@,
                        seq![b],
                        answer,
                        asked,
                    ) && if says_equal(answer, before.builtin_type_addrs.false_val) {
                        compared_from(
                            asked,
                            receiver,
                            other,
                            count,
                            other_count,
                            compared + 1,
                            r,
                            after,
                        )
                    } else {
                        after == asked && r == asked.builtin_type_addrs.false_val
                    }
            },
            _ => after == before && r == before.builtin_type_addrs.false_val,
        },
    }
}

/// `list.__eq__`: whether the receiver and the argument are equal lists.
///
/// A list equals only lists of the same length. The items are compared
/// pair by pair, in order, and the first pair found unequal decides: an
/// item equals itself, and any other item by the answer of its `__eq__`.
/// Raises a `TypeError` unless the receiver is a list.
pub fn equals<H: NativeHost>(vm: &mut VM, host: &H, params: CallParams) -> (r: MemoryAddress)
    requires
        old(vm).wf(),
        params.valid_in(*old(vm)),
    ensures
        old(vm).after_call(*final(vm)),
        final(vm).valid(r),
        equals_outcome(*old(vm), params, r, *final(vm)),
    decreases old(vm).steps_left, 5nat,
{
    let receiver = match params.method_receiver(1) {
        Some(receiver) => receiver,
        None => {
            return vm.type_error("list.__eq__ takes a list and one argument");
        },
    };
    let other = params.params[0];
    let count = match vm.list_length(receiver) {
        Some(n) => n,
        None => {
            return vm.type_error("list.__eq__ takes a list and one argument");
        },
    };
    let other_count = match vm.list_length(other) {
        Some(n) => n,
        None => {
            return vm.truth_value(false);
        },
    };
    let ghost this = vm.list_at(receiver).unwrap();
    let ghost that = vm.list_at(other).unwrap();
    let false_val = vm.builtin_type_addrs.false_val;
    let mut i: usize = 0;
    loop
        invariant
            old(vm).after_call(*vm),
            vm.valid(receiver),
            vm.valid(other),
            i <= count,
            false_val == old(vm).builtin_type_addrs.false_val,
            receiver == params.receiver(),
            other == params.params[0],
            receiver_list(*old(vm), params, 1) == Some(this),
            old(vm).list_at(other) == Some(that),
            count == this.len(),
            other_count == that.len(),
            this == that || count != other_count ==> *vm == *old(vm),
            forall|r: MemoryAddress, after: VM| #[trigger]
                compared_from(
                    *vm,
                    receiver,
                    other,
                    count as nat,
                    other_count as nat,
                    i as nat,
                    r,
                    after,
                ) ==> compared_from(
                    *old(vm),
                    receiver,
                    other,
                    count as nat,
                    other_count as nat,
                    0,
                    r,
                    after,
                ),
        decreases count - i,
    {
        let ghost head = *vm;
        match next_comparison(count, other_count, i) {
            ListComparison::Differ => {
                let r = vm.truth_value(false);
                assert(compared_from(
                    head,
                    receiver,
                    other,
                    count as nat,
                    other_count as nat,
                    i as nat,
                    r,
                    *vm,
                ));
                return r;
            },
            ListComparison::Same => {
                let r = vm.truth_value(true);
                assert(compared_from(
                    head,
                    receiver,
                    other,
                    count as nat,
                    other_count as nat,
                    i as nat,
                    r,
                    *vm,
                ));
                return r;
            },
            ListComparison::Compare(index) => {
                let (a, b) = match (vm.list_item(receiver, index), vm.list_item(other, index)) {
                    (Some(a), Some(b)) => (a, b),
                    _ => {
                        let r = vm.truth_value(false);
                        assert(compared_from(
                            head,
                            receiver,
                            other,
                            count as nat,
                            other_count as nat,
                            i as nat,
                            r,
                            *vm,
                        ));
                        return r;
                    },
                };
                assert(item_at(head, receiver, i as int) == Some(a));
                assert(item_at(head, other, i as int) == Some(b));
                let ghost mut said: Option<MemoryAddress> = None;
                if a != b {
                    let mut args: Vec<MemoryAddress> = Vec::new();
                    args.push(b);
                    let ghost asked_with = args@;
                    let answer = call_method(vm, host, a, "__eq__", args);
                    let ghost asked = *vm;
                    proof {
                        lemma_evolves_trans(old(vm).heap@, head.heap@, vm.heap@);
                        assert(asked_with =~= seq![b]);
                        assert(item_asked(head, asked, answer));
                        said = answer;
                    }
                    if !answer_says_equal(answer, false_val) {
                        let r = vm.truth_value(false);
                        assert(compared_from(
                            head,
                            receiver,
                            other,
                            count as nat,
                            other_count as nat,
                            i as nat,
                            r,
                            *vm,
                        ));
                        return r;
                    }
                }
                let ghost answered = *vm;
                i += 1;
                assert forall|r: MemoryAddress, after: VM| #[trigger]
                    compared_from(
                        *vm,
                        receiver,
                        other,
                        count as nat,
                        other_count as nat,
                        i as nat,
                        r,
                        after,
                    ) implies compared_from(
                    *old(vm),
                    receiver,
                    other,
                    count as nat,
                    other_count as nat,
                    0,
                    r,
                    after,
                ) by {
                    if a != b {
                        assert(item_asked(head, answered, said));
                    }
                    assert(compared_from(
                        answered,
                        receiver,
                        other,
                        count as nat,
                        other_count as nat,
                        ((i - 1) + 1) as nat,
                        r,
                        after,
                    ));
                    assert(compared_from(
                        head,
                        receiver,
                        other,
                        count as nat,
                        other_count as nat,
                        (i - 1) as nat,
                        r,
                        after,
                    ));
                }
            },
        }
    }
}

/// What `__neq__` answers to the answer of `__eq__`: `True` to `False`,
/// and `False` to every other answer and to none.
pub fn negated_answer(vm: &VM, answer: Option<MemoryAddress>) -> (r: MemoryAddress)
    requires
        vm.wf(),
    ensures
        vm.valid(r),
        r == negation(*vm, answer),
{
    match answer {
        Some(a) => vm.truth_value(a == vm.builtin_type_addrs.false_val),
        None => vm.truth_value(false),
    }
}

/// What `list.__neq__` leaves: the result `r` and the machine `after` of a
/// call with `params` on the machine `before`.
pub open spec fn not_equals_outcome(
    before: VM,
    params: CallParams,
    r: MemoryAddress,
    after: VM,
) -> bool
    decreases before.steps_left, 32nat,
{
    if params.is_method_call(1) {
        exists|answer: Option<MemoryAddress>|
            r == #[trigger] negation(before, answer) && method_outcome(
                before,
                params.receiver(),
                "__eq__"@,
                seq![params.params[0]],
                answer,
                after,
            )
    } else {
        before.raises(after, before.builtin_type_addrs.type_err, r, "list.__neq__ takes a list and one argument"@)
    }
}

/// The opposite of the answer of an `__eq__`: `True` where it answered
/// `False`, and `False` where it answered anything else or nothing.
pub open spec fn negation(vm: VM, answer: Option<MemoryAddress>) -> MemoryAddress {
    if answer == Some(vm.builtin_type_addrs.false_val) {
        vm.builtin_type_addrs.true_val
    } else {
        vm.builtin_type_addrs.false_val
    }
}

/// `list.__neq__`: the opposite of what the receiver's `__eq__` answers
/// to the argument. Raises a `TypeError` unless it is called on a receiver
/// with one argument.
pub fn not_equals<H: NativeHost>(vm: &mut VM, host: &H, params: CallParams) -> (r: MemoryAddress)
    requires
        old(vm).wf(),
        params.valid_in(*old(vm)),
    ensures
        old(vm).after_call(*final(vm)),
        final(vm).valid(r),
        not_equals_outcome(*old(vm), params, r, *final(vm)),
    decreases old(vm).steps_left, 5nat,
{
    let receiver = match params.method_receiver(1) {
        Some(receiver) => receiver,
        None => {
            return vm.type_error("list.__neq__ takes a list and one argument");
        },
    };
    let mut args: Vec<MemoryAddress> = Vec::new();
    args.push(params.params[0]);
    let ghost asked = args@;
    let answer = call_method(vm, host, receiver, "__eq__", args);
    let r = negated_answer(vm, answer);
    proof {
        assert(asked =~= seq![params.params[0]]);
        assert(r == negation(*old(vm), answer));
    }
    r
}

/// What the text of a list leaves: the result `r` and the machine
/// `after` of a call with `params` on the machine `before`, with
/// `separator` between the items.
pub open spec fn list_text_outcome(
    before: VM,
    params: CallParams,
    separator: Seq<char>,
    r: MemoryAddress,
    after: VM,
) -> bool
    decreases before.steps_left, 32nat,
{
    match receiver_list(before, params, 0) {
        Some(this) => {
            &&& texts_from(
                before,
                params.receiver(),
                this.len(),
                0,
                Seq::empty(),
                separator,
                r,
                after,
            )
            &&& this.len() == 0 ==> after.text_at(r) == Some(seq!['[', ']']) && before.grown_to(
                after,
            )
        },
        None => before.raises(after, before.builtin_type_addrs.type_err, r, "the text of a list takes a list and no argument"@),
    }
}

/// What making the text of the list at `receiver`, of `count` items,
/// leaves once the texts `parts` of its first `made` items are there.
///
/// With all texts there, the result is a new string: the texts with
/// `separator` between each two, in square brackets. Else the next item
/// is asked by its `__repr__` for its text, which must be a string: a
/// `TypeError` is raised if it is not, and if the list has lost the item
/// in the meantime. Without an answer the making ends, and the list
/// itself is handed back.
pub open spec fn texts_from(
    before: VM,
    receiver: MemoryAddress,
    count: nat,
    made: nat,
    parts: Seq<Seq<char>>,
    separator: Seq<char>,
    r: MemoryAddress,
    after: VM,
) -> bool
    decreases before.steps_left, 31nat, count - made,
{
    if made >= count {
        &&& r == before.heap.len()
        &&& before.grown_to(after)
        &&& after.heap.len() == before.heap.len() + 1
        &&& after.text_at(r) == Some(bracketed(parts, separator))
        &&& after.heap[r as int].type_addr == before.builtin_type_addrs.string
    } else {
        match item_at(before, receiver, made as int) {
            None => before.raises(after, before.builtin_type_addrs.type_err, r, "the list has changed while its text was made"@),
            Some(item) => exists|answer: Option<MemoryAddress>, asked: VM| #[trigger]
                item_asked(before, asked, answer) && method_outcome(
                    before,
                    item,
                    "__repr__"@,
                    Seq::<MemoryAddress>::empty(),
                    answer,
                    asked,
                ) && match answer {
                    None => r == receiver && after == asked,
                    Some(a) => match asked.text_at(a) {
                        Some(text) => texts_from(
                            asked,
                            receiver,
                            count,
                            made + 1,
                            parts.push(text),
                            separator,
                            r,
                            after,
                        ),
                        None => asked.raises(after, asked.builtin_type_addrs.type_err, r, "__repr__ must answer a string"@),
                    },
                },
        }
    }
}

/// The text of a list: what the `__repr__` of each item answers, with
/// `separator` between each two, in square brackets.
///
/// Raises a `TypeError` unless the receiver is a list, and if an item's
/// `__repr__` answers something other than a string.
pub fn list_text<H: NativeHost>(vm: &mut VM, host: &H, params: CallParams, separator: &str) -> (r:
    MemoryAddress)
    requires
        old(vm).wf(),
        params.valid_in(*old(vm)),
    ensures
        old(vm).after_call(*final(vm)),
        final(vm).valid(r),
        list_text_outcome(*old(vm), params, separator@, r, *final(vm)),
    decreases old(vm).steps_left, 5nat,
{
    let receiver = match params.method_receiver(0) {
        Some(receiver) => receiver,
        None => {
            return vm.type_error("the text of a list takes a list and no argument");
        },
    };
    let count = match vm.list_length(receiver) {
        Some(n) => n,
        None => {
            return vm.type_error("the text of a list takes a list and no argument");
        },
    };
    let mut parts: Vec<String> = Vec::new();
    let mut i: usize = 0;
    assert(parts.deep_view() =~= Seq::<Seq<char>>::empty());
    while i < count
        invariant
            old(vm).after_call(*vm),
            vm.valid(receiver),
            receiver == params.receiver(),
            receiver_list(*old(vm), params, 0) is Some,
            count == receiver_list(*old(vm), params, 0).unwrap().len(),
            i <= count,
            parts.len() == i,
            i == 0 ==> *vm == *old(vm),
            forall|r: MemoryAddress, after: VM| #[trigger]
                texts_from(
                    *vm,
                    receiver,
                    count as nat,
                    i as nat,
                    parts.deep_view(),
                    separator@,
                    r,
                    after,
                ) ==> texts_from(
                    *old(vm),
                    receiver,
                    count as nat,
                    0,
                    Seq::empty(),
                    separator@,
                    r,
                    after,
                ),
        decreases count - i,
    {
        let ghost head = *vm;
        let ghost texts = parts.deep_view();
        let item = match vm.list_item(receiver, i) {
            Some(item) => item,
            None => {
                let r = vm.type_error("the list has changed while its text was made");
                assert(texts_from(
                    head,
                    receiver,
                    count as nat,
                    i as nat,
                    texts,
                    separator@,
                    r,
                    *vm,
                ));
                return r;
            },
        };
        assert(item_at(head, receiver, i as int) == Some(item));
        let answer = call_method(vm, host, item, "__repr__", Vec::new());
        let ghost asked = *vm;
        proof {
            lemma_evolves_trans(old(vm).heap@, head.heap@, vm.heap@);
            assert(item_asked(head, asked, answer));
        }
        let text = match answer {
            Some(a) => vm.text_value(a),
            None => {
                assert(texts_from(
                    head,
                    receiver,
                    count as nat,
                    i as nat,
                    texts,
                    separator@,
                    receiver,
                    *vm,
                ));
                return receiver;
            },
        };
        match text {
            Some(text) => {
                parts.push(text);
            },
            None => {
                let e = vm.type_error("__repr__ must answer a string");
                proof {
                    lemma_evolves_trans(old(vm).heap@, asked.heap@, vm.heap@);
                    assert(texts_from(
                        head,
                        receiver,
                        count as nat,
                        i as nat,
                        texts,
                        separator@,
                        e,
                        *vm,
                    ));
                }
                return e;
            },
        }
        i += 1;
        assert(parts.deep_view() =~= texts.push(asked.text_at(answer.unwrap()).unwrap()));
        assert forall|r: MemoryAddress, after: VM| #[trigger]
            texts_from(
                *vm,
                receiver,
                count as nat,
                i as nat,
                parts.deep_view(),
                separator@,
                r,
                after,
            ) implies texts_from(
            *old(vm),
            receiver,
            count as nat,
            0,
            Seq::empty(),
            separator@,
            r,
            after,
        ) by {
            assert(item_asked(head, asked, answer));
            assert(texts_from(
                asked,
                receiver,
                count as nat,
                ((i - 1) + 1) as nat,
                texts.push(asked.text_at(answer.unwrap()).unwrap()),
                separator@,
                r,
                after,
            ));
            assert(texts_from(
                head,
                receiver,
                count as nat,
                (i - 1) as nat,
                texts,
                separator@,
                r,
                after,
            ));
        }
    }
    let text = join_bracketed(&parts, separator);
    let ghost mid = *vm;
    let r = vm.new_string(text);
    proof {
        lemma_evolves_trans(old(vm).heap@, mid.heap@, vm.heap@);
        let texts = parts.deep_view();
        assert(vm.text_at(r) == Some(bracketed(texts, separator@)));
        assert(texts_from(mid, receiver, count as nat, i as nat, texts, separator@, r, *vm));
        if count == 0 {
            assert(bracketed(texts, separator@) =~= seq!['[', ']']);
        }
    }
    r
}

/// `list.__repr__`: the text of the list with a comma between the items.
pub fn repr<H: NativeHost>(vm: &mut VM, host: &H, params: CallParams) -> (r: MemoryAddress)
    requires
        old(vm).wf(),
        params.valid_in(*old(vm)),
    ensures
        old(vm).after_call(*final(vm)),
        final(vm).valid(r),
        list_text_outcome(*old(vm), params, ","@, r, *final(vm)),
    decreases old(vm).steps_left, 6nat,
{
    list_text(vm, host, params, ",")
}

/// `list.__str__`: the text of the list with a comma and a space between
/// the items.
pub fn to_str<H: NativeHost>(vm: &mut VM, host: &H, params: CallParams) -> (r: MemoryAddress)
    requires
        old(vm).wf(),
        params.valid_in(*old(vm)),
    ensures
        old(vm).after_call(*final(vm)),
        final(vm).valid(r),
        list_text_outcome(*old(vm), params, ", "@, r, *final(vm)),
    decreases old(vm).steps_left, 6nat,
{
    list_text(vm, host, params, ", ")
}

/// Whether the type at `t` has the methods of lists.
pub open spec fn list_methods(vm: VM, t: MemoryAddress) -> bool {
    &&& has_native(vm, t, "__add__"@, NativeFunction::ListConcat)
    &&& has_native(vm, t, "__eq__"@, NativeFunction::ListEquals)
    &&& has_native(vm, t, "__neq__"@, NativeFunction::ListNotEquals)
    &&& has_native(vm, t, "__repr__"@, NativeFunction::ListRepr)
    &&& has_native(vm, t, "__str__"@, NativeFunction::ListStr)
    &&& has_native(vm, t, "__len__"@, NativeFunction::ListLen)
    &&& has_native(vm, t, "__getitem__"@, NativeFunction::ListGetItem)
    &&& has_native(vm, t, "__iter__"@, NativeFunction::ListIter)
    &&& has_native(vm, t, "append"@, NativeFunction::ListAppend)
    &&& has_native(vm, t, "extend"@, NativeFunction::ListExtend)
}

/// The names of the methods of lists.
pub open spec fn list_method_names() -> Seq<Seq<char>> {
    seq![
        "__add__"@,
        "__eq__"@,
        "__neq__"@,
        "__repr__"@,
        "__str__"@,
        "__len__"@,
        "__getitem__"@,
        "__iter__"@,
        "append"@,
        "extend"@,
    ]
}

/// The names of the methods of lists differ from each other.
pub proof fn lemma_list_method_names_differ()
    ensures
        list_method_names().no_duplicates(),
{
    reveal_strlit("__add__");
    reveal_strlit("__eq__");
    reveal_strlit("__neq__");
    reveal_strlit("__repr__");
    reveal_strlit("__str__");
    reveal_strlit("__len__");
    reveal_strlit("__getitem__");
    reveal_strlit("__iter__");
    reveal_strlit("append");
    reveal_strlit("extend");
    let names = list_method_names();
    assert(names[0].len() == 7 && names[0][2] == 'a');
    assert(names[1].len() == 6);
    assert(names[2].len() == 7 && names[2][2] == 'n');
    assert(names[3].len() == 8 && names[3][2] == 'r');
    assert(names[4].len() == 7 && names[4][2] == 's');
    assert(names[5].len() == 7 && names[5][2] == 'l');
    assert(names[6].len() == 11);
    assert(names[7].len() == 8 && names[7][2] == 'i');
    assert(names[8].len() == 6 && names[8][0] == 'a');
    assert(names[9].len() == 6 && names[9][0] == 'e');
    assert(names[1][0] == '_');
}

/// Makes the list type with its methods, and the type of its iterators
/// with `__next__`, and records both among the well-known addresses.
pub fn register_list_type(runtime: &mut VM) -> (r: MemoryAddress)
    requires
        old(runtime).wf(),
    ensures
        old(runtime).registered_to(*final(runtime)),
        final(runtime).valid(r),
        final(runtime).builtin_type_addrs.list == r,
        final(runtime).heap[r as int].structure matches PyObjectStructure::Type {
            name,
            supertype,
            ..
        } && name@ == "list"@ && supertype is None,
        list_methods(*final(runtime), r),
        has_native(
            *final(runtime),
            final(runtime).builtin_type_addrs.list_iterator,
            "__next__"@,
            NativeFunction::ListIteratorNext,
        ),
        final(runtime).builtin_type_addrs == (BuiltinTypeAddresses {
            list: r,
            list_iterator: final(runtime).builtin_type_addrs.list_iterator,
            ..old(runtime).builtin_type_addrs
        }),
{
    let list_type = runtime.create_type(BUILTIN_MODULE, "list", None);
    let ghost made = *runtime;
    add_list_methods(runtime, list_type);
    let ghost filled = *runtime;
    let iterator_type = runtime.create_type(BUILTIN_MODULE, "list_iterator", None);
    let ghost second = *runtime;
    add_native_method(runtime, iterator_type, "__next__", NativeFunction::ListIteratorNext);
    proof {
        lemma_evolves_trans(old(runtime).heap@, made.heap@, filled.heap@);
        lemma_evolves_trans(old(runtime).heap@, filled.heap@, second.heap@);
        lemma_evolves_trans(old(runtime).heap@, second.heap@, runtime.heap@);
        lemma_kept_methods(filled, *runtime, list_type);
        assert forall|b: int|
            0 <= b < old(runtime).heap.len() && !(old(runtime).heap[b].structure is Module)
            implies runtime.heap[b] == old(runtime).heap[b] by {
            assert(made.heap[b] == old(runtime).heap[b]);
            assert(filled.heap[b] == made.heap[b]);
            assert(second.heap[b] == filled.heap[b]);
        }
    }
    runtime.builtin_type_addrs.list = list_type;
    runtime.builtin_type_addrs.list_iterator = iterator_type;
    list_type
}

/// A type that has the methods of lists still has them when the heap has
/// grown and the type and its methods are as they were.
pub proof fn lemma_kept_methods(before: VM, after: VM, t: MemoryAddress)
    requires
        list_methods(before, t),
        before.heap.len() <= after.heap.len(),
        after.heap[t as int].structure == before.heap[t as int].structure,
        forall|b: int|
            0 <= b < before.heap.len() && before.heap[b].structure is NativeFunction
                ==> after.heap[b].structure == before.heap[b].structure,
    ensures
        list_methods(after, t),
{
}

/// Gives the type at `t` the methods of lists.
fn add_list_methods(runtime: &mut VM, t: MemoryAddress)
    requires
        old(runtime).wf(),
        old(runtime).valid(t),
        old(runtime).heap[t as int].structure is Type,
    ensures
        final(runtime).wf(),
        old(runtime).before(*final(runtime)),
        old(runtime).same_but_heap(*final(runtime)),
        list_methods(*final(runtime), t),
        forall|b: int|
            0 <= b < old(runtime).heap.len() && b != t ==> final(runtime).heap[b] == old(runtime).heap[b],
        final(runtime).heap[t as int].type_addr == old(runtime).heap[t as int].type_addr,
        old(runtime).heap[t as int].structure matches PyObjectStructure::Type {
            name: n0,
            supertype: s0,
            ..
        } && (final(runtime).heap[t as int].structure matches PyObjectStructure::Type {
            name: n1,
            supertype: s1,
            ..
        } && n1 == n0 && s1 == s0),
{
    proof {
        lemma_list_method_names_differ();
    }
    let ghost names = list_method_names();
    assert(names[0] == "__add__"@ && names[1] == "__eq__"@ && names[2] == "__neq__"@ && names[3]
        == "__repr__"@ && names[4] == "__str__"@ && names[5] == "__len__"@ && names[6]
        == "__getitem__"@ && names[7] == "__iter__"@ && names[8] == "append"@ && names[9]
        == "extend"@);
    let ghost s0 = *runtime;
    add_native_method(runtime, t, "__add__", NativeFunction::ListConcat);
    let ghost s1 = *runtime;
    add_native_method(runtime, t, "__eq__", NativeFunction::ListEquals);
    let ghost s2 = *runtime;
    proof {
        lemma_evolves_trans(s0.heap@, s1.heap@, s2.heap@);
        assert(has_native(s2, t, names[0], NativeFunction::ListConcat));
    }
    add_native_method(runtime, t, "__neq__", NativeFunction::ListNotEquals);
    let ghost s3 = *runtime;
    proof {
        lemma_evolves_trans(s0.heap@, s2.heap@, s3.heap@);
        assert(has_native(s3, t, names[0], NativeFunction::ListConcat));
        assert(has_native(s3, t, names[1], NativeFunction::ListEquals));
    }
    add_native_method(runtime, t, "__repr__", NativeFunction::ListRepr);
    let ghost s4 = *runtime;
    proof {
        lemma_evolves_trans(s0.heap@, s3.heap@, s4.heap@);
        assert(has_native(s4, t, names[0], NativeFunction::ListConcat));
        assert(has_native(s4, t, names[1], NativeFunction::ListEquals));
        assert(has_native(s4, t, names[2], NativeFunction::ListNotEquals));
    }
    add_native_method(runtime, t, "__str__", NativeFunction::ListStr);
    let ghost s5 = *runtime;
    proof {
        lemma_evolves_trans(s0.heap@, s4.heap@, s5.heap@);
        assert(has_native(s5, t, names[0], NativeFunction::ListConcat));
        assert(has_native(s5, t, names[1], NativeFunction::ListEquals));
        assert(has_native(s5, t, names[2], NativeFunction::ListNotEquals));
        assert(has_native(s5, t, names[3], NativeFunction::ListRepr));
    }
    add_native_method(runtime, t, "__len__", NativeFunction::ListLen);
    let ghost s6 = *runtime;
    proof {
        lemma_evolves_trans(s0.heap@, s5.heap@, s6.heap@);
        assert(has_native(s6, t, names[0], NativeFunction::ListConcat));
        assert(has_native(s6, t, names[1], NativeFunction::ListEquals));
        assert(has_native(s6, t, names[2], NativeFunction::ListNotEquals));
        assert(has_native(s6, t, names[3], NativeFunction::ListRepr));
        assert(has_native(s6, t, names[4], NativeFunction::ListStr));
    }
    add_native_method(runtime, t, "__getitem__", NativeFunction::ListGetItem);
    let ghost s7 = *runtime;
    proof {
        lemma_evolves_trans(s0.heap@, s6.heap@, s7.heap@);
        assert(has_native(s7, t, names[0], NativeFunction::ListConcat));
        assert(has_native(s7, t, names[1], NativeFunction::ListEquals));
        assert(has_native(s7, t, names[2], NativeFunction::ListNotEquals));
        assert(has_native(s7, t, names[3], NativeFunction::ListRepr));
        assert(has_native(s7, t, names[4], NativeFunction::ListStr));
        assert(has_native(s7, t, names[5], NativeFunction::ListLen));
    }
    add_native_method(runtime, t, "__iter__", NativeFunction::ListIter);
    let ghost s8 = *runtime;
    proof {
        lemma_evolves_trans(s0.heap@, s7.heap@, s8.heap@);
        assert(has_native(s8, t, names[0], NativeFunction::ListConcat));
        assert(has_native(s8, t, names[1], NativeFunction::ListEquals));
        assert(has_native(s8, t, names[2], NativeFunction::ListNotEquals));
        assert(has_native(s8, t, names[3], NativeFunction::ListRepr));
        assert(has_native(s8, t, names[4], NativeFunction::ListStr));
        assert(has_native(s8, t, names[5], NativeFunction::ListLen));
        assert(has_native(s8, t, names[6], NativeFunction::ListGetItem));
    }
    add_native_method(runtime, t, "append", NativeFunction::ListAppend);
    let ghost s9 = *runtime;
    proof {
        lemma_evolves_trans(s0.heap@, s8.heap@, s9.heap@);
        assert(has_native(s9, t, names[0], NativeFunction::ListConcat));
        assert(has_native(s9, t, names[1], NativeFunction::ListEquals));
        assert(has_native(s9, t, names[2], NativeFunction::ListNotEquals));
        assert(has_native(s9, t, names[3], NativeFunction::ListRepr));
        assert(has_native(s9, t, names[4], NativeFunction::ListStr));
        assert(has_native(s9, t, names[5], NativeFunction::ListLen));
        assert(has_native(s9, t, names[6], NativeFunction::ListGetItem));
        assert(has_native(s9, t, names[7], NativeFunction::ListIter));
    }
    add_native_method(runtime, t, "extend", NativeFunction::ListExtend);
    proof {
        lemma_evolves_trans(s0.heap@, s9.heap@, runtime.heap@);
        assert(has_native(*runtime, t, names[0], NativeFunction::ListConcat));
        assert(has_native(*runtime, t, names[1], NativeFunction::ListEquals));
        assert(has_native(*runtime, t, names[2], NativeFunction::ListNotEquals));
        assert(has_native(*runtime, t, names[3], NativeFunction::ListRepr));
        assert(has_native(*runtime, t, names[4], NativeFunction::ListStr));
        assert(has_native(*runtime, t, names[5], NativeFunction::ListLen));
        assert(has_native(*runtime, t, names[6], NativeFunction::ListGetItem));
        assert(has_native(*runtime, t, names[7], NativeFunction::ListIter));
        assert(has_native(*runtime, t, names[8], NativeFunction::ListAppend));
    }
}

/// Lists are compared pair by pair, by index: two lists of the same
/// length of which `compared` pairs were found equal are equal if that is
/// all of them, and else go on with the pair at index `compared`.
pub proof fn lemma_lists_compare_by_index(len: int, compared: int)
    requires
        0 <= compared <= len,
        len <= usize::MAX,
    ensures
        comparison_step(len, len, compared) == if compared == len {
            ListComparison::Same
        } else {
            ListComparison::Compare(compared as usize)
        },
        comparison_step(0, 0, 0) == ListComparison::Same,
{
}

} // verus!
