//! What the answer of `list.__eq__` says of the items: lists are equal
//! exactly if they are as long as each other and every pair of items at
//! one index was found equal.

use vstd::prelude::*;
use crate::builtin_types::list_type::compared_from;
use crate::builtin_types::list_type::comparison_step;
use crate::builtin_types::list_type::equals_outcome;
use crate::builtin_types::list_type::receiver_list;
use crate::builtin_types::list_type::item_asked;
use crate::builtin_types::list_type::item_at;
use crate::builtin_types::list_type::says_equal;
use crate::builtin_types::list_type::ListComparison;
use crate::runtime::datamodel::CallParams;
use crate::runtime::interpreter::method_outcome;
use crate::runtime::names::MemoryAddress;
use crate::runtime::vm::VM;

verus! {

/// Whether every pair of items from the index `compared` on, of the
/// lists at `receiver` and at `other`, of which the first has `count`
/// items, was found equal, which left the machine `after`: an item
/// equals itself, and any other item by the answer of its `__eq__`.
pub open spec fn pairs_equal_from(
    before: VM,
    receiver: MemoryAddress,
    other: MemoryAddress,
    count: nat,
    compared: nat,
    after: VM,
) -> bool
    decreases before.steps_left, 30nat, count - compared,
{
    if compared >= count {
        after == before
    } else {
        match (item_at(before, receiver, compared as int), item_at(before, other, compared as int)) {
            (Some(a), Some(b)) => if a == b {
                pairs_equal_from(before, receiver, other, count, compared + 1, after)
            } else {
                exists|answer: Option<MemoryAddress>, asked: VM| #[trigger]
                    item_asked(before, asked, answer) && method_outcome(
                        before,
                        a,
                        "__eq__"@,
                        seq![b],
                        answer,
                        asked,
                    ) && says_equal(answer, before.builtin_type_addrs.false_val)
                        && pairs_equal_from(asked, receiver, other, count, compared + 1, after)
            },
            _ => false,
        }
    }
}

/// Whether a pair of items from the index `compared` on was found
/// unequal, after every pair in front of it was found equal, which left
/// the machine `after`: the answer of the item's `__eq__` was `False`, or
/// there was none; or a list had lost the item in the meantime.
pub open spec fn pair_differs_from(
    before: VM,
    receiver: MemoryAddress,
    other: MemoryAddress,
    count: nat,
    compared: nat,
    after: VM,
) -> bool
    decreases before.steps_left, 30nat, count - compared,
{
    if compared >= count {
        false
    } else {
        match (item_at(before, receiver, compared as int), item_at(before, other, compared as int)) {
            (Some(a), Some(b)) => if a == b {
                pair_differs_from(before, receiver, other, count, compared + 1, after)
            } else {
                exists|answer: Option<MemoryAddress>, asked: VM| #[trigger]
                    item_asked(before, asked, answer) && method_outcome(
                        before,
                        a,
                        "__eq__"@,
                        seq![b],
                        answer,
                        asked,
                    ) && if says_equal(answer, before.builtin_type_addrs.false_val) {
                        pair_differs_from(asked, receiver, other, count, compared + 1, after)
                    } else {
                        after == asked
                    }
            },
            _ => after == before,
        }
    }
}

/// Lists that `list.__eq__` answers `True` for are as long as each
/// other, and every pair of their items at one index was found equal.
pub proof fn lemma_equal_lists(
    before: VM,
    receiver: MemoryAddress,
    other: MemoryAddress,
    count: nat,
    other_count: nat,
    compared: nat,
    r: MemoryAddress,
    after: VM,
)
    requires
        compared_from(before, receiver, other, count, other_count, compared, r, after),
        r == before.builtin_type_addrs.true_val,
        before.builtin_type_addrs.true_val != before.builtin_type_addrs.false_val,
    ensures
        count == other_count,
        pairs_equal_from(before, receiver, other, count, compared, after),
    decreases count - compared,
{
    match comparison_step(count as int, other_count as int, compared as int) {
        ListComparison::Differ => {},
        ListComparison::Same => {},
        ListComparison::Compare(_) => {
            match (
                item_at(before, receiver, compared as int),
                item_at(before, other, compared as int),
            ) {
                (Some(a), Some(b)) => {
                    if a == b {
                        lemma_equal_lists(
                            before,
                            receiver,
                            other,
                            count,
                            other_count,
                            compared + 1,
                            r,
                            after,
                        );
                    } else {
                        let (answer, asked) = choose|answer: Option<MemoryAddress>, asked: VM| #[trigger]
                            item_asked(before, asked, answer) && method_outcome(
                                before,
                                a,
                                "__eq__"@,
                                seq![b],
                                answer,
                                asked,
                            ) && if says_equal(answer, before.builtin_type_addrs.false_val) {
                                compared_from(
                                    asked,
                                    receiver,
                                    other,
                                    count,
                                    other_count,
                                    compared + 1,
                                    r,
                                    after,
                                )
                            } else {
                                after == asked && r == asked.builtin_type_addrs.false_val
                            };
                        lemma_equal_lists(
                            asked,
                            receiver,
                            other,
                            count,
                            other_count,
                            compared + 1,
                            r,
                            after,
                        );
                        assert(item_asked(before, asked, answer));
                    }
                },
                _ => {},
            }
        },
    }
}

/// Lists that `list.__eq__` does not answer `True` for are answered
/// `False` for: they are not as long as each other, or a pair of their
/// items at one index was found unequal.
pub proof fn lemma_unequal_lists(
    before: VM,
    receiver: MemoryAddress,
    other: MemoryAddress,
    count: nat,
    other_count: nat,
    compared: nat,
    r: MemoryAddress,
    after: VM,
)
    requires
        compared_from(before, receiver, other, count, other_count, compared, r, after),
        r != before.builtin_type_addrs.true_val,
    ensures
        r == before.builtin_type_addrs.false_val,
        count != other_count || pair_differs_from(
            before,
            receiver,
            other,
            count,
            compared,
            after,
        ),
    decreases count - compared,
{
    match comparison_step(count as int, other_count as int, compared as int) {
        ListComparison::Differ => {},
        ListComparison::Same => {},
        ListComparison::Compare(_) => {
            match (
                item_at(before, receiver, compared as int),
                item_at(before, other, compared as int),
            ) {
                (Some(a), Some(b)) => {
                    if a == b {
                        lemma_unequal_lists(
                            before,
                            receiver,
                            other,
                            count,
                            other_count,
                            compared + 1,
                            r,
                            after,
                        );
                    } else {
                        let (answer, asked) = choose|answer: Option<MemoryAddress>, asked: VM| #[trigger]
                            item_asked(before, asked, answer) && method_outcome(
                                before,
                                a,
                                "__eq__"@,
                                seq![b],
                                answer,
                                asked,
                            ) && if says_equal(answer, before.builtin_type_addrs.false_val) {
                                compared_from(
                                    asked,
                                    receiver,
                                    other,
                                    count,
                                    other_count,
                                    compared + 1,
                                    r,
                                    after,
                                )
                            } else {
                                after == asked && r == asked.builtin_type_addrs.false_val
                            };
                        if says_equal(answer, before.builtin_type_addrs.false_val) {
                            lemma_unequal_lists(
                                asked,
                                receiver,
                                other,
                                count,
                                other_count,
                                compared + 1,
                                r,
                                after,
                            );
                        }
                        assert(item_asked(before, asked, answer));
                    }
                },
                _ => {},
            }
        },
    }
}

/// What the answer of `list.__eq__` to a list says: `True` exactly for
/// lists that are as long as each other and whose pairs of items at one
/// index were all found equal, and `False` for lists that are not as
/// long as each other or have a pair that was found unequal.
pub proof fn lemma_list_equality(before: VM, params: CallParams, r: MemoryAddress, after: VM)
    requires
        equals_outcome(before, params, r, after),
        receiver_list(before, params, 1) is Some,
        before.list_at(params.params[0]) is Some,
        before.builtin_type_addrs.true_val != before.builtin_type_addrs.false_val,
    ensures
        ({
            let this = receiver_list(before, params, 1).unwrap();
            let that = before.list_at(params.params[0]).unwrap();
            if r == before.builtin_type_addrs.true_val {
                this.len() == that.len() && pairs_equal_from(
                    before,
                    params.receiver(),
                    params.params[0],
                    this.len(),
                    0,
                    after,
                )
            } else {
                r == before.builtin_type_addrs.false_val && (this.len() != that.len()
                    || pair_differs_from(
                    before,
                    params.receiver(),
                    params.params[0],
                    this.len(),
                    0,
                    after,
                ))
            }
        }),
{
    let this = receiver_list(before, params, 1).unwrap();
    let that = before.list_at(params.params[0]).unwrap();
    if r == before.builtin_type_addrs.true_val {
        lemma_equal_lists(
            before,
            params.receiver(),
            params.params[0],
            this.len(),
            that.len(),
            0,
            r,
            after,
        );
    } else {
        lemma_unequal_lists(
            before,
            params.receiver(),
            params.params[0],
            this.len(),
            that.len(),
            0,
            r,
            after,
        );
    }
}

} // verus!
