//! Lists of integers, truth values and strings: whether two of them are equal does not
//! depend on which of them is asked.

use vstd::prelude::*;
use crate::builtin_types::builtins_ready;
use crate::builtin_types::int_type::int_method_functions;
use crate::builtin_types::int_type::int_method_names;
use crate::builtin_types::int_type::scalars_equal;
use crate::builtin_types::list_type::compared_from;
use crate::builtin_types::list_type::equals_outcome;
use crate::builtin_types::list_type::comparison_step;
use crate::builtin_types::list_type::item_asked;
use crate::builtin_types::list_type::item_at;
use crate::builtin_types::list_type::says_equal;
use crate::builtin_types::list_type::ListComparison;
use crate::builtin_types::bool_type::bool_method_names;
use crate::builtin_types::registry::has_native;
use crate::builtin_types::registry::own_methods;
use crate::runtime::attributes::find_method;
use crate::runtime::datamodel::PyObjectStructure;
use crate::builtin_types::registry::lemma_has_native_found;
use crate::builtin_types::string_type::string_method_functions;
use crate::builtin_types::string_type::string_method_names;
use crate::runtime::attributes::Attribute;
use crate::runtime::calls::call_outcome;
use crate::runtime::calls::call_over;
use crate::runtime::calls::native_called;
use crate::runtime::calls::CallStart;
use crate::runtime::datamodel::CallParams;
use crate::runtime::datamodel::IntOperation;
use crate::runtime::datamodel::NativeFunction;
use crate::runtime::interpreter::call_begun;
use crate::runtime::interpreter::complete_call;
use crate::runtime::interpreter::method_outcome;
use crate::runtime::interpreter::ran_to_end;
use crate::runtime::names::MemoryAddress;
use crate::runtime::natives::native_outcome;
use crate::runtime::vm::VM;

verus! {

/// The machine `vm` with one step fewer left.
pub open spec fn paid(vm: VM) -> VM {
    VM { steps_left: (vm.steps_left - 1) as u64, ..vm }
}

/// What the call of a method leaves that is a native function of the
/// receiver's type, or of a type that it extends: what the native function leaves, on the machine with
/// one step fewer left. The result is the arguments as the function got
/// them, and what it answered.
pub proof fn lemma_native_method_called(
    before: VM,
    a: MemoryAddress,
    name: Seq<char>,
    function: NativeFunction,
    args: Seq<MemoryAddress>,
    answer: Option<MemoryAddress>,
    asked: VM,
) -> (w: (CallParams, MemoryAddress))
    requires
        before.valid(a),
        !before.heap[a as int].attributes@.contains_key(name),
        find_method(before.heap@, before.heap[a as int].type_addr, name) matches Some(f)
            && before.valid(f) && before.heap[f as int].structure == (
        PyObjectStructure::NativeFunction { function }),
        before.pending_exception is None,
        before.steps_left > 0,
        method_outcome(before, a, name, args, answer, asked),
    ensures
        w.0.carries(Some(a), args),
        native_outcome(function, paid(before), w.0, w.1, asked),
        answer == if asked.pending_exception is Some {
            None
        } else {
            Some(w.1)
        },
{
    let now = paid(before);
    let t = before.heap[a as int].type_addr;
    let f = find_method(now.heap@, t, name).unwrap();
    assert(now.valid(f));
    assert(now.lookup(a, name) == Some(Attribute::Method { receiver: a, callable: f }));
    assert(complete_call(now, f, Some(a), args, answer, asked));
    let (start, began) = choose|start: CallStart, began: VM| #[trigger]
        call_begun(start, began, now, answer, asked) && call_outcome(
            now,
            f,
            Some(a),
            args,
            start,
            began,
        ) && (start matches CallStart::Enter(frame) ==> ran_to_end(began, frame, answer, asked));
    let r = choose|r: MemoryAddress|
        start == #[trigger] call_over(began, r) && native_called(
            function,
            now,
            Some(a),
            args,
            r,
            began,
        );
    let params = choose|params: CallParams| #[trigger]
        params.carries(Some(a), args) && native_outcome(function, now, params, r, began);
    assert(params.carries(Some(a), args) && native_outcome(function, now, params, r, asked));
    (params, r)
}

/// Whether the object at `a` is an integer, a truth value or a string as
/// the machine makes them: of the type of the integers, of the truth
/// values or of the strings, and without an `__eq__` of its own.
pub open spec fn plain_scalar(vm: VM, a: MemoryAddress) -> bool {
    &&& vm.valid(a)
    &&& !vm.heap[a as int].attributes@.contains_key("__eq__"@)
    &&& (vm.int_at(a) is Some && (vm.heap[a as int].type_addr == vm.builtin_type_addrs.int
        || vm.heap[a as int].type_addr == vm.builtin_type_addrs.boolean)) || (vm.text_at(a)
        is Some && vm.heap[a as int].type_addr == vm.builtin_type_addrs.string)
}

/// Whether the object at `list` is a list of integers, truth values and
/// strings as the machine makes them.
pub open spec fn scalar_list(vm: VM, list: MemoryAddress) -> bool {
    vm.list_at(list) matches Some(items) && forall|i: int|
        0 <= i < items.len() ==> plain_scalar(vm, #[trigger] items[i])
}

/// The singleton that stands for `holds`.
pub open spec fn truth(vm: VM, holds: bool) -> MemoryAddress {
    if holds {
        vm.builtin_type_addrs.true_val
    } else {
        vm.builtin_type_addrs.false_val
    }
}

/// The type of the truth values has no `__eq__` of its own.
proof fn lemma_truth_values_have_no_equality()
    ensures
        !bool_method_names().contains("__eq__"@),
{
    reveal_strlit("__eq__");
    reveal_strlit("__and__");
    reveal_strlit("__or__");
    reveal_strlit("__xor__");
    reveal_strlit("__not__");
    reveal_strlit("__repr__");
    reveal_strlit("__str__");
    let names = bool_method_names();
    let wanted = "__eq__"@;
    assert(wanted.len() == 6 && wanted[2] == 'e');
    assert(names[0].len() == 7);
    assert(names[1].len() == 6 && names[1][2] == 'o');
    assert(names[2].len() == 7);
    assert(names[3].len() == 7);
    assert(names[4].len() == 8);
    assert(names[5].len() == 7);
    assert forall|i: int| 0 <= i < names.len() implies names[i] != wanted by {
        if i == 0 {
        } else if i == 1 {
        } else if i == 2 {
        } else if i == 3 {
        } else if i == 4 {
        } else {
        }
    }
}

/// What the `__eq__` of an integer, a truth value or a string answers: nothing, with an
/// exception pending or no step left; else whether the two are equal as
/// scalars, for the price of one step.
pub proof fn lemma_scalar_asked(
    before: VM,
    a: MemoryAddress,
    b: MemoryAddress,
    answer: Option<MemoryAddress>,
    asked: VM,
)
    requires
        builtins_ready(before),
        plain_scalar(before, a),
        method_outcome(before, a, "__eq__"@, seq![b], answer, asked),
    ensures
        if before.pending_exception is Some || before.steps_left == 0 {
            answer is None && asked == before
        } else {
            asked == paid(before) && answer == Some(truth(before, scalars_equal(before, a, b)))
        },
{
    if before.pending_exception is Some || before.steps_left == 0 {
    } else {
        let known = before.builtin_type_addrs;
        let now = paid(before);
        if before.int_at(a) is Some && (before.heap[a as int].type_addr == known.int
            || before.heap[a as int].type_addr == known.boolean) {
            let function = NativeFunction::IntBinary(IntOperation::Equals);
            assert(int_method_names()[4] == "__eq__"@);
            assert(int_method_functions()[4] == function);
            assert(has_native(before, known.int, int_method_names()[4], int_method_functions()[4]));
            lemma_has_native_found(before, known.int, "__eq__"@, function);
            if before.heap[a as int].type_addr == known.boolean {
                lemma_truth_values_have_no_equality();
                assert(!own_methods(before, known.boolean).contains("__eq__"@));
                reveal_with_fuel(find_method, 2);
                assert(find_method(before.heap@, known.boolean, "__eq__"@) == find_method(
                    before.heap@,
                    known.int,
                    "__eq__"@,
                ));
            }
            let (params, r) = lemma_native_method_called(
                before,
                a,
                "__eq__"@,
                function,
                seq![b],
                answer,
                asked,
            );
            assert(params.is_method_call(1));
            assert(params.receiver() == a && params.params[0] == b);
            assert(now.int_at(a) is Some);
            assert(scalars_equal(now, a, b) == scalars_equal(before, a, b));
        } else {
            let function = NativeFunction::StringEquals;
            assert(string_method_names()[1] == "__eq__"@);
            assert(string_method_functions()[1] == function);
            assert(has_native(
                before,
                known.string,
                string_method_names()[1],
                string_method_functions()[1],
            ));
            lemma_has_native_found(before, known.string, "__eq__"@, function);
            let (params, r) = lemma_native_method_called(
                before,
                a,
                "__eq__"@,
                function,
                seq![b],
                answer,
                asked,
            );
            assert(params.is_method_call(1));
            assert(params.receiver() == a && params.params[0] == b);
            assert(now.text_at(a) is Some);
            assert(scalars_equal(now, a, b) == scalars_equal(before, a, b));
        }
    }
}

/// Whether two lists of integers, truth values and strings are equal
/// does not depend on which of them is asked: comparing the one with the other from the
/// index `compared` on leaves the same answer, and the same machine, as
/// comparing the other with the one.
pub proof fn lemma_scalar_lists_symmetric(
    before: VM,
    xs: MemoryAddress,
    ys: MemoryAddress,
    n: nat,
    m: nat,
    compared: nat,
    r1: MemoryAddress,
    after1: VM,
    r2: MemoryAddress,
    after2: VM,
)
    requires
        builtins_ready(before),
        scalar_list(before, xs),
        scalar_list(before, ys),
        compared_from(before, xs, ys, n, m, compared, r1, after1),
        compared_from(before, ys, xs, m, n, compared, r2, after2),
    ensures
        r1 == r2,
        after1 == after2,
    decreases n - compared,
{
    let known = before.builtin_type_addrs;
    match comparison_step(n as int, m as int, compared as int) {
        ListComparison::Differ => {},
        ListComparison::Same => {},
        ListComparison::Compare(_) => {
            match (item_at(before, xs, compared as int), item_at(before, ys, compared as int)) {
                (Some(a), Some(b)) => {
                    if a == b {
                        lemma_scalar_lists_symmetric(
                            before,
                            xs,
                            ys,
                            n,
                            m,
                            compared + 1,
                            r1,
                            after1,
                            r2,
                            after2,
                        );
                    } else {
                        let (answer1, asked1) = choose|answer: Option<MemoryAddress>, asked: VM| #[trigger]
                            item_asked(before, asked, answer) && method_outcome(
                                before,
                                a,
                                "__eq__"@,
                                seq![b],
                                answer,
                                asked,
                            ) && if says_equal(answer, known.false_val) {
                                compared_from(asked, xs, ys, n, m, compared + 1, r1, after1)
                            } else {
                                after1 == asked && r1 == asked.builtin_type_addrs.false_val
                            };
                        let (answer2, asked2) = choose|answer: Option<MemoryAddress>, asked: VM| #[trigger]
                            item_asked(before, asked, answer) && method_outcome(
                                before,
                                b,
                                "__eq__"@,
                                seq![a],
                                answer,
                                asked,
                            ) && if says_equal(answer, known.false_val) {
                                compared_from(asked, ys, xs, m, n, compared + 1, r2, after2)
                            } else {
                                after2 == asked && r2 == asked.builtin_type_addrs.false_val
                            };
                        let items_x = before.list_at(xs).unwrap();
                        let items_y = before.list_at(ys).unwrap();
                        assert(plain_scalar(before, items_x[compared as int]));
                        assert(plain_scalar(before, items_y[compared as int]));
                        lemma_scalar_asked(before, a, b, answer1, asked1);
                        lemma_scalar_asked(before, b, a, answer2, asked2);
                        assert(scalars_equal(before, a, b) == scalars_equal(before, b, a));
                        assert(asked1 == asked2);
                        assert(says_equal(answer1, known.false_val) == says_equal(
                            answer2,
                            known.false_val,
                        ));
                        if says_equal(answer1, known.false_val) {
                            assert(builtins_ready(asked1));
                            assert(scalar_list(asked1, xs) && scalar_list(asked1, ys)) by {
                                assert forall|i: int| 0 <= i < items_x.len() implies plain_scalar(
                                    asked1,
                                    #[trigger] items_x[i],
                                ) by {
                                    assert(plain_scalar(before, items_x[i]));
                                }
                                assert forall|i: int| 0 <= i < items_y.len() implies plain_scalar(
                                    asked1,
                                    #[trigger] items_y[i],
                                ) by {
                                    assert(plain_scalar(before, items_y[i]));
                                }
                            }
                            lemma_scalar_lists_symmetric(
                                asked1,
                                xs,
                                ys,
                                n,
                                m,
                                compared + 1,
                                r1,
                                after1,
                                r2,
                                after2,
                            );
                        }
                    }
                },
                _ => {},
            }
        },
    }
}

/// `list.__eq__` answers the same for two lists of integers, truth
/// values and strings whichever of them is asked, and leaves the same
/// machine.
pub proof fn lemma_scalar_list_equality_symmetric(
    before: VM,
    this: CallParams,
    that: CallParams,
    r1: MemoryAddress,
    after1: VM,
    r2: MemoryAddress,
    after2: VM,
)
    requires
        builtins_ready(before),
        this.is_method_call(1),
        that.is_method_call(1),
        this.receiver() == that.params[0],
        that.receiver() == this.params[0],
        scalar_list(before, this.receiver()),
        scalar_list(before, that.receiver()),
        equals_outcome(before, this, r1, after1),
        equals_outcome(before, that, r2, after2),
    ensures
        r1 == r2,
        after1 == after2,
{
    let xs = before.list_at(this.receiver()).unwrap();
    let ys = before.list_at(that.receiver()).unwrap();
    lemma_scalar_lists_symmetric(
        before,
        this.receiver(),
        that.receiver(),
        xs.len(),
        ys.len(),
        0,
        r1,
        after1,
        r2,
        after2,
    );
}

} // verus!
