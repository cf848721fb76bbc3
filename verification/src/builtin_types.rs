//! The built-in types and their native methods.

pub mod bool_type;
pub mod code_object;
pub mod int_type;
pub mod list_equality;
pub mod list_type;
pub mod registry;
pub mod scalar_lists;
pub mod string_type;
pub mod written;

use vstd::prelude::*;
use crate::builtin_types::code_object::register_codeobject_type;
use crate::builtin_types::list_type::list_methods;
use crate::builtin_types::list_type::register_list_type;
use crate::builtin_types::registry::add_native_method;
use crate::builtin_types::registry::has_native;
use crate::builtin_types::registry::has_natives;
use crate::builtin_types::registry::only_natives;
use crate::builtin_types::registry::lemma_has_natives_kept;
use crate::builtin_types::registry::lemma_registered_trans;
use crate::runtime::datamodel::BoolOperation;
use crate::runtime::datamodel::BuiltInTypeData;
use crate::runtime::datamodel::IntOperation;
use crate::runtime::datamodel::NativeFunction;
use crate::runtime::datamodel::PyObject;
use crate::runtime::datamodel::PyObjectStructure;
use crate::runtime::names::MemoryAddress;
use crate::runtime::names::NameMap;
use crate::runtime::vm::BUILTIN_MODULE;
use crate::runtime::vm::VM;

verus! {

/// The names `names` as texts.
pub open spec fn texts_of(names: Seq<&'static str>) -> Seq<Seq<char>> {
    Seq::new(names.len(), |j: int| names[j]@)
}

/// Makes a type in the module of the built-ins that has the native
/// functions `methods` as methods under the names `names`.
fn make_type(
    vm: &mut VM,
    name: &str,
    supertype: Option<MemoryAddress>,
    names: &Vec<&'static str>,
    methods: &Vec<NativeFunction>,
) -> (r: MemoryAddress)
    requires
        old(vm).wf(),
        supertype matches Some(s) ==> old(vm).valid(s),
        names.len() == methods.len(),
        texts_of(names@).no_duplicates(),
    ensures
        old(vm).registered_to(*final(vm)),
        final(vm).builtin_type_addrs == old(vm).builtin_type_addrs,
        final(vm).valid(r),
        r >= old(vm).heap.len(),
        final(vm).heap[r as int].type_addr == old(vm).builtin_type_addrs.type_type,
        final(vm).heap[r as int].structure matches PyObjectStructure::Type {
            name: n,
            supertype: s,
            ..
        } && n@ == name@ && s == supertype,
        has_natives(*final(vm), r, texts_of(names@), methods@),
        only_natives(*final(vm), r, texts_of(names@)),
{
    let t = vm.create_type(BUILTIN_MODULE, name, supertype);
    let ghost texts = texts_of(names@);
    let mut i: usize = 0;
    while i < names.len()
        invariant
            i <= names.len() == methods.len(),
            texts == texts_of(names@),
            texts.no_duplicates(),
            old(vm).registered_to(*vm),
            vm.builtin_type_addrs == old(vm).builtin_type_addrs,
            vm.valid(t),
            t >= old(vm).heap.len(),
            vm.heap[t as int].type_addr == old(vm).builtin_type_addrs.type_type,
            vm.heap[t as int].structure matches PyObjectStructure::Type { name: n, supertype: s, .. }
                && n@ == name@ && s == supertype,
            forall|j: int| 0 <= j < i ==> has_native(*vm, t, #[trigger] texts[j], methods[j]),
            only_natives(*vm, t, texts),
        decreases names.len() - i,
    {
        let ghost mid = *vm;
        add_native_method(vm, t, names[i], methods[i]);
        proof {
            crate::runtime::datamodel::lemma_evolves_trans(old(vm).heap@, mid.heap@, vm.heap@);
            assert forall|b: int|
                0 <= b < old(vm).heap.len() && !(old(vm).heap[b].structure is Module)
                implies vm.heap[b] == old(vm).heap[b] by {
                assert(mid.heap[b] == old(vm).heap[b]);
            }
            assert(texts[i as int] == names[i as int]@);
            assert(texts.contains(texts[i as int]));
            assert forall|j: int| 0 <= j < i + 1 implies has_native(
                *vm,
                t,
                #[trigger] texts[j],
                methods[j],
            ) by {
                if j < i {
                    assert(has_native(mid, t, texts[j], methods[j]));
                    assert(texts[j] != texts[i as int]);
                }
            }
        }
        i += 1;
    }
    t
}

/// Whether the types of integers, truth values, strings and `None` have
/// their methods, and a truth value is an integer too: its type extends
/// the type of the integers, which is older, and has no other methods
/// of its own.
pub open spec fn scalar_methods(vm: VM) -> bool {
    let known = vm.builtin_type_addrs;
    &&& has_natives(
        vm,
        known.int,
        int_type::int_method_names(),
        int_type::int_method_functions(),
    )
    &&& has_natives(
        vm,
        known.boolean,
        bool_type::bool_method_names(),
        bool_type::bool_method_functions(),
    )
    &&& has_natives(
        vm,
        known.string,
        string_type::string_method_names(),
        string_type::string_method_functions(),
    )
    &&& has_natives(
        vm,
        known.none_type,
        bool_type::none_method_names(),
        bool_type::none_method_functions(),
    )
    &&& vm.heap[known.boolean as int].structure matches PyObjectStructure::Type { supertype, .. }
        && supertype == Some(known.int)
    &&& known.int < known.boolean
    &&& only_natives(vm, known.boolean, bool_type::bool_method_names())
}

/// Whether the built-in types are in place: the singletons are three
/// different objects, `True` and `False` carry 1 and 0, the list type has
/// its methods, and the type of `StopIteration` is no other well-known
/// type of exceptions.
pub open spec fn builtins_ready(vm: VM) -> bool {
    let known = vm.builtin_type_addrs;
    &&& vm.int_at(known.true_val) == Some(1i128)
    &&& vm.int_at(known.false_val) == Some(0i128)
    &&& vm.heap[known.true_val as int].type_addr == known.boolean
    &&& vm.heap[known.false_val as int].type_addr == known.boolean
    &&& vm.heap[known.none_val as int].structure == (PyObjectStructure::Instance { builtin: None })
    &&& vm.heap[known.none_val as int].type_addr == known.none_type
    &&& known.true_val != known.false_val
    &&& known.none_val != known.true_val
    &&& known.none_val != known.false_val
    &&& list_methods(vm, known.list)
    &&& scalar_methods(vm)
    &&& known.exception < known.name_err < known.attribute_err < known.type_err < known.index_err
        < known.value_err < known.zero_division_err < known.stop_iteration
}

/// Makes the type of integers.
fn make_int_type(vm: &mut VM) -> (r: MemoryAddress)
    requires
        old(vm).wf(),
    ensures
        old(vm).registered_to(*final(vm)),
        final(vm).builtin_type_addrs == old(vm).builtin_type_addrs,
        final(vm).valid(r),
        r >= old(vm).heap.len(),
        has_natives(*final(vm), r, int_type::int_method_names(), int_type::int_method_functions()),
{
    let names: Vec<&'static str> = vec![
        "__add__",
        "__sub__",
        "__mul__",
        "__mod__",
        "__eq__",
        "__neq__",
        "__lt__",
        "__gt__",
        "__le__",
        "__ge__",
        "__neg__",
        "__pos__",
        "__repr__",
        "__str__",
    ];
    let methods: Vec<NativeFunction> = vec![
        NativeFunction::IntBinary(IntOperation::Add),
        NativeFunction::IntBinary(IntOperation::Subtract),
        NativeFunction::IntBinary(IntOperation::Multiply),
        NativeFunction::IntBinary(IntOperation::Modulo),
        NativeFunction::IntBinary(IntOperation::Equals),
        NativeFunction::IntBinary(IntOperation::NotEquals),
        NativeFunction::IntBinary(IntOperation::Less),
        NativeFunction::IntBinary(IntOperation::Greater),
        NativeFunction::IntBinary(IntOperation::LessEquals),
        NativeFunction::IntBinary(IntOperation::GreaterEquals),
        NativeFunction::IntNegate,
        NativeFunction::IntPositive,
        NativeFunction::IntRepr,
        NativeFunction::IntRepr,
    ];
    proof {
        int_type::lemma_int_method_names_differ();
        assert(texts_of(names@) =~= int_type::int_method_names());
        assert(methods@ =~= int_type::int_method_functions());
    }
    make_type(vm, "int", None, &names, &methods)
}

/// Makes the type of truth values, which extends the type of integers
/// at `int_type`.
fn make_bool_type(vm: &mut VM, int_type: MemoryAddress) -> (r: MemoryAddress)
    requires
        old(vm).wf(),
        old(vm).valid(int_type),
    ensures
        old(vm).registered_to(*final(vm)),
        final(vm).builtin_type_addrs == old(vm).builtin_type_addrs,
        final(vm).valid(r),
        r >= old(vm).heap.len(),
        has_natives(
            *final(vm),
            r,
            bool_type::bool_method_names(),
            bool_type::bool_method_functions(),
        ),
        final(vm).heap[r as int].structure matches PyObjectStructure::Type { supertype, .. }
            && supertype == Some(int_type),
        only_natives(*final(vm), r, bool_type::bool_method_names()),
{
    let names: Vec<&'static str> = vec![
        "__and__",
        "__or__",
        "__xor__",
        "__not__",
        "__repr__",
        "__str__",
    ];
    let methods: Vec<NativeFunction> = vec![
        NativeFunction::BoolBinary(BoolOperation::And),
        NativeFunction::BoolBinary(BoolOperation::Or),
        NativeFunction::BoolBinary(BoolOperation::Xor),
        NativeFunction::BoolNot,
        NativeFunction::BoolRepr,
        NativeFunction::BoolRepr,
    ];
    proof {
        bool_type::lemma_bool_method_names_differ();
        assert(texts_of(names@) =~= bool_type::bool_method_names());
        assert(methods@ =~= bool_type::bool_method_functions());
    }
    make_type(vm, "bool", Some(int_type), &names, &methods)
}

/// Makes the type of strings.
fn make_string_type(vm: &mut VM) -> (r: MemoryAddress)
    requires
        old(vm).wf(),
    ensures
        old(vm).registered_to(*final(vm)),
        final(vm).builtin_type_addrs == old(vm).builtin_type_addrs,
        final(vm).valid(r),
        r >= old(vm).heap.len(),
        has_natives(
            *final(vm),
            r,
            string_type::string_method_names(),
            string_type::string_method_functions(),
        ),
{
    let names: Vec<&'static str> = vec![
        "__add__",
        "__eq__",
        "__neq__",
        "__repr__",
        "__str__",
        "__len__",
    ];
    let methods: Vec<NativeFunction> = vec![
        NativeFunction::StringConcat,
        NativeFunction::StringEquals,
        NativeFunction::StringNotEquals,
        NativeFunction::StringRepr,
        NativeFunction::StringStr,
        NativeFunction::StringLen,
    ];
    proof {
        string_type::lemma_string_method_names_differ();
        assert(texts_of(names@) =~= string_type::string_method_names());
        assert(methods@ =~= string_type::string_method_functions());
    }
    make_type(vm, "str", None, &names, &methods)
}

/// Makes the type of `None`.
fn make_none_type(vm: &mut VM) -> (r: MemoryAddress)
    requires
        old(vm).wf(),
    ensures
        old(vm).registered_to(*final(vm)),
        final(vm).builtin_type_addrs == old(vm).builtin_type_addrs,
        final(vm).valid(r),
        r >= old(vm).heap.len(),
        has_natives(
            *final(vm),
            r,
            bool_type::none_method_names(),
            bool_type::none_method_functions(),
        ),
{
    let names: Vec<&'static str> = vec!["__repr__", "__str__"];
    let methods: Vec<NativeFunction> = vec![NativeFunction::NoneRepr, NativeFunction::NoneRepr];
    proof {
        bool_type::lemma_none_method_names_differ();
        assert(texts_of(names@) =~= bool_type::none_method_names());
        assert(methods@ =~= bool_type::none_method_functions());
    }
    make_type(vm, "NoneType", None, &names, &methods)
}

/// Makes the types of integers, numbers, truth values, strings and
/// `None`, with the singletons `True`, `False` and `None`.
fn register_scalar_types(vm: &mut VM)
    requires
        old(vm).wf(),
    ensures
        old(vm).registered_to(*final(vm)),
        final(vm).builtin_type_addrs == (crate::runtime::vm::BuiltinTypeAddresses {
            int: final(vm).builtin_type_addrs.int,
            float: final(vm).builtin_type_addrs.float,
            boolean: final(vm).builtin_type_addrs.boolean,
            string: final(vm).builtin_type_addrs.string,
            none_type: final(vm).builtin_type_addrs.none_type,
            none_val: final(vm).builtin_type_addrs.none_val,
            true_val: final(vm).builtin_type_addrs.true_val,
            false_val: final(vm).builtin_type_addrs.false_val,
            ..old(vm).builtin_type_addrs
        }),
        final(vm).int_at(final(vm).builtin_type_addrs.true_val) == Some(1i128),
        final(vm).int_at(final(vm).builtin_type_addrs.false_val) == Some(0i128),
        final(vm).heap[final(vm).builtin_type_addrs.true_val as int].type_addr == final(vm).builtin_type_addrs.boolean,
        final(vm).heap[final(vm).builtin_type_addrs.false_val as int].type_addr == final(vm).builtin_type_addrs.boolean,
        final(vm).heap[final(vm).builtin_type_addrs.none_val as int].structure == (
        PyObjectStructure::Instance { builtin: None }),
        final(vm).heap[final(vm).builtin_type_addrs.none_val as int].type_addr == final(vm).builtin_type_addrs.none_type,
        final(vm).builtin_type_addrs.true_val != final(vm).builtin_type_addrs.false_val,
        final(vm).builtin_type_addrs.none_val != final(vm).builtin_type_addrs.true_val,
        final(vm).builtin_type_addrs.none_val != final(vm).builtin_type_addrs.false_val,
        scalar_methods(*final(vm)),
{
    let int_type = make_int_type(vm);
    let ghost s1 = *vm;
    let none: Vec<&'static str> = Vec::new();
    let no_methods: Vec<NativeFunction> = Vec::new();
    assert(texts_of(none@) =~= Seq::<Seq<char>>::empty());
    let float_type = make_type(vm, "float", None, &none, &no_methods);
    let ghost s2 = *vm;
    let bool_type = make_bool_type(vm, int_type);
    let ghost s3 = *vm;
    let string_type = make_string_type(vm);
    let ghost s4 = *vm;
    let none_type = make_none_type(vm);
    let ghost s5 = *vm;
    let true_val = vm.allocate_type_byaddr_raw(bool_type, BuiltInTypeData::Int(1));
    let ghost s6 = *vm;
    let false_val = vm.allocate_type_byaddr_raw(bool_type, BuiltInTypeData::Int(0));
    let ghost s7 = *vm;
    let none_val = vm.allocate(
        PyObject {
            type_addr: none_type,
            structure: PyObjectStructure::Instance { builtin: None },
            attributes: NameMap::new(),
        },
    );
    proof {
        lemma_registered_trans(*old(vm), s1, s2);
        lemma_registered_trans(*old(vm), s2, s3);
        lemma_registered_trans(*old(vm), s3, s4);
        lemma_registered_trans(*old(vm), s4, s5);
        lemma_registered_trans(*old(vm), s5, s6);
        lemma_registered_trans(*old(vm), s6, s7);
        lemma_registered_trans(*old(vm), s7, *vm);
        lemma_registered_trans(s4, s5, s6);
        lemma_registered_trans(s4, s6, s7);
        lemma_registered_trans(s4, s7, *vm);
        lemma_registered_trans(s3, s4, *vm);
        lemma_registered_trans(s2, s3, *vm);
        lemma_registered_trans(s1, s2, *vm);
        lemma_registered_trans(s5, s6, s7);
        lemma_registered_trans(s5, s7, *vm);
        lemma_has_natives_kept(
            s1,
            *vm,
            int_type,
            int_type::int_method_names(),
            int_type::int_method_functions(),
        );
        lemma_has_natives_kept(
            s3,
            *vm,
            bool_type,
            bool_type::bool_method_names(),
            bool_type::bool_method_functions(),
        );
        lemma_has_natives_kept(
            s4,
            *vm,
            string_type,
            string_type::string_method_names(),
            string_type::string_method_functions(),
        );
        lemma_has_natives_kept(
            s5,
            *vm,
            none_type,
            bool_type::none_method_names(),
            bool_type::none_method_functions(),
        );
    }
    vm.builtin_type_addrs.int = int_type;
    vm.builtin_type_addrs.float = float_type;
    vm.builtin_type_addrs.boolean = bool_type;
    vm.builtin_type_addrs.string = string_type;
    vm.builtin_type_addrs.none_type = none_type;
    vm.builtin_type_addrs.true_val = true_val;
    vm.builtin_type_addrs.false_val = false_val;
    vm.builtin_type_addrs.none_val = none_val;
}

/// Whether the object at `a` is a type of the name `name` that has no
/// methods and extends `supertype`, if one is given.
pub open spec fn plain_type(
    vm: VM,
    a: MemoryAddress,
    name: Seq<char>,
    supertype: Option<MemoryAddress>,
) -> bool {
    &&& vm.valid(a)
    &&& vm.heap[a as int].type_addr == vm.builtin_type_addrs.type_type
    &&& vm.heap[a as int].structure matches PyObjectStructure::Type { name: n, functions, supertype: s }
        && n@ == name && s == supertype && functions@ == Map::<Seq<char>, MemoryAddress>::empty()
}

/// Whether the types of what can be called, and of modules, are in
/// place: `function`, `builtin_function_or_method`, `method` and
/// `module`, four types without methods that extend no other.
pub open spec fn callable_types(vm: VM) -> bool {
    let known = vm.builtin_type_addrs;
    &&& plain_type(vm, known.function, "function"@, None)
    &&& plain_type(vm, known.native_function, "builtin_function_or_method"@, None)
    &&& plain_type(vm, known.bound_method, "method"@, None)
    &&& plain_type(vm, known.module, "module"@, None)
}

/// Makes the types of functions, native functions, bound methods and
/// modules, four new objects, and records them among the well-known
/// addresses.
fn register_callable_types(vm: &mut VM)
    requires
        old(vm).wf(),
    ensures
        old(vm).registered_to(*final(vm)),
        final(vm).builtin_type_addrs == (crate::runtime::vm::BuiltinTypeAddresses {
            function: final(vm).builtin_type_addrs.function,
            native_function: final(vm).builtin_type_addrs.native_function,
            bound_method: final(vm).builtin_type_addrs.bound_method,
            module: final(vm).builtin_type_addrs.module,
            ..old(vm).builtin_type_addrs
        }),
        callable_types(*final(vm)),
        old(vm).heap.len() <= final(vm).builtin_type_addrs.function
            < final(vm).builtin_type_addrs.native_function
            < final(vm).builtin_type_addrs.bound_method < final(vm).builtin_type_addrs.module,
{
    let none: Vec<&'static str> = Vec::new();
    let no_methods: Vec<NativeFunction> = Vec::new();
    let function = make_plain_type(vm, "function", None);
    let ghost s1 = *vm;
    let native = make_plain_type(vm, "builtin_function_or_method", None);
    let ghost s2 = *vm;
    let method = make_plain_type(vm, "method", None);
    let ghost s3 = *vm;
    let module = make_plain_type(vm, "module", None);
    proof {
        lemma_registered_trans(*old(vm), s1, s2);
        lemma_registered_trans(*old(vm), s2, s3);
        lemma_registered_trans(*old(vm), s3, *vm);
        lemma_registered_trans(s2, s3, *vm);
        lemma_registered_trans(s1, s2, *vm);
        assert(vm.heap[function as int] == s1.heap[function as int]);
        assert(vm.heap[native as int] == s2.heap[native as int]);
        assert(vm.heap[method as int] == s3.heap[method as int]);
    }
    vm.builtin_type_addrs.function = function;
    vm.builtin_type_addrs.native_function = native;
    vm.builtin_type_addrs.bound_method = method;
    vm.builtin_type_addrs.module = module;
}

/// Makes a type without methods in the module of the built-ins.
fn make_plain_type(vm: &mut VM, name: &str, supertype: Option<MemoryAddress>) -> (r: MemoryAddress)
    requires
        old(vm).wf(),
        supertype matches Some(s) ==> old(vm).valid(s),
    ensures
        old(vm).registered_to(*final(vm)),
        final(vm).builtin_type_addrs == old(vm).builtin_type_addrs,
        final(vm).valid(r),
        r >= old(vm).heap.len(),
        plain_type(*final(vm), r, name@, supertype),
{
    vm.create_type(BUILTIN_MODULE, name, supertype)
}

/// Makes the types of the built-in exceptions, each of which but the
/// first extends `Exception`.
fn register_exception_types(vm: &mut VM)
    requires
        old(vm).wf(),
    ensures
        old(vm).registered_to(*final(vm)),
        final(vm).builtin_type_addrs == (crate::runtime::vm::BuiltinTypeAddresses {
            exception: final(vm).builtin_type_addrs.exception,
            name_err: final(vm).builtin_type_addrs.name_err,
            attribute_err: final(vm).builtin_type_addrs.attribute_err,
            type_err: final(vm).builtin_type_addrs.type_err,
            index_err: final(vm).builtin_type_addrs.index_err,
            value_err: final(vm).builtin_type_addrs.value_err,
            zero_division_err: final(vm).builtin_type_addrs.zero_division_err,
            stop_iteration: final(vm).builtin_type_addrs.stop_iteration,
            ..old(vm).builtin_type_addrs
        }),
        ({
            let known = final(vm).builtin_type_addrs;
            known.exception < known.name_err < known.attribute_err < known.type_err
                < known.index_err < known.value_err < known.zero_division_err
                < known.stop_iteration
        }),
{
    let exception = make_plain_type(vm, "Exception", None);
    let ghost s1 = *vm;
    let name_err = make_plain_type(vm, "NameError", Some(exception));
    let ghost s2 = *vm;
    let attribute_err = make_plain_type(vm, "AttributeError", Some(exception));
    let ghost s3 = *vm;
    let type_err = make_plain_type(vm, "TypeError", Some(exception));
    let ghost s4 = *vm;
    let index_err = make_plain_type(vm, "IndexError", Some(exception));
    let ghost s5 = *vm;
    let value_err = make_plain_type(vm, "ValueError", Some(exception));
    let ghost s6 = *vm;
    let zero_division_err = make_plain_type(vm, "ZeroDivisionError", Some(exception));
    let ghost s7 = *vm;
    let stop_iteration = make_plain_type(vm, "StopIteration", Some(exception));
    proof {
        lemma_registered_trans(*old(vm), s1, s2);
        lemma_registered_trans(*old(vm), s2, s3);
        lemma_registered_trans(*old(vm), s3, s4);
        lemma_registered_trans(*old(vm), s4, s5);
        lemma_registered_trans(*old(vm), s5, s6);
        lemma_registered_trans(*old(vm), s6, s7);
        lemma_registered_trans(*old(vm), s7, *vm);
    }
    vm.builtin_type_addrs.exception = exception;
    vm.builtin_type_addrs.name_err = name_err;
    vm.builtin_type_addrs.attribute_err = attribute_err;
    vm.builtin_type_addrs.type_err = type_err;
    vm.builtin_type_addrs.index_err = index_err;
    vm.builtin_type_addrs.value_err = value_err;
    vm.builtin_type_addrs.zero_division_err = zero_division_err;
    vm.builtin_type_addrs.stop_iteration = stop_iteration;
}

/// Makes the built-in types with their methods, the singletons and the
/// types of the built-in exceptions, and records them among the well-known
/// addresses.
pub fn register_builtins(vm: &mut VM)
    requires
        old(vm).wf(),
    ensures
        old(vm).registered_to(*final(vm)),
        builtins_ready(*final(vm)),
{
    register_list_type(vm);
    let ghost s1 = *vm;
    register_codeobject_type(vm);
    let ghost s2 = *vm;
    proof {
        lemma_registered_trans(*old(vm), s1, s2);
        crate::builtin_types::list_type::lemma_kept_methods(s1, s2, s1.builtin_type_addrs.list);
    }
    register_callable_types(vm);
    let ghost s3 = *vm;
    proof {
        lemma_registered_trans(*old(vm), s2, s3);
        crate::builtin_types::list_type::lemma_kept_methods(s2, s3, s1.builtin_type_addrs.list);
    }
    register_exception_types(vm);
    let ghost s4 = *vm;
    proof {
        lemma_registered_trans(*old(vm), s3, s4);
        crate::builtin_types::list_type::lemma_kept_methods(s3, s4, s1.builtin_type_addrs.list);
    }
    register_scalar_types(vm);
    proof {
        lemma_registered_trans(*old(vm), s4, *vm);
    }
}

} // verus!
