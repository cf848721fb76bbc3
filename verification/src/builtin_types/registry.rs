//! Registration of native methods.

use vstd::prelude::*;
use crate::runtime::attributes::find_method;
use crate::runtime::datamodel::lemma_evolves_trans;
use crate::runtime::datamodel::NativeFunction;
use crate::runtime::datamodel::PyObject;
use crate::runtime::datamodel::PyObjectStructure;
use crate::runtime::names::MemoryAddress;
use crate::runtime::names::NameMap;
use crate::runtime::vm::VM;

verus! {

/// Whether the type at `t` has the native function `function` as its own
/// method `name`.
pub open spec fn has_native(vm: VM, t: MemoryAddress, name: Seq<char>, function: NativeFunction) -> bool {
    &&& vm.valid(t)
    &&& vm.heap[t as int].structure matches PyObjectStructure::Type { functions, .. }
    &&& functions@.contains_key(name)
    &&& vm.valid(functions@[name])
    &&& vm.heap[functions@[name] as int].structure == (PyObjectStructure::NativeFunction {
        function,
    })
}

/// A method of a type itself is what lookup in the type finds.
pub proof fn lemma_has_native_found(vm: VM, t: MemoryAddress, name: Seq<char>, function: NativeFunction)
    requires
        has_native(vm, t, name, function),
    ensures
        find_method(vm.heap@, t, name) matches Some(f) && vm.heap[f as int].structure == (
        PyObjectStructure::NativeFunction { function }),
{
}

/// Whether the type at `t` has each of the native functions `functions`
/// as its own method under the name at the same place in `names`.
pub open spec fn has_natives(
    vm: VM,
    t: MemoryAddress,
    names: Seq<Seq<char>>,
    functions: Seq<NativeFunction>,
) -> bool {
    names.len() == functions.len() && forall|j: int|
        0 <= j < names.len() ==> has_native(vm, t, #[trigger] names[j], functions[j])
}

/// The names of the methods that the type at `t` has itself.
pub open spec fn own_methods(vm: VM, t: MemoryAddress) -> Set<Seq<char>> {
    match vm.heap[t as int].structure {
        PyObjectStructure::Type { functions, .. } => functions@.dom(),
        _ => Set::empty(),
    }
}

/// Whether the type at `t` has no method itself but under one of the
/// names `names`.
pub open spec fn only_natives(vm: VM, t: MemoryAddress, names: Seq<Seq<char>>) -> bool {
    forall|x: Seq<char>| own_methods(vm, t).contains(x) ==> names.contains(x)
}

/// Makes the native function `function` the method `name` of the type at
/// `t`. The other methods of the type, and the other objects, stay as they
/// are.
pub fn add_native_method(vm: &mut VM, t: MemoryAddress, name: &str, function: NativeFunction)
    requires
        old(vm).wf(),
        old(vm).valid(t),
        old(vm).heap[t as int].structure is Type,
    ensures
        final(vm).wf(),
        old(vm).before(*final(vm)),
        old(vm).same_but_heap(*final(vm)),
        final(vm).heap.len() == old(vm).heap.len() + 1,
        has_native(*final(vm), t, name@, function),
        own_methods(*final(vm), t) == own_methods(*old(vm), t).insert(name@),
        forall|n: Seq<char>, g: NativeFunction|
            n != name@ && has_native(*old(vm), t, n, g) ==> has_native(*final(vm), t, n, g),
        forall|b: int|
            0 <= b < old(vm).heap.len() && b != t ==> final(vm).heap[b] == old(vm).heap[b],
        final(vm).heap[t as int].type_addr == old(vm).heap[t as int].type_addr,
        final(vm).heap[t as int].attributes == old(vm).heap[t as int].attributes,
        old(vm).heap[t as int].structure matches PyObjectStructure::Type { name: n0, supertype: s0, .. }
            && (final(vm).heap[t as int].structure matches PyObjectStructure::Type {
            name: n1,
            supertype: s1,
            ..
        } && n1 == n0 && s1 == s0),
{
    let object = PyObject {
        type_addr: vm.builtin_type_addrs.native_function,
        structure: PyObjectStructure::NativeFunction { function },
        attributes: NameMap::new(),
    };
    let f = vm.allocate(object);
    let ghost made = *vm;
    vm.add_method(t, name.to_string(), f);
    proof {
        lemma_evolves_trans(old(vm).heap@, made.heap@, vm.heap@);
        assert forall|n: Seq<char>, g: NativeFunction|
            n != name@ && has_native(*old(vm), t, n, g) implies has_native(*vm, t, n, g) by {
            let functions = old(vm).heap[t as int].structure->Type_functions;
            assert(old(vm).heap[t as int].closed(old(vm).heap.len() as int));
            let at = functions@[n];
            assert(at != t);
            assert(vm.heap[at as int] == made.heap[at as int]);
        }
    }
}

impl VM {
    /// Whether `later` is this machine after a registration: sound, with
    /// every object still there, unchanged unless it is a module, and with
    /// the calls in progress and the pending exception as they were.
    pub open spec fn registered_to(self, later: VM) -> bool {
        &&& later.wf()
        &&& self.before(later)
        &&& later.frames@ == self.frames@
        &&& later.pending_exception == self.pending_exception
        &&& forall|b: int|
            0 <= b < self.heap.len() && !(self.heap[b].structure is Module) ==> later.heap[b]
                == self.heap[b]
    }
}

/// A registration leaves the native methods of a type in place.
pub proof fn lemma_has_natives_kept(
    a: VM,
    b: VM,
    t: MemoryAddress,
    names: Seq<Seq<char>>,
    functions: Seq<NativeFunction>,
)
    requires
        a.registered_to(b),
        has_natives(a, t, names, functions),
    ensures
        has_natives(b, t, names, functions),
{
    assert forall|j: int| 0 <= j < names.len() implies has_native(
        b,
        t,
        #[trigger] names[j],
        functions[j],
    ) by {
        assert(has_native(a, t, names[j], functions[j]));
        let methods = a.heap[t as int].structure->Type_functions;
        assert(b.heap[t as int] == a.heap[t as int]);
        assert(b.heap[methods@[names[j]] as int] == a.heap[methods@[names[j]] as int]);
    }
}

/// Registrations follow each other.
pub proof fn lemma_registered_trans(a: VM, b: VM, c: VM)
    requires
        a.registered_to(b),
        b.registered_to(c),
    ensures
        a.registered_to(c),
{
    lemma_evolves_trans(a.heap@, b.heap@, c.heap@);
    assert forall|i: int| 0 <= i < a.heap.len() && !(a.heap[i].structure is Module) implies c.heap[i]
        == a.heap[i] by {
        assert(b.heap[i] == a.heap[i]);
    }
}

} // verus!
