//! Attribute lookup.

use vstd::prelude::*;
use crate::runtime::datamodel::PyObject;
use crate::runtime::datamodel::PyObjectStructure;
use crate::runtime::names::MemoryAddress;
use crate::runtime::vm::VM;

verus! {

/// What a lookup finds.
#[derive(Debug, Clone, Copy, PartialEq, Eq, Structural)]
pub enum Attribute {
    /// The object itself.
    Value(MemoryAddress),
    /// A callable to be bound to the object it was looked up on.
    Method { receiver: MemoryAddress, callable: MemoryAddress },
}

/// What the type at `t` holds under `name`: its own method of that name,
/// or else what the type it extends holds under it.
pub open spec fn find_method(heap: Seq<PyObject>, t: MemoryAddress, name: Seq<char>) -> Option<
    MemoryAddress,
>
    decreases t,
{
    if t < heap.len() {
        match heap[t as int].structure {
            PyObjectStructure::Type { functions, supertype, .. } => if functions@.contains_key(name) {
                Some(functions@[name])
            } else {
                match supertype {
                    Some(s) => if s < t {
                        find_method(heap, s, name)
                    } else {
                        None
                    },
                    None => None,
                }
            },
            _ => None,
        }
    } else {
        None
    }
}

impl VM {
    /// What the object at `receiver` has under `name`.
    ///
    /// An attribute of the object itself comes first, and is handed out as
    /// it is, except that a native function is bound to the object. What
    /// the object's type, or a type that it extends, holds under the name
    /// comes next; it is bound to the object if it can be called. A module
    /// has, last, its members.
    pub open spec fn lookup(self, receiver: MemoryAddress, name: Seq<char>) -> Option<Attribute>
        recommends
            self.wf(),
            self.valid(receiver),
    {
        let object = self.heap[receiver as int];
        if object.attributes@.contains_key(name) {
            let found = object.attributes@[name];
            if self.heap[found as int].structure is NativeFunction {
                Some(Attribute::Method { receiver, callable: found })
            } else {
                Some(Attribute::Value(found))
            }
        } else {
            match find_method(self.heap@, object.type_addr, name) {
                Some(found) => if self.valid(found) && self.heap[found as int].structure.callable() {
                    Some(Attribute::Method { receiver, callable: found })
                } else {
                    Some(Attribute::Value(found))
                },
                None => match object.structure {
                    PyObjectStructure::Module { members, .. } => if members@.contains_key(name) {
                        Some(Attribute::Value(members@[name]))
                    } else {
                        None
                    },
                    _ => None,
                },
            }
        }
    }

    /// What the type at `t` holds under `name`, its own methods first.
    pub fn find_in_types(&self, t: MemoryAddress, name: &str) -> (r: Option<MemoryAddress>)
        requires
            self.wf(),
        ensures
            r == find_method(self.heap@, t, name@),
            r matches Some(found) ==> self.valid(found),
    {
        let mut current = t;
        loop
            invariant
                self.wf(),
                find_method(self.heap@, current, name@) == find_method(self.heap@, t, name@),
            decreases current,
        {
            if current >= self.heap.len() {
                return None;
            }
            match &self.heap[current].structure {
                PyObjectStructure::Type { functions, supertype, .. } => {
                    match functions.get(name) {
                        Some(found) => {
                            assert(self.heap[current as int].closed(self.heap.len() as int));
                            return Some(found);
                        },
                        None => {},
                    }
                    match supertype {
                        Some(s) => {
                            if *s < current {
                                current = *s;
                            } else {
                                return None;
                            }
                        },
                        None => {
                            return None;
                        },
                    }
                },
                _ => {
                    return None;
                },
            }
        }
    }

    /// Whether the object at `addr` can be called.
    pub fn is_callable(&self, addr: MemoryAddress) -> (r: bool)
        requires
            self.valid(addr),
        ensures
            r == self.heap[addr as int].structure.callable(),
    {
        match &self.heap[addr].structure {
            PyObjectStructure::Function { .. } => true,
            PyObjectStructure::NativeFunction { .. } => true,
            PyObjectStructure::BoundMethod { .. } => true,
            PyObjectStructure::Type { .. } => true,
            _ => false,
        }
    }

    /// What the object at `receiver` has under `name`, if anything.
    pub fn resolve_attribute(&self, receiver: MemoryAddress, name: &str) -> (r: Option<Attribute>)
        requires
            self.wf(),
            self.valid(receiver),
        ensures
            r == self.lookup(receiver, name@),
            match r {
                Some(Attribute::Value(found)) => self.valid(found),
                Some(Attribute::Method { receiver: bound, callable }) => bound == receiver
                    && self.valid(callable),
                None => true,
            },
    {
        let object = &self.heap[receiver];
        assert(object.closed(self.heap.len() as int));
        match object.attributes.get(name) {
            Some(found) => {
                let native = match &self.heap[found].structure {
                    PyObjectStructure::NativeFunction { .. } => true,
                    _ => false,
                };
                if native {
                    return Some(Attribute::Method { receiver, callable: found });
                } else {
                    return Some(Attribute::Value(found));
                }
            },
            None => {},
        }
        match self.find_in_types(object.type_addr, name) {
            Some(found) => {
                if self.is_callable(found) {
                    Some(Attribute::Method { receiver, callable: found })
                } else {
                    Some(Attribute::Value(found))
                }
            },
            None => match &object.structure {
                PyObjectStructure::Module { members, .. } => match members.get(name) {
                    Some(found) => Some(Attribute::Value(found)),
                    None => None,
                },
                _ => None,
            },
        }
    }
}

/// An attribute of the object itself hides a method of the same name of
/// its type: the lookup hands out the attribute as it is, not bound to
/// the object, unless the attribute is a native function.
pub proof fn lemma_instance_attribute_shadows(vm: VM, receiver: MemoryAddress, name: Seq<char>)
    requires
        vm.wf(),
        vm.valid(receiver),
        vm.heap[receiver as int].attributes@.contains_key(name),
        !(vm.heap[vm.heap[receiver as int].attributes@[name] as int].structure is NativeFunction),
    ensures
        vm.lookup(receiver, name) == Some(
            Attribute::Value(vm.heap[receiver as int].attributes@[name]),
        ),
{
}

} // verus!
