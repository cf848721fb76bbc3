//! The machine's state: heap, frames, globals and well-known addresses.

use vstd::prelude::*;
use crate::runtime::datamodel::all_below;
use crate::runtime::datamodel::evolves;
use crate::runtime::datamodel::heap_ok;
use crate::runtime::datamodel::option_below;
use crate::runtime::datamodel::same_object;
use crate::runtime::datamodel::set_below;
use crate::runtime::datamodel::BuiltInTypeData;
use crate::runtime::datamodel::NativeFunction;
use crate::runtime::datamodel::PyObject;
use crate::runtime::datamodel::PyObjectStructure;
use crate::runtime::names::MemoryAddress;
use crate::runtime::names::NameMap;

verus! {

/// The module that holds the built-in types and functions.
pub const BUILTIN_MODULE: &'static str = "__builtins__";

/// The addresses of the built-in types, of the singletons and of the
/// built-in exception types.
#[derive(Debug, Clone, Copy)]
pub struct BuiltinTypeAddresses {
    pub type_type: MemoryAddress,
    pub int: MemoryAddress,
    pub float: MemoryAddress,
    pub boolean: MemoryAddress,
    pub string: MemoryAddress,
    pub list: MemoryAddress,
    pub list_iterator: MemoryAddress,
    pub none_type: MemoryAddress,
    pub function: MemoryAddress,
    pub native_function: MemoryAddress,
    pub bound_method: MemoryAddress,
    pub module: MemoryAddress,
    pub code_object: MemoryAddress,
    pub none_val: MemoryAddress,
    pub true_val: MemoryAddress,
    pub false_val: MemoryAddress,
    pub exception: MemoryAddress,
    pub name_err: MemoryAddress,
    pub attribute_err: MemoryAddress,
    pub type_err: MemoryAddress,
    pub index_err: MemoryAddress,
    pub value_err: MemoryAddress,
    pub zero_division_err: MemoryAddress,
    pub stop_iteration: MemoryAddress,
}

impl BuiltinTypeAddresses {
    /// Whether every address of the record is below `n`.
    pub open spec fn below(self, n: int) -> bool {
        &&& self.type_type < n
        &&& self.int < n
        &&& self.float < n
        &&& self.boolean < n
        &&& self.string < n
        &&& self.list < n
        &&& self.list_iterator < n
        &&& self.none_type < n
        &&& self.function < n
        &&& self.native_function < n
        &&& self.bound_method < n
        &&& self.module < n
        &&& self.code_object < n
        &&& self.none_val < n
        &&& self.true_val < n
        &&& self.false_val < n
        &&& self.exception < n
        &&& self.name_err < n
        &&& self.attribute_err < n
        &&& self.type_err < n
        &&& self.index_err < n
        &&& self.value_err < n
        &&& self.zero_division_err < n
        &&& self.stop_iteration < n
    }
}

/// The record of one call in progress.
#[derive(Debug)]
pub struct Frame {
    /// The address of the code object that the frame runs.
    pub code: MemoryAddress,
    /// The index of the next instruction.
    pub pc: usize,
    /// One slot for each name of the code object.
    pub locals: Vec<Option<MemoryAddress>>,
    pub value_stack: Vec<MemoryAddress>,
    /// Whether the frame hands its result to the machine instead of to the
    /// frame below it.
    pub entry: bool,
    /// The object that the call yields in place of what the code returns,
    /// as the new instance does when `__init__` runs.
    pub instance: Option<MemoryAddress>,
}

/// The code object that a frame runs, from the heap.
pub open spec fn code_at(heap: Seq<PyObject>, a: MemoryAddress) -> crate::bytecode::program::CodeObject
    recommends
        a < heap.len(),
        heap[a as int].structure.is_code(),
{
    heap[a as int].structure->Instance_builtin->0->Code_code
}

/// The constants' objects of the code object at `a`.
pub open spec fn consts_at(heap: Seq<PyObject>, a: MemoryAddress) -> Seq<MemoryAddress>
    recommends
        a < heap.len(),
        heap[a as int].structure.is_code(),
{
    heap[a as int].structure->Instance_builtin->0->Code_consts@
}

/// A frame that fits the heap: it runs a code object of the heap, has a
/// slot for each of its names, stands at one of its instructions or at its
/// end, and holds only addresses of objects.
pub open spec fn frame_ok(heap: Seq<PyObject>, frame: Frame) -> bool {
    &&& frame.code < heap.len()
    &&& heap[frame.code as int].structure.is_code()
    &&& frame.locals.len() == code_at(heap, frame.code).names.len()
    &&& frame.pc <= code_at(heap, frame.code).instructions.len()
    &&& set_below(frame.locals@, heap.len() as int)
    &&& all_below(frame.value_stack@, heap.len() as int)
    &&& option_below(frame.instance, heap.len() as int)
}

/// A frame that fits a heap fits the heap at any later time.
pub proof fn lemma_frame_evolves(old: Seq<PyObject>, new: Seq<PyObject>, frame: Frame)
    requires
        frame_ok(old, frame),
        evolves(old, new),
    ensures
        frame_ok(new, frame),
{
    assert(same_object(old[frame.code as int], new[frame.code as int]));
}

/// The machine.
pub struct VM {
    pub heap: Vec<PyObject>,
    /// The calls in progress, the innermost last.
    pub frames: Vec<Frame>,
    /// The names of the top-level unit.
    pub globals: NameMap,
    /// The modules by name.
    pub modules: NameMap,
    pub builtin_type_addrs: BuiltinTypeAddresses,
    /// The exception that was raised and not handled yet.
    pub pending_exception: Option<MemoryAddress>,
    /// What the last frame that handed its result to the machine returned.
    pub returned: Option<MemoryAddress>,
    /// The value stack that the last such frame left behind.
    pub stack: Vec<MemoryAddress>,
    /// The local slots that the last such frame left behind.
    pub locals: Vec<Option<MemoryAddress>>,
    /// The number of instructions that the machine may still run.
    pub steps_left: u64,
}

impl VM {
    /// Whether every address that the machine holds outside the heap is
    /// the address of an object.
    pub open spec fn roots_ok(self) -> bool {
        let n = self.heap.len() as int;
        &&& self.globals.below(n)
        &&& self.modules.below(n)
        &&& self.builtin_type_addrs.below(n)
        &&& option_below(self.pending_exception, n)
        &&& option_below(self.returned, n)
        &&& all_below(self.stack@, n)
        &&& set_below(self.locals@, n)
    }

    /// A sound machine: the heap is sound, every frame fits it, and no
    /// address held anywhere dangles.
    pub open spec fn wf(self) -> bool {
        &&& heap_ok(self.heap@)
        &&& self.roots_ok()
        &&& forall|i: int| 0 <= i < self.frames.len() ==> frame_ok(self.heap@, #[trigger] self.frames[i])
    }

    /// Whether `a` is the address of an object.
    pub open spec fn valid(self, a: MemoryAddress) -> bool {
        a < self.heap.len()
    }

    /// Whether `later` is this machine at a later time: its objects are
    /// still there, each at its address, and it has not more steps left
    /// to run.
    pub open spec fn before(self, later: VM) -> bool {
        evolves(self.heap@, later.heap@) && later.steps_left <= self.steps_left
    }
}

/// A machine whose heap has evolved, with roots and frames unchanged or
/// within the new heap, is sound if the new heap is.
pub proof fn lemma_wf_evolves(old: VM, new: VM)
    requires
        old.wf(),
        evolves(old.heap@, new.heap@),
        heap_ok(new.heap@),
        new.roots_ok(),
        new.frames@ == old.frames@,
    ensures
        new.wf(),
{
    assert forall|i: int| 0 <= i < new.frames.len() implies frame_ok(
        new.heap@,
        #[trigger] new.frames[i],
    ) by {
        lemma_frame_evolves(old.heap@, new.heap@, old.frames[i]);
    }
}

/// An object that holds only addresses below `n` holds only addresses
/// below any larger bound.
pub proof fn lemma_closed_grows(object: PyObject, n: int, m: int)
    requires
        object.closed(n),
        n <= m,
    ensures
        object.closed(m),
{
}

/// A sound heap with one more object, which refers only to objects of the
/// heap, is sound, and is the heap at a later time.
pub proof fn lemma_heap_push(heap: Seq<PyObject>, object: PyObject)
    requires
        heap_ok(heap),
        object.closed(heap.len() as int),
    ensures
        heap_ok(heap.push(object)),
        evolves(heap, heap.push(object)),
{
    let new = heap.push(object);
    assert forall|a: int| 0 <= a < new.len() implies (#[trigger] new[a]).closed(new.len() as int)
        && (new[a].structure matches PyObjectStructure::Type { supertype: Some(s), .. } ==> s
        < a) by {
        if a < heap.len() {
            assert(heap[a].closed(heap.len() as int));
            lemma_closed_grows(heap[a], heap.len() as int, new.len() as int);
        } else {
            lemma_closed_grows(object, heap.len() as int, new.len() as int);
        }
    }
    assert forall|a: int| 0 <= a < heap.len() implies same_object(#[trigger] heap[a], new[a]) by {}
}

/// A sound heap in which one object has changed in a way that objects may
/// change, and still refers only to objects of the heap, is sound, and is
/// the heap at a later time.
pub proof fn lemma_heap_update(heap: Seq<PyObject>, at: int, object: PyObject)
    requires
        heap_ok(heap),
        0 <= at < heap.len(),
        object.closed(heap.len() as int),
        same_object(heap[at], object),
    ensures
        heap_ok(heap.update(at, object)),
        evolves(heap, heap.update(at, object)),
{
    let new = heap.update(at, object);
    assert forall|a: int| 0 <= a < new.len() implies (#[trigger] new[a]).closed(new.len() as int)
        && (new[a].structure matches PyObjectStructure::Type { supertype: Some(s), .. } ==> s
        < a) by {
        if a != at {
            assert(heap[a].closed(heap.len() as int));
        } else {
            assert(heap[a].closed(heap.len() as int));
        }
    }
    assert forall|a: int| 0 <= a < heap.len() implies same_object(#[trigger] heap[a], new[a]) by {}
}

impl VM {
    /// Whether `later` differs from this machine in its heap at most.
    pub open spec fn same_but_heap(self, later: VM) -> bool {
        &&& later.frames == self.frames
        &&& later.globals == self.globals
        &&& later.modules == self.modules
        &&& later.builtin_type_addrs == self.builtin_type_addrs
        &&& later.pending_exception == self.pending_exception
        &&& later.returned == self.returned
        &&& later.stack == self.stack
        &&& later.locals == self.locals
        &&& later.steps_left == self.steps_left
    }

    /// Puts `object` on the heap and returns its address, which no object
    /// had before.
    pub fn allocate(&mut self, object: PyObject) -> (a: MemoryAddress)
        requires
            old(self).wf(),
            object.closed(old(self).heap.len() as int),
        ensures
            final(self).wf(),
            a == old(self).heap.len(),
            final(self).heap@ == old(self).heap@.push(object),
            old(self).same_but_heap(*final(self)),
            old(self).before(*final(self)),
    {
        proof {
            lemma_heap_push(self.heap@, object);
        }
        let a = self.heap.len();
        self.heap.push(object);
        proof {
            lemma_wf_evolves(*old(self), *self);
        }
        a
    }

    /// The object at `addr`.
    pub fn get_pyobj_byaddr(&self, addr: MemoryAddress) -> (r: &PyObject)
        requires
            self.valid(addr),
        ensures
            *r == self.heap[addr as int],
    {
        &self.heap[addr]
    }

    /// The object at `addr`, if there is one.
    pub fn try_get_pyobj(&self, addr: MemoryAddress) -> (r: Option<&PyObject>)
        ensures
            match r {
                Some(object) => self.valid(addr) && *object == self.heap[addr as int],
                None => !self.valid(addr),
            },
    {
        if addr < self.heap.len() {
            Some(&self.heap[addr])
        } else {
            None
        }
    }

    /// The built-in data of the object at `addr`, if it carries any.
    pub fn try_get_raw_data(&self, addr: MemoryAddress) -> (r: Option<&BuiltInTypeData>)
        ensures
            match r {
                Some(data) => self.valid(addr) && self.heap[addr as int].structure == (
                PyObjectStructure::Instance { builtin: Some(*data) }),
                None => !self.valid(addr) || !(self.heap[addr as int].structure
                    matches PyObjectStructure::Instance { builtin: Some(_) }),
            },
    {
        if addr < self.heap.len() {
            self.heap[addr].try_get_builtin()
        } else {
            None
        }
    }

    /// The built-in data of the object at `addr`. Only for objects that
    /// carry built-in data.
    pub fn get_raw_data_of_pyobj(&self, addr: MemoryAddress) -> (r: &BuiltInTypeData)
        requires
            self.valid(addr),
            self.heap[addr as int].structure matches PyObjectStructure::Instance {
                builtin: Some(_),
            },
        ensures
            self.heap[addr as int].structure == (PyObjectStructure::Instance {
                builtin: Some(*r),
            }),
    {
        match &self.heap[addr].structure {
            PyObjectStructure::Instance { builtin: Some(data) } => data,
            _ => vstd::pervasive::unreached(),
        }
    }

    /// Puts an object of the type at `type_addr` on the heap that carries
    /// `data` and has no attributes.
    pub fn allocate_type_byaddr_raw(&mut self, type_addr: MemoryAddress, data: BuiltInTypeData) -> (a:
        MemoryAddress)
        requires
            old(self).wf(),
            old(self).valid(type_addr),
            data.closed(old(self).heap.len() as int),
        ensures
            final(self).wf(),
            a == old(self).heap.len(),
            final(self).heap@.len() == old(self).heap.len() + 1,
            final(self).heap[a as int].type_addr == type_addr,
            final(self).heap[a as int].structure == (PyObjectStructure::Instance {
                builtin: Some(data),
            }),
            final(self).heap[a as int].attributes@ == Map::<Seq<char>, MemoryAddress>::empty(),
            forall|b: int| 0 <= b < old(self).heap.len() ==> final(self).heap[b] == old(self).heap[b],
            old(self).same_but_heap(*final(self)),
            old(self).before(*final(self)),
    {
        let object = PyObject {
            type_addr,
            structure: PyObjectStructure::Instance { builtin: Some(data) },
            attributes: NameMap::new(),
        };
        self.allocate(object)
    }

    /// Makes `exception` the pending exception.
    pub fn raise_exception(&mut self, exception: MemoryAddress)
        requires
            old(self).wf(),
            old(self).valid(exception),
        ensures
            final(self).wf(),
            final(self).pending_exception == Some(exception),
            final(self).heap == old(self).heap,
            final(self).frames == old(self).frames,
            final(self).globals == old(self).globals,
            final(self).modules == old(self).modules,
            final(self).builtin_type_addrs == old(self).builtin_type_addrs,
            final(self).returned == old(self).returned,
            final(self).stack == old(self).stack,
            final(self).locals == old(self).locals,
            final(self).steps_left == old(self).steps_left,
    {
        self.pending_exception = Some(exception);
    }

    /// Whether `later` is this machine once a new exception of the type at
    /// `kind` has been raised, which is at `a` and carries `message`: the
    /// exception is the one new object and is pending; nothing else has
    /// changed.
    pub open spec fn raises(
        self,
        later: VM,
        kind: MemoryAddress,
        a: MemoryAddress,
        message: Seq<char>,
    ) -> bool {
        &&& a == self.heap.len()
        &&& later.heap.len() == self.heap.len() + 1
        &&& later.pending_exception == Some(a)
        &&& later.heap[a as int].type_addr == kind
        &&& later.heap[a as int].structure matches PyObjectStructure::Instance {
            builtin: Some(BuiltInTypeData::String(text)),
        } && text@ == message
        &&& forall|b: int| 0 <= b < self.heap.len() ==> later.heap[b] == self.heap[b]
        &&& later.frames == self.frames
        &&& later.globals == self.globals
        &&& later.modules == self.modules
        &&& later.builtin_type_addrs == self.builtin_type_addrs
        &&& later.returned == self.returned
        &&& later.stack == self.stack
        &&& later.locals == self.locals
        &&& later.steps_left == self.steps_left
    }

    /// Raises a new exception of the type at `type_addr` that carries
    /// `message`, and returns its address.
    pub fn raise_new(&mut self, type_addr: MemoryAddress, message: String) -> (a: MemoryAddress)
        requires
            old(self).wf(),
            old(self).valid(type_addr),
        ensures
            final(self).wf(),
            old(self).raises(*final(self), type_addr, a, message@),
            a == old(self).heap.len(),
            final(self).heap.len() == old(self).heap.len() + 1,
            final(self).pending_exception == Some(a),
            final(self).heap[a as int].type_addr == type_addr,
            final(self).heap[a as int].structure == (PyObjectStructure::Instance {
                builtin: Some(BuiltInTypeData::String(message)),
            }),
            forall|b: int| 0 <= b < old(self).heap.len() ==> final(self).heap[b] == old(self).heap[b],
            final(self).frames == old(self).frames,
            final(self).globals == old(self).globals,
            final(self).modules == old(self).modules,
            final(self).builtin_type_addrs == old(self).builtin_type_addrs,
            final(self).returned == old(self).returned,
            final(self).stack == old(self).stack,
            final(self).locals == old(self).locals,
            old(self).before(*final(self)),
    {
        let a = self.allocate_type_byaddr_raw(type_addr, BuiltInTypeData::String(message));
        self.raise_exception(a);
        a
    }
}

/// Whether a floating-point number, given by its bits, is zero of either
/// sign.
pub open spec fn float_is_zero(bits: u64) -> bool {
    bits & 0x7fff_ffff_ffff_ffffu64 == 0
}

/// Whether built-in data counts as true: integers and numbers other than
/// zero, strings and lists that are not empty, and all other data.
pub open spec fn data_truthy(data: BuiltInTypeData) -> bool {
    match data {
        BuiltInTypeData::Int(i) => i != 0,
        BuiltInTypeData::Float(f) => !float_is_zero(f.0),
        BuiltInTypeData::String(s) => s@.len() > 0,
        BuiltInTypeData::List(items) => items.len() > 0,
        _ => true,
    }
}

impl VM {
    /// Whether the object at `a` counts as true by what it is: `None`,
    /// `False`, the integer 0, the number 0.0, the empty string and the
    /// empty list do not; every other object does.
    pub open spec fn truthy(self, a: MemoryAddress) -> bool
        recommends
            self.valid(a),
    {
        a != self.builtin_type_addrs.none_val && a != self.builtin_type_addrs.false_val
            && match self.heap[a as int].structure {
            PyObjectStructure::Instance { builtin: Some(data) } => data_truthy(data),
            _ => true,
        }
    }

    /// Whether the object at `a` counts as true by what it is.
    pub fn is_truthy(&self, a: MemoryAddress) -> (r: bool)
        requires
            self.valid(a),
        ensures
            r == self.truthy(a),
    {
        if a == self.builtin_type_addrs.none_val || a == self.builtin_type_addrs.false_val {
            return false;
        }
        match &self.heap[a].structure {
            PyObjectStructure::Instance { builtin: Some(data) } => match data {
                BuiltInTypeData::Int(i) => *i != 0,
                BuiltInTypeData::Float(f) => f.0 & 0x7fff_ffff_ffff_ffffu64 != 0,
                BuiltInTypeData::String(s) => !s.as_str().is_empty(),
                BuiltInTypeData::List(items) => items.len() > 0,
                _ => true,
            },
            _ => true,
        }
    }

    /// A machine with a root type, of which every object is an instance
    /// until the built-in types are registered, and an empty module for
    /// them.
    pub fn new() -> (r: VM)
        ensures
            r.wf(),
            r.frames.len() == 0,
            r.pending_exception is None,
            r.stack.len() == 0,
            r.modules@.contains_key(BUILTIN_MODULE@),
    {
        let root = PyObject {
            type_addr: 0,
            structure: PyObjectStructure::Type {
                name: "type".to_string(),
                functions: NameMap::new(),
                supertype: None,
            },
            attributes: NameMap::new(),
        };
        let builtins = PyObject {
            type_addr: 0,
            structure: PyObjectStructure::Module {
                name: BUILTIN_MODULE.to_string(),
                members: NameMap::new(),
            },
            attributes: NameMap::new(),
        };
        let mut heap: Vec<PyObject> = Vec::new();
        heap.push(root);
        heap.push(builtins);
        let mut modules = NameMap::new();
        modules.insert(BUILTIN_MODULE.to_string(), 1);
        let addresses = BuiltinTypeAddresses {
            type_type: 0,
            int: 0,
            float: 0,
            boolean: 0,
            string: 0,
            list: 0,
            list_iterator: 0,
            none_type: 0,
            function: 0,
            native_function: 0,
            bound_method: 0,
            module: 0,
            code_object: 0,
            none_val: 0,
            true_val: 0,
            false_val: 0,
            exception: 0,
            name_err: 0,
            attribute_err: 0,
            type_err: 0,
            index_err: 0,
            value_err: 0,
            zero_division_err: 0,
            stop_iteration: 0,
        };
        VM {
            heap,
            frames: Vec::new(),
            globals: NameMap::new(),
            modules,
            builtin_type_addrs: addresses,
            pending_exception: None,
            returned: None,
            stack: Vec::new(),
            locals: Vec::new(),
            steps_left: u64::MAX,
        }
    }

    /// Replaces the object at `addr` by `object`, which is the same object
    /// at a later time.
    pub fn replace(&mut self, addr: MemoryAddress, object: PyObject)
        requires
            old(self).wf(),
            old(self).valid(addr),
            object.closed(old(self).heap.len() as int),
            same_object(old(self).heap[addr as int], object),
        ensures
            final(self).wf(),
            final(self).heap@ == old(self).heap@.update(addr as int, object),
            old(self).same_but_heap(*final(self)),
            old(self).before(*final(self)),
    {
        proof {
            lemma_heap_update(self.heap@, addr as int, object);
        }
        self.heap.set(addr, object);
        proof {
            lemma_wf_evolves(*old(self), *self);
        }
    }

    /// Sets the attribute `name` of the object at `addr` to `value`.
    pub fn set_attribute(&mut self, addr: MemoryAddress, name: String, value: MemoryAddress)
        requires
            old(self).wf(),
            old(self).valid(addr),
            old(self).valid(value),
        ensures
            final(self).wf(),
            final(self).heap.len() == old(self).heap.len(),
            final(self).heap[addr as int].attributes@ == old(self).heap[addr as int].attributes@.insert(
                name@,
                value,
            ),
            final(self).heap[addr as int].type_addr == old(self).heap[addr as int].type_addr,
            final(self).heap[addr as int].structure == old(self).heap[addr as int].structure,
            forall|b: int|
                0 <= b < old(self).heap.len() && b != addr ==> final(self).heap[b] == old(self).heap[b],
            old(self).same_but_heap(*final(self)),
            old(self).before(*final(self)),
    {
        self.heap[addr].attributes.insert(name, value);
        proof {
            let object = self.heap[addr as int];
            assert(old(self).heap[addr as int].closed(self.heap.len() as int));
            assert(self.heap@ =~= old(self).heap@.update(addr as int, object));
            lemma_heap_update(old(self).heap@, addr as int, object);
            lemma_wf_evolves(*old(self), *self);
        }
    }
}

impl VM {
    /// What the module `module` holds under `name`, if there is such a
    /// module and it holds something under that name.
    pub open spec fn member_of(self, module: Seq<char>, name: Seq<char>) -> Option<MemoryAddress> {
        if self.modules@.contains_key(module) && self.valid(self.modules@[module]) {
            match self.heap[self.modules@[module] as int].structure {
                PyObjectStructure::Module { members, .. } => if members@.contains_key(name) {
                    Some(members@[name])
                } else {
                    None
                },
                _ => None,
            }
        } else {
            None
        }
    }

    /// What the module `module` holds under `name`.
    pub fn find_member(&self, module: &str, name: &str) -> (r: Option<MemoryAddress>)
        ensures
            r == self.member_of(module@, name@),
    {
        match self.modules.get(module) {
            Some(at) => {
                if at < self.heap.len() {
                    match &self.heap[at].structure {
                        PyObjectStructure::Module { members, .. } => members.get(name),
                        _ => None,
                    }
                } else {
                    None
                }
            },
            None => None,
        }
    }

    /// The name of the type of the object at `addr`; `object` if its type
    /// is not recorded as a type.
    pub open spec fn type_name_of(self, addr: MemoryAddress) -> Seq<char>
        recommends
            self.valid(addr),
    {
        let t = self.heap[addr as int].type_addr;
        if self.valid(t) {
            match self.heap[t as int].structure {
                PyObjectStructure::Type { name, .. } => name@,
                _ => "object"@,
            }
        } else {
            "object"@
        }
    }

    /// The name of the type of the object at `addr`.
    pub fn get_pyobj_type_name(&self, addr: MemoryAddress) -> (r: String)
        requires
            self.valid(addr),
        ensures
            r@ == self.type_name_of(addr),
    {
        let t = self.heap[addr].type_addr;
        if t < self.heap.len() {
            match &self.heap[t].structure {
                PyObjectStructure::Type { name, .. } => name.clone(),
                _ => "object".to_string(),
            }
        } else {
            "object".to_string()
        }
    }

    /// Enters `value` under `name` among the members of the module at
    /// `module`. Does nothing if the object there is no module.
    pub fn add_member(&mut self, module: MemoryAddress, name: String, value: MemoryAddress)
        requires
            old(self).wf(),
            old(self).valid(module),
            old(self).valid(value),
        ensures
            final(self).wf(),
            final(self).heap.len() == old(self).heap.len(),
            match old(self).heap[module as int].structure {
                PyObjectStructure::Module { members, name: module_name } => final(self).heap[module as int].structure matches PyObjectStructure::Module {
                    members: m,
                    name: n,
                } && n == module_name && m@ == members@.insert(name@, value),
                _ => final(self).heap[module as int] == old(self).heap[module as int],
            },
            final(self).heap[module as int].type_addr == old(self).heap[module as int].type_addr,
            final(self).heap[module as int].attributes == old(self).heap[module as int].attributes,
            forall|b: int|
                0 <= b < old(self).heap.len() && b != module ==> final(self).heap[b] == old(self).heap[b],
            old(self).same_but_heap(*final(self)),
            old(self).before(*final(self)),
    {
        match &mut self.heap[module].structure {
            PyObjectStructure::Module { members, .. } => {
                members.insert(name, value);
            },
            _ => {},
        }
        proof {
            let object = self.heap[module as int];
            assert(old(self).heap[module as int].closed(self.heap.len() as int));
            assert(self.heap@ =~= old(self).heap@.update(module as int, object));
            lemma_heap_update(old(self).heap@, module as int, object);
            lemma_wf_evolves(*old(self), *self);
        }
    }

    /// Enters `value` under `name` among the methods of the type at
    /// `type_addr`. Does nothing if the object there is no type.
    pub fn add_method(&mut self, type_addr: MemoryAddress, name: String, value: MemoryAddress)
        requires
            old(self).wf(),
            old(self).valid(type_addr),
            old(self).valid(value),
        ensures
            final(self).wf(),
            final(self).heap.len() == old(self).heap.len(),
            match old(self).heap[type_addr as int].structure {
                PyObjectStructure::Type { functions, name: class_name, supertype } => final(self).heap[type_addr as int].structure matches PyObjectStructure::Type {
                    functions: f,
                    name: n,
                    supertype: s,
                } && n == class_name && s == supertype && f@ == functions@.insert(name@, value),
                _ => final(self).heap[type_addr as int] == old(self).heap[type_addr as int],
            },
            final(self).heap[type_addr as int].type_addr == old(self).heap[type_addr as int].type_addr,
            final(self).heap[type_addr as int].attributes == old(self).heap[type_addr as int].attributes,
            forall|b: int|
                0 <= b < old(self).heap.len() && b != type_addr ==> final(self).heap[b] == old(self).heap[b],
            old(self).same_but_heap(*final(self)),
            old(self).before(*final(self)),
    {
        match &mut self.heap[type_addr].structure {
            PyObjectStructure::Type { functions, .. } => {
                functions.insert(name, value);
            },
            _ => {},
        }
        proof {
            let object = self.heap[type_addr as int];
            assert(old(self).heap[type_addr as int].closed(self.heap.len() as int));
            assert(self.heap@ =~= old(self).heap@.update(type_addr as int, object));
            lemma_heap_update(old(self).heap@, type_addr as int, object);
            lemma_wf_evolves(*old(self), *self);
        }
    }

    /// The address of the module `module`, which is made if there is none.
    pub fn module_address(&mut self, module: &str) -> (a: MemoryAddress)
        requires
            old(self).wf(),
        ensures
            final(self).wf(),
            final(self).valid(a),
            final(self).modules@.contains_key(module@),
            final(self).modules@[module@] == a,
            old(self).modules@.contains_key(module@) ==> *final(self) == *old(self),
            old(self).before(*final(self)),
            final(self).frames == old(self).frames,
            final(self).builtin_type_addrs == old(self).builtin_type_addrs,
            final(self).pending_exception == old(self).pending_exception,
            forall|b: int| 0 <= b < old(self).heap.len() ==> final(self).heap[b] == old(self).heap[b],
    {
        match self.modules.get(module) {
            Some(at) => {
                assert(self.modules.below(self.heap.len() as int));
                at
            },
            None => {
                let object = PyObject {
                    type_addr: self.builtin_type_addrs.module,
                    structure: PyObjectStructure::Module {
                        name: module.to_string(),
                        members: NameMap::new(),
                    },
                    attributes: NameMap::new(),
                };
                let a = self.allocate(object);
                self.modules.insert(module.to_string(), a);
                proof {
                    assert forall|i: int| 0 <= i < self.frames.len() implies frame_ok(
                        self.heap@,
                        #[trigger] self.frames[i],
                    ) by {}
                }
                a
            },
        }
    }

    /// Makes the type `name` in the module `module`, which is made too if
    /// there is none. The type has no methods yet. It extends `supertype`
    /// if one is given.
    pub fn create_type(&mut self, module: &str, name: &str, supertype: Option<MemoryAddress>) -> (a:
        MemoryAddress)
        requires
            old(self).wf(),
            supertype matches Some(s) ==> old(self).valid(s),
        ensures
            final(self).wf(),
            final(self).valid(a),
            a >= old(self).heap.len(),
            final(self).heap[a as int].type_addr == old(self).builtin_type_addrs.type_type,
            final(self).heap[a as int].structure matches PyObjectStructure::Type {
                name: n,
                functions,
                supertype: s,
            } && n@ == name@ && s == supertype && functions@ == Map::<
                Seq<char>,
                MemoryAddress,
            >::empty(),
            final(self).member_of(module@, name@) == Some(a) || !(final(self).heap[final(self).modules@[module@] as int].structure is Module),
            old(self).before(*final(self)),
            final(self).frames == old(self).frames,
            final(self).builtin_type_addrs == old(self).builtin_type_addrs,
            final(self).pending_exception == old(self).pending_exception,
            forall|b: int|
                0 <= b < old(self).heap.len() && !(old(self).heap[b].structure is Module) ==> final(self).heap[b] == old(self).heap[b],
    {
        let module_addr = self.module_address(module);
        let ghost mid = *self;
        let object = PyObject {
            type_addr: self.builtin_type_addrs.type_type,
            structure: PyObjectStructure::Type {
                name: name.to_string(),
                functions: NameMap::new(),
                supertype,
            },
            attributes: NameMap::new(),
        };
        let a = self.allocate(object);
        let ghost mid2 = *self;
        self.add_member(module_addr, name.to_string(), a);
        proof {
            crate::runtime::datamodel::lemma_evolves_trans(
                old(self).heap@,
                mid.heap@,
                mid2.heap@,
            );
            crate::runtime::datamodel::lemma_evolves_trans(
                old(self).heap@,
                mid2.heap@,
                self.heap@,
            );
        }
        a
    }

    /// Makes the native function `function` a method of the type
    /// `typename` of the module `module`, under the name `methodname`.
    /// Returns whether there is such a type.
    pub fn register_bounded_func(
        &mut self,
        module: &str,
        typename: &str,
        methodname: &str,
        function: NativeFunction,
    ) -> (r: bool)
        requires
            old(self).wf(),
        ensures
            final(self).wf(),
            r == (old(self).member_of(module@, typename@) is Some),
            !r ==> *final(self) == *old(self),
            r ==> {
                let t = old(self).member_of(module@, typename@).unwrap();
                &&& final(self).heap.len() == old(self).heap.len() + 1
                &&& final(self).heap[old(self).heap.len() as int].structure == (
                PyObjectStructure::NativeFunction { function })
                &&& (old(self).heap[t as int].structure matches PyObjectStructure::Type {
                    functions,
                    ..
                } ==> final(self).heap[t as int].structure matches PyObjectStructure::Type {
                    functions: f,
                    ..
                } && f@ == functions@.insert(methodname@, old(self).heap.len()))
            },
            old(self).before(*final(self)),
            final(self).frames == old(self).frames,
            final(self).builtin_type_addrs == old(self).builtin_type_addrs,
            final(self).pending_exception == old(self).pending_exception,
            final(self).modules == old(self).modules,
    {
        match self.find_member(module, typename) {
            Some(t) => {
                proof {
                    let m = self.modules@[module@];
                    assert(self.heap[m as int].closed(self.heap.len() as int));
                }
                let object = PyObject {
                    type_addr: self.builtin_type_addrs.native_function,
                    structure: PyObjectStructure::NativeFunction { function },
                    attributes: NameMap::new(),
                };
                let f = self.allocate(object);
                let ghost mid = *self;
                self.add_method(t, methodname.to_string(), f);
                proof {
                    crate::runtime::datamodel::lemma_evolves_trans(
                        old(self).heap@,
                        mid.heap@,
                        self.heap@,
                    );
                }
                true
            },
            None => false,
        }
    }

    /// Makes the native function `function` a member of the module
    /// `module`, which is made if there is none, under the name `name`.
    pub fn register_function(&mut self, module: &str, name: &str, function: NativeFunction) -> (a:
        MemoryAddress)
        requires
            old(self).wf(),
        ensures
            final(self).wf(),
            final(self).valid(a),
            final(self).heap[a as int].structure == (PyObjectStructure::NativeFunction { function }),
            final(self).member_of(module@, name@) == Some(a) || !(final(self).heap[final(self).modules@[module@] as int].structure is Module),
            old(self).before(*final(self)),
            final(self).frames == old(self).frames,
            final(self).builtin_type_addrs == old(self).builtin_type_addrs,
            final(self).pending_exception == old(self).pending_exception,
    {
        let module_addr = self.module_address(module);
        let ghost mid = *self;
        let object = PyObject {
            type_addr: self.builtin_type_addrs.native_function,
            structure: PyObjectStructure::NativeFunction { function },
            attributes: NameMap::new(),
        };
        let a = self.allocate(object);
        let ghost mid2 = *self;
        self.add_member(module_addr, name.to_string(), a);
        proof {
            crate::runtime::datamodel::lemma_evolves_trans(
                old(self).heap@,
                mid.heap@,
                mid2.heap@,
            );
            crate::runtime::datamodel::lemma_evolves_trans(
                old(self).heap@,
                mid2.heap@,
                self.heap@,
            );
        }
        a
    }
}

impl VM {
    /// The value at `offset` from the end of the value stack that the last
    /// run left behind: -1 is the value on top.
    pub fn get_stack_offset(&self, offset: isize) -> (r: MemoryAddress)
        requires
            self.wf(),
            -self.stack.len() <= offset < 0,
        ensures
            r == self.stack[self.stack.len() + offset],
            self.valid(r),
    {
        let back: usize = (-(offset + 1)) as usize;
        self.stack[self.stack.len() - 1 - back]
    }

    /// The value on top of the value stack that the last run left behind,
    /// if it left one.
    pub fn stack_top(&self) -> (r: Option<MemoryAddress>)
        requires
            self.wf(),
        ensures
            match r {
                Some(a) => self.stack.len() > 0 && a == self.stack@.last() && self.valid(a),
                None => self.stack.len() == 0,
            },
    {
        if self.stack.len() > 0 {
            Some(self.stack[self.stack.len() - 1])
        } else {
            None
        }
    }

    /// What the slot `slot` of the last top-level frame held when the
    /// frame was done.
    pub fn get_local(&self, slot: usize) -> (r: Option<MemoryAddress>)
        requires
            self.wf(),
        ensures
            r == if slot < self.locals.len() {
                self.locals[slot as int]
            } else {
                None
            },
            r matches Some(a) ==> self.valid(a),
    {
        if slot < self.locals.len() {
            self.locals[slot]
        } else {
            None
        }
    }

    /// What is said of the exception at `addr`: the name of its type, and
    /// behind a colon and a space the text that it carries, if it carries
    /// one.
    pub open spec fn diagnostic(self, addr: MemoryAddress) -> Seq<char>
        recommends
            self.valid(addr),
    {
        match self.heap[addr as int].structure {
            PyObjectStructure::Instance { builtin: Some(BuiltInTypeData::String(text)) } => self.type_name_of(
                addr,
            ) + ": "@ + text@,
            _ => self.type_name_of(addr),
        }
    }

    /// What is said of the exception at `addr`.
    pub fn exception_message(&self, addr: MemoryAddress) -> (r: String)
        requires
            self.valid(addr),
        ensures
            r@ == self.diagnostic(addr),
    {
        let kind = self.get_pyobj_type_name(addr);
        match &self.heap[addr].structure {
            PyObjectStructure::Instance { builtin: Some(BuiltInTypeData::String(text)) } => kind.concat(
                ": ",
            ).concat(text.as_str()),
            _ => kind,
        }
    }
}

/// An address stays the address of its object for as long as the machine
/// lives: at any later time it is still valid, and the object there has
/// the same type and the same shape.
pub proof fn lemma_address_stays(then: VM, later: VM, a: MemoryAddress)
    requires
        then.before(later),
        then.valid(a),
    ensures
        later.valid(a),
        same_object(then.heap[a as int], later.heap[a as int]),
{
}

/// The empty list, the empty string and zero do not count as true; `None`
/// and `False` do not either.
pub proof fn lemma_what_counts_as_false(vm: VM, a: MemoryAddress)
    requires
        vm.valid(a),
    ensures
        a == vm.builtin_type_addrs.none_val || a == vm.builtin_type_addrs.false_val
            ==> !vm.truthy(a),
        vm.heap[a as int].structure matches PyObjectStructure::Instance {
            builtin: Some(BuiltInTypeData::List(items)),
        } && items.len() == 0 ==> !vm.truthy(a),
        vm.heap[a as int].structure matches PyObjectStructure::Instance {
            builtin: Some(BuiltInTypeData::String(text)),
        } && text@.len() == 0 ==> !vm.truthy(a),
        vm.heap[a as int].structure matches PyObjectStructure::Instance {
            builtin: Some(BuiltInTypeData::Int(i)),
        } && i == 0 ==> !vm.truthy(a),
{
}

} // verus!
