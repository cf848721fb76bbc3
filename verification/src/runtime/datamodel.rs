//! Objects: what the heap holds, and what it means for the heap to be sound.

use vstd::prelude::*;
use crate::bytecode::closed::names_resolved;
use crate::bytecode::closed::unit_closed;
use crate::bytecode::program::CodeObject;
use crate::lexer::Float;
use crate::runtime::names::MemoryAddress;
use crate::runtime::names::NameMap;

verus! {

/// An operation on two integers.
#[derive(Debug, Clone, Copy, PartialEq, Eq, Structural)]
pub enum IntOperation {
    Add,
    Subtract,
    Multiply,
    Modulo,
    Equals,
    NotEquals,
    Less,
    Greater,
    LessEquals,
    GreaterEquals,
}

/// An operation on two truth values.
#[derive(Debug, Clone, Copy, PartialEq, Eq, Structural)]
pub enum BoolOperation {
    And,
    Or,
    Xor,
}

/// A function implemented by the machine itself or by its host.
#[derive(Debug, Clone, Copy, PartialEq, Eq, Structural)]
pub enum NativeFunction {
    ListConcat,
    ListExtend,
    ListAppend,
    ListEquals,
    ListNotEquals,
    ListRepr,
    ListStr,
    ListLen,
    ListGetItem,
    ListIter,
    ListIteratorNext,
    CodeBytecode,
    IntBinary(IntOperation),
    IntNegate,
    IntPositive,
    IntRepr,
    BoolBinary(BoolOperation),
    BoolNot,
    BoolRepr,
    StringConcat,
    StringEquals,
    StringNotEquals,
    StringRepr,
    StringStr,
    StringLen,
    NoneRepr,
    /// A function of the host, under the number the host knows it by.
    External(u64),
}

/// What an object of a built-in type carries.
#[derive(Debug)]
pub enum BuiltInTypeData {
    Int(i128),
    Float(Float),
    String(String),
    List(Vec<MemoryAddress>),
    /// A position in a list: the next item to hand out is `list[position]`.
    ListIterator { list: MemoryAddress, position: usize },
    /// A code object with one heap object for each of its constants.
    Code { code: CodeObject, consts: Vec<MemoryAddress> },
}

/// The shape of an object.
#[derive(Debug)]
pub enum PyObjectStructure {
    /// An instance of a class, which may carry built-in data.
    Instance { builtin: Option<BuiltInTypeData> },
    /// A type: its name, its methods, and the type it extends.
    Type { name: String, functions: NameMap, supertype: Option<MemoryAddress> },
    /// A function compiled from source: its code object on the heap, and
    /// the default values of its last parameters.
    Function { code: MemoryAddress, defaults: Vec<MemoryAddress> },
    NativeFunction { function: NativeFunction },
    /// A callable together with the object it is called on.
    BoundMethod { receiver: MemoryAddress, callable: MemoryAddress },
    Module { name: String, members: NameMap },
}

/// An object on the heap.
#[derive(Debug)]
pub struct PyObject {
    pub type_addr: MemoryAddress,
    pub structure: PyObjectStructure,
    pub attributes: NameMap,
}

/// The arguments of a call to a native function.
#[derive(Debug)]
pub struct CallParams {
    pub func_name: Option<String>,
    pub bound_pyobj: Option<MemoryAddress>,
    pub params: Vec<MemoryAddress>,
}

/// Whether every address in `s` is below `n`.
pub open spec fn all_below(s: Seq<MemoryAddress>, n: int) -> bool {
    forall|i: int| 0 <= i < s.len() ==> #[trigger] s[i] < n
}

/// Whether every address that `s` holds is below `n`.
pub open spec fn set_below(s: Seq<Option<MemoryAddress>>, n: int) -> bool {
    forall|i: int| 0 <= i < s.len() ==> ((#[trigger] s[i]) matches Some(a) ==> a < n)
}

/// Whether `a`, if given, is below `n`.
pub open spec fn option_below(a: Option<MemoryAddress>, n: int) -> bool {
    a matches Some(x) ==> x < n
}

impl BuiltInTypeData {
    /// Whether every address in the data is below `n`, and code carried is
    /// well formed: its jumps, constant indices and name slots stay inside
    /// it, no name is left unresolved, each constant has its object, and
    /// each parameter has a slot.
    pub open spec fn closed(self, n: int) -> bool {
        match self {
            BuiltInTypeData::List(items) => all_below(items@, n),
            BuiltInTypeData::ListIterator { list, .. } => list < n,
            BuiltInTypeData::Code { code, consts } => {
                &&& all_below(consts@, n)
                &&& consts.len() == code.consts.len()
                &&& code.params.len() <= code.names.len()
                &&& unit_closed(code.deep_view())
                &&& names_resolved(code.deep_view().instructions)
            },
            _ => true,
        }
    }

    /// The integer carried. Only for data that is an integer.
    pub fn take_int(&self) -> (r: i128)
        requires
            self is Int,
        ensures
            r == self->Int_0,
    {
        match self {
            BuiltInTypeData::Int(i) => *i,
            _ => vstd::pervasive::unreached(),
        }
    }

    /// The number carried. Only for data that is a floating-point number.
    pub fn take_float(&self) -> (r: Float)
        requires
            self is Float,
        ensures
            r == self->Float_0,
    {
        match self {
            BuiltInTypeData::Float(f) => *f,
            _ => vstd::pervasive::unreached(),
        }
    }

    /// The text carried. Only for data that is a string.
    pub fn take_string(&self) -> (r: &String)
        requires
            self is String,
        ensures
            *r == self->String_0,
    {
        match self {
            BuiltInTypeData::String(s) => s,
            _ => vstd::pervasive::unreached(),
        }
    }

    /// The items carried. Only for data that is a list.
    pub fn take_list(&self) -> (r: &Vec<MemoryAddress>)
        requires
            self is List,
        ensures
            *r == self->List_0,
    {
        match self {
            BuiltInTypeData::List(items) => items,
            _ => vstd::pervasive::unreached(),
        }
    }
}

impl PyObjectStructure {
    /// Whether every address in the structure is below `n`.
    pub open spec fn closed(self, n: int) -> bool {
        match self {
            PyObjectStructure::Instance { builtin: Some(data) } => data.closed(n),
            PyObjectStructure::Instance { builtin: None } => true,
            PyObjectStructure::Type { functions, supertype, .. } => functions.below(n)
                && option_below(supertype, n),
            PyObjectStructure::Function { code, defaults } => code < n && all_below(defaults@, n),
            PyObjectStructure::NativeFunction { .. } => true,
            PyObjectStructure::BoundMethod { receiver, callable } => receiver < n && callable < n,
            PyObjectStructure::Module { members, .. } => members.below(n),
        }
    }

    /// Whether an object of this structure can be called.
    pub open spec fn callable(self) -> bool {
        self is Function || self is NativeFunction || self is BoundMethod || self is Type
    }

    /// Whether the structure is that of a code object.
    pub open spec fn is_code(self) -> bool {
        self matches PyObjectStructure::Instance { builtin: Some(BuiltInTypeData::Code { .. }) }
    }
}

impl PyObject {
    /// Whether every address in the object is below `n`.
    pub open spec fn closed(self, n: int) -> bool {
        self.type_addr < n && self.attributes.below(n) && self.structure.closed(n)
    }

    /// The built-in data of the object, if it carries any.
    pub fn try_get_builtin(&self) -> (r: Option<&BuiltInTypeData>)
        ensures
            match r {
                Some(data) => self.structure == (PyObjectStructure::Instance {
                    builtin: Some(*data),
                }),
                None => !(self.structure matches PyObjectStructure::Instance { builtin: Some(_) }),
            },
    {
        match &self.structure {
            PyObjectStructure::Instance { builtin: Some(data) } => Some(data),
            _ => None,
        }
    }
}

/// A sound heap: every address held by an object is the address of an
/// object, and a type extends only a type that was made before it.
pub open spec fn heap_ok(heap: Seq<PyObject>) -> bool {
    forall|a: int|
        0 <= a < heap.len() ==> (#[trigger] heap[a]).closed(heap.len() as int) && (
        heap[a].structure matches PyObjectStructure::Type { supertype: Some(s), .. } ==> s < a)
}

/// Whether `new` is the object `old` at a later time: its type and its
/// shape are the same, and what can change is its attributes, the items of
/// a list, the position of an iterator, the methods of a type and the
/// members of a module.
pub open spec fn same_object(old: PyObject, new: PyObject) -> bool {
    new.type_addr == old.type_addr && match old.structure {
        PyObjectStructure::Instance { builtin: Some(BuiltInTypeData::List(_)) } => new.structure
            matches PyObjectStructure::Instance { builtin: Some(BuiltInTypeData::List(_)) },
        PyObjectStructure::Instance {
            builtin: Some(BuiltInTypeData::ListIterator { list, .. }),
        } => new.structure matches PyObjectStructure::Instance {
            builtin: Some(BuiltInTypeData::ListIterator { list: l, .. }),
        } && l == list,
        PyObjectStructure::Type { name, supertype, .. } => new.structure
            matches PyObjectStructure::Type { name: n, supertype: s, .. } && n == name && s
            == supertype,
        PyObjectStructure::Module { name, .. } => new.structure matches PyObjectStructure::Module {
            name: n,
            ..
        } && n == name,
        _ => new.structure == old.structure,
    }
}

/// Whether the heap `new` is the heap `old` at a later time: every object
/// of `old` is still there, at its address, as the same object.
pub open spec fn evolves(old: Seq<PyObject>, new: Seq<PyObject>) -> bool {
    old.len() <= new.len() && forall|a: int|
        0 <= a < old.len() ==> same_object(#[trigger] old[a], new[a])
}

/// Later times come in order.
pub proof fn lemma_evolves_trans(a: Seq<PyObject>, b: Seq<PyObject>, c: Seq<PyObject>)
    requires
        evolves(a, b),
        evolves(b, c),
    ensures
        evolves(a, c),
{
    assert forall|i: int| 0 <= i < a.len() implies same_object(#[trigger] a[i], c[i]) by {
        assert(same_object(a[i], b[i]));
        assert(same_object(b[i], c[i]));
    }
}

} // verus!
