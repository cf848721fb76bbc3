//! Loading code: each constant of a unit gets its object.

use vstd::prelude::*;
use crate::bytecode::program::CodeObject;
use crate::bytecode::program::Const;
use crate::bytecode::support::code_is_runnable;
use crate::bytecode::support::loadable;
use crate::runtime::datamodel::all_below;
use crate::runtime::datamodel::lemma_evolves_trans;
use crate::runtime::datamodel::BuiltInTypeData;
use crate::runtime::datamodel::PyObjectStructure;
use crate::runtime::names::MemoryAddress;
use crate::runtime::vm::VM;

verus! {

impl VM {
    /// What loading leaves alone: everything but the heap, which only
    /// gains objects.
    pub open spec fn grown_to(self, later: VM) -> bool {
        &&& later.wf()
        &&& self.before(later)
        &&& self.same_but_heap(later)
        &&& forall|b: int| 0 <= b < self.heap.len() ==> later.heap[b] == self.heap[b]
    }

    /// The object of the constant `c`: the singletons for `None` and the
    /// truth values, a new object for any other constant. There is none for
    /// a unit that cannot be loaded.
    pub fn materialize(&mut self, c: &Const) -> (r: Option<MemoryAddress>)
        requires
            old(self).wf(),
        ensures
            old(self).grown_to(*final(self)),
            r is Some <==> (*c matches Const::CodeObject(inner) ==> loadable(inner)),
            r matches Some(a) ==> final(self).valid(a) && match *c {
                Const::Integer(i) => a >= old(self).heap.len() && final(self).heap[a as int].structure
                    == (PyObjectStructure::Instance { builtin: Some(BuiltInTypeData::Int(i)) })
                    && final(self).heap[a as int].type_addr == old(self).builtin_type_addrs.int,
                Const::Float(f) => a >= old(self).heap.len() && final(self).heap[a as int].structure
                    == (PyObjectStructure::Instance { builtin: Some(BuiltInTypeData::Float(f)) })
                    && final(self).heap[a as int].type_addr == old(self).builtin_type_addrs.float,
                Const::Boolean(b) => a == if b {
                    old(self).builtin_type_addrs.true_val
                } else {
                    old(self).builtin_type_addrs.false_val
                },
                Const::String(s) => a >= old(self).heap.len() && (final(self).heap[a as int].structure matches PyObjectStructure::Instance {
                    builtin: Some(BuiltInTypeData::String(t)),
                } && t@ == s@) && final(self).heap[a as int].type_addr == old(self).builtin_type_addrs.string,
                Const::NoneValue => a == old(self).builtin_type_addrs.none_val,
                Const::CodeObject(inner) => final(self).heap[a as int].structure
                    matches PyObjectStructure::Instance {
                    builtin: Some(BuiltInTypeData::Code { code, .. }),
                } && code.deep_view() == inner.deep_view(),
            },
        decreases *c, 0nat,
    {
        match c {
            Const::Integer(i) => Some(
                self.allocate_type_byaddr_raw(self.builtin_type_addrs.int, BuiltInTypeData::Int(*i)),
            ),
            Const::Float(f) => Some(
                self.allocate_type_byaddr_raw(
                    self.builtin_type_addrs.float,
                    BuiltInTypeData::Float(*f),
                ),
            ),
            Const::Boolean(b) => if *b {
                Some(self.builtin_type_addrs.true_val)
            } else {
                Some(self.builtin_type_addrs.false_val)
            },
            Const::String(s) => Some(
                self.allocate_type_byaddr_raw(
                    self.builtin_type_addrs.string,
                    BuiltInTypeData::String(s.clone()),
                ),
            ),
            Const::NoneValue => Some(self.builtin_type_addrs.none_val),
            Const::CodeObject(inner) => self.load_code(inner),
        }
    }

    /// Puts the unit `code` on the heap, with one object for each of its
    /// constants, and units among them loaded in the same way. Returns the
    /// unit's address, or nothing if the unit cannot be loaded.
    pub fn load_code(&mut self, code: &CodeObject) -> (r: Option<MemoryAddress>)
        requires
            old(self).wf(),
        ensures
            old(self).grown_to(*final(self)),
            r is Some <==> loadable(*code),
            r matches Some(a) ==> final(self).valid(a) && a >= old(self).heap.len() && final(self).heap[a as int].type_addr == old(self).builtin_type_addrs.code_object && (final(self).heap[a as int].structure matches PyObjectStructure::Instance {
                builtin: Some(BuiltInTypeData::Code { code: loaded, .. }),
            } && loaded.deep_view() == code.deep_view()),
        decreases *code, 1nat,
    {
        if !code_is_runnable(code) {
            return None;
        }
        let mut addresses: Vec<MemoryAddress> = Vec::new();
        let mut k: usize = 0;
        while k < code.consts.len()
            invariant
                k <= code.consts.len(),
                old(self).grown_to(*self),
                addresses.len() == k,
                all_below(addresses@, self.heap.len() as int),
                forall|j: int|
                    0 <= j < k ==> ((#[trigger] code.consts[j]) matches Const::CodeObject(inner)
                        ==> loadable(inner)),
            decreases code.consts.len() - k,
        {
            let ghost mid = *self;
            match self.materialize(&code.consts[k]) {
                Some(a) => {
                    addresses.push(a);
                },
                None => {
                    proof {
                        lemma_evolves_trans(old(self).heap@, mid.heap@, self.heap@);
                    }
                    return None;
                },
            }
            proof {
                lemma_evolves_trans(old(self).heap@, mid.heap@, self.heap@);
            }
            k += 1;
        }
        let ghost mid = *self;
        let copy = code.clone();
        assert(copy.deep_view().consts.len() == copy.consts.len());
        assert(code.deep_view().consts.len() == code.consts.len());
        assert(copy.deep_view().names.len() == copy.names.len());
        assert(code.deep_view().names.len() == code.names.len());
        assert(copy.deep_view().params.len() == copy.params.len());
        assert(code.deep_view().params.len() == code.params.len());
        let a = self.allocate_type_byaddr_raw(
            self.builtin_type_addrs.code_object,
            BuiltInTypeData::Code { code: copy, consts: addresses },
        );
        proof {
            lemma_evolves_trans(old(self).heap@, mid.heap@, self.heap@);
        }
        Some(a)
    }
}

} // verus!
