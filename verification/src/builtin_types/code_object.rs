//! The type of code objects.

use vstd::prelude::*;
use crate::builtin_types::registry::add_native_method;
use crate::builtin_types::registry::has_native;
use crate::bytecode::program::Instruction;
use crate::bytecode::program::InstructionView;
use crate::runtime::datamodel::BuiltInTypeData;
use crate::runtime::datamodel::CallParams;
use crate::runtime::datamodel::NativeFunction;
use crate::runtime::datamodel::PyObjectStructure;
use crate::runtime::names::MemoryAddress;
use crate::runtime::vm::code_at;
use crate::runtime::vm::BUILTIN_MODULE;
use crate::runtime::vm::VM;

verus! {

/// The text by which an instruction is shown: its name, followed by what
/// it carries.
pub uninterp spec fn instruction_shown(i: InstructionView) -> Seq<char>;

/// The text by which an instruction is shown.
///
/// Formats the instruction with `{:?}`, that is by the `Debug` that is
/// derived for it, which writes the variant's name and its fields. The
/// contract gives that text a name: it depends on the instruction's value
/// alone.
#[verifier::external_body]
fn show_instruction(i: &Instruction) -> (r: String)
    ensures
        r@ == instruction_shown(i.deep_view()),
{
    format!("{:?}", i)
}

/// The first `n` of the instructions `code`, each shown on a line of its
/// own.
pub open spec fn listing(code: Seq<InstructionView>, n: nat) -> Seq<char>
    decreases n,
{
    if n == 0 || n > code.len() {
        Seq::empty()
    } else {
        listing(code, (n - 1) as nat) + instruction_shown(code[n - 1]) + seq!['\n']
    }
}

/// The instructions `code`, each shown on a line of its own.
pub fn list_instructions(code: &Vec<Instruction>) -> (r: String)
    ensures
        r@ == listing(code.deep_view(), code.len() as nat),
{
    let ghost shown = code.deep_view();
    let mut text = String::new();
    let mut i: usize = 0;
    while i < code.len()
        invariant
            i <= code.len(),
            shown == code.deep_view(),
            text@ == listing(shown, i as nat),
        decreases code.len() - i,
    {
        assert(shown[i as int] == code[i as int].deep_view());
        let line = show_instruction(&code[i]);
        let ghost before = text@;
        text = text.concat(line.as_str()).concat("\n");
        proof {
            reveal_strlit("\n");
            assert(text@ =~= before + instruction_shown(shown[i as int]) + seq!['\n']);
        }
        i += 1;
    }
    text
}

impl VM {
    /// The address of the code object of the object at `a`: of the
    /// function's code if it is a function, `a` itself if it is a code
    /// object.
    pub open spec fn code_of(self, a: MemoryAddress) -> Option<MemoryAddress> {
        match self.heap[a as int].structure {
            PyObjectStructure::Function { code, .. } => if self.heap[code as int].structure.is_code() {
                Some(code)
            } else {
                None
            },
            PyObjectStructure::Instance { builtin: Some(BuiltInTypeData::Code { .. }) } => Some(a),
            _ => None,
        }
    }

    /// The instructions of the function or code object at `a`, shown.
    pub fn get_function_bytecode(&self, a: MemoryAddress) -> (r: Option<String>)
        requires
            self.wf(),
            self.valid(a),
        ensures
            match r {
                Some(text) => self.code_of(a) matches Some(code) && text@ == listing(
                    code_at(self.heap@, code).instructions.deep_view(),
                    code_at(self.heap@, code).instructions.len() as nat,
                ),
                None => self.code_of(a) is None,
            },
    {
        assert(self.heap[a as int].closed(self.heap.len() as int));
        let code = match &self.heap[a].structure {
            PyObjectStructure::Function { code, .. } => *code,
            PyObjectStructure::Instance { builtin: Some(BuiltInTypeData::Code { .. }) } => a,
            _ => {
                return None;
            },
        };
        match &self.heap[code].structure {
            PyObjectStructure::Instance { builtin: Some(BuiltInTypeData::Code { code: unit, .. }) } => Some(
                list_instructions(&unit.instructions),
            ),
            _ => None,
        }
    }
}

/// What `__bytecode__` leaves: the result `r` and the machine `after` of a
/// call with `params` on the machine `before`.
pub open spec fn get_bytecode_outcome(
    before: VM,
    params: CallParams,
    r: MemoryAddress,
    after: VM,
) -> bool {
    &&& if params.is_method_call(0) && before.code_of(params.receiver()) is Some {
        let code = before.code_of(params.receiver()).unwrap();
        &&& r == before.heap.len()
        &&& before.grown_to(after)
        &&& after.text_at(r) == Some(
            listing(
                code_at(before.heap@, code).instructions.deep_view(),
                code_at(before.heap@, code).instructions.len() as nat,
            ),
        )
        &&& after.heap[r as int].type_addr == before.builtin_type_addrs.string
    } else {
        before.raises(after, before.builtin_type_addrs.type_err, r, "__bytecode__ takes a function or a code object"@)
    }
}

/// `__bytecode__`: a new string that shows the instructions of the
/// receiver, a function or a code object, one on a line. Raises a
/// `TypeError` for any other receiver.
pub fn get_bytecode(vm: &mut VM, params: CallParams) -> (r: MemoryAddress)
    requires
        old(vm).wf(),
        params.valid_in(*old(vm)),
    ensures
        old(vm).after_call(*final(vm)),
        final(vm).valid(r),
        get_bytecode_outcome(*old(vm), params, r, *final(vm)),
{
    let text = match params.method_receiver(0) {
        Some(receiver) => vm.get_function_bytecode(receiver),
        None => None,
    };
    match text {
        Some(text) => vm.new_string(text),
        None => vm.type_error("__bytecode__ takes a function or a code object"),
    }
}

/// Makes the type of code objects, with its method `__bytecode__`, and
/// records it among the well-known addresses.
pub fn register_codeobject_type(vm: &mut VM) -> (r: MemoryAddress)
    requires
        old(vm).wf(),
    ensures
        old(vm).registered_to(*final(vm)),
        final(vm).valid(r),
        final(vm).builtin_type_addrs == (crate::runtime::vm::BuiltinTypeAddresses {
            code_object: r,
            ..old(vm).builtin_type_addrs
        }),
        final(vm).heap[r as int].structure matches PyObjectStructure::Type { name, supertype, .. }
            && name@ == "code object"@ && supertype is None,
        has_native(*final(vm), r, "__bytecode__"@, NativeFunction::CodeBytecode),
{
    let codeobject_type = vm.create_type(BUILTIN_MODULE, "code object", None);
    let ghost made = *vm;
    add_native_method(vm, codeobject_type, "__bytecode__", NativeFunction::CodeBytecode);
    proof {
        crate::runtime::datamodel::lemma_evolves_trans(old(vm).heap@, made.heap@, vm.heap@);
    }
    vm.builtin_type_addrs.code_object = codeobject_type;
    codeobject_type
}

} // verus!
