use vstd::prelude::*;
use crate::lexer::Float;

verus! {

/// One opcode of the stack machine.
#[derive(Debug, PartialEq)]
pub enum Instruction {
    LoadConst(usize),
    LoadName(usize),
    LoadGlobal(usize),
    StoreName(usize),
    LoadAttr(String),
    StoreAttr(usize),
    IndexAccess,
    BuildList { number_elements: usize },
    BinaryAdd,
    BinarySubtract,
    BinaryMultiply,
    BinaryTrueDivision,
    BinaryModulus,
    CompareEquals,
    CompareNotEquals,
    CompareLessThan,
    CompareGreaterThan,
    CompareLessEquals,
    CompareGreaterEquals,
    CallFunction { number_arguments: usize },
    MakeFunction(bool),
    MakeClass,
    JumpUnconditional(usize),
    JumpIfFalseAndPopStack(usize),
    ForIter(usize),
    Raise,
    ReturnValue,
    PopTop,
    UnresolvedLoadName(String),
    UnresolvedStoreName(String),
    UnresolvedStoreAttr(String),
    UnresolvedBreak,
}

/// The mathematical value of an [`Instruction`]: names are character
/// sequences, indices and jump targets are integers.
pub enum InstructionView {
    LoadConst(int),
    LoadName(int),
    LoadGlobal(int),
    StoreName(int),
    LoadAttr(Seq<char>),
    StoreAttr(int),
    IndexAccess,
    BuildList { number_elements: int },
    BinaryAdd,
    BinarySubtract,
    BinaryMultiply,
    BinaryTrueDivision,
    BinaryModulus,
    CompareEquals,
    CompareNotEquals,
    CompareLessThan,
    CompareGreaterThan,
    CompareLessEquals,
    CompareGreaterEquals,
    CallFunction { number_arguments: int },
    MakeFunction(bool),
    MakeClass,
    JumpUnconditional(int),
    JumpIfFalseAndPopStack(int),
    ForIter(int),
    Raise,
    ReturnValue,
    PopTop,
    UnresolvedLoadName(Seq<char>),
    UnresolvedStoreName(Seq<char>),
    UnresolvedStoreAttr(Seq<char>),
    UnresolvedBreak,
}

impl DeepView for Instruction {
    type V = InstructionView;

    open spec fn deep_view(&self) -> InstructionView {
        match self {
            Instruction::LoadConst(i) => InstructionView::LoadConst(*i as int),
            Instruction::LoadName(i) => InstructionView::LoadName(*i as int),
            Instruction::LoadGlobal(i) => InstructionView::LoadGlobal(*i as int),
            Instruction::StoreName(i) => InstructionView::StoreName(*i as int),
            Instruction::LoadAttr(s) => InstructionView::LoadAttr(s@),
            Instruction::StoreAttr(i) => InstructionView::StoreAttr(*i as int),
            Instruction::IndexAccess => InstructionView::IndexAccess,
            Instruction::BuildList { number_elements } => InstructionView::BuildList {
                number_elements: *number_elements as int,
            },
            Instruction::BinaryAdd => InstructionView::BinaryAdd,
            Instruction::BinarySubtract => InstructionView::BinarySubtract,
            Instruction::BinaryMultiply => InstructionView::BinaryMultiply,
            Instruction::BinaryTrueDivision => InstructionView::BinaryTrueDivision,
            Instruction::BinaryModulus => InstructionView::BinaryModulus,
            Instruction::CompareEquals => InstructionView::CompareEquals,
            Instruction::CompareNotEquals => InstructionView::CompareNotEquals,
            Instruction::CompareLessThan => InstructionView::CompareLessThan,
            Instruction::CompareGreaterThan => InstructionView::CompareGreaterThan,
            Instruction::CompareLessEquals => InstructionView::CompareLessEquals,
            Instruction::CompareGreaterEquals => InstructionView::CompareGreaterEquals,
            Instruction::CallFunction { number_arguments } => InstructionView::CallFunction {
                number_arguments: *number_arguments as int,
            },
            Instruction::MakeFunction(b) => InstructionView::MakeFunction(*b),
            Instruction::MakeClass => InstructionView::MakeClass,
            Instruction::JumpUnconditional(t) => InstructionView::JumpUnconditional(*t as int),
            Instruction::JumpIfFalseAndPopStack(t) => InstructionView::JumpIfFalseAndPopStack(
                *t as int,
            ),
            Instruction::ForIter(t) => InstructionView::ForIter(*t as int),
            Instruction::Raise => InstructionView::Raise,
            Instruction::ReturnValue => InstructionView::ReturnValue,
            Instruction::PopTop => InstructionView::PopTop,
            Instruction::UnresolvedLoadName(s) => InstructionView::UnresolvedLoadName(s@),
            Instruction::UnresolvedStoreName(s) => InstructionView::UnresolvedStoreName(s@),
            Instruction::UnresolvedStoreAttr(s) => InstructionView::UnresolvedStoreAttr(s@),
            Instruction::UnresolvedBreak => InstructionView::UnresolvedBreak,
        }
    }
}

/// A compile-time constant.
#[derive(Debug, PartialEq)]
pub enum Const {
    Integer(i128),
    Float(Float),
    Boolean(bool),
    String(String),
    NoneValue,
    CodeObject(CodeObject),
}

/// A compiled unit: instructions with the tables they index.
#[derive(Debug, PartialEq)]
pub struct CodeObject {
    pub instructions: Vec<Instruction>,
    pub names: Vec<String>,
    pub params: Vec<String>,
    pub consts: Vec<Const>,
    pub main: bool,
    pub objname: String,
}

/// The mathematical value of a [`Const`].
pub enum ConstView {
    Integer(i128),
    Float(u64),
    Boolean(bool),
    String(Seq<char>),
    NoneValue,
    CodeObject(CodeObjectView),
}

/// The mathematical value of a [`CodeObject`].
pub struct CodeObjectView {
    pub instructions: Seq<InstructionView>,
    pub names: Seq<Seq<char>>,
    pub params: Seq<Seq<char>>,
    pub consts: Seq<ConstView>,
    pub main: bool,
    pub objname: Seq<char>,
}

/// The value of a constant.
pub open spec fn const_view(c: Const) -> ConstView
    decreases c,
{
    match c {
        Const::Integer(i) => ConstView::Integer(i),
        Const::Float(f) => ConstView::Float(f.0),
        Const::Boolean(b) => ConstView::Boolean(b),
        Const::String(s) => ConstView::String(s@),
        Const::NoneValue => ConstView::NoneValue,
        Const::CodeObject(code) => ConstView::CodeObject(code_view(code)),
    }
}

/// The value of a code object.
pub open spec fn code_view(code: CodeObject) -> CodeObjectView
    decreases code,
{
    CodeObjectView {
        instructions: code.instructions.deep_view(),
        names: code.names.deep_view(),
        params: code.params.deep_view(),
        consts: Seq::new(
            code.consts.len() as nat,
            |i: int|
                if 0 <= i < code.consts.len() {
                    const_view(code.consts[i])
                } else {
                    ConstView::NoneValue
                },
        ),
        main: code.main,
        objname: code.objname@,
    }
}

impl DeepView for Const {
    type V = ConstView;

    open spec fn deep_view(&self) -> ConstView {
        const_view(*self)
    }
}

impl DeepView for CodeObject {
    type V = CodeObjectView;

    open spec fn deep_view(&self) -> CodeObjectView {
        code_view(*self)
    }
}

impl Instruction {
    /// A copy with the same value.
    pub fn clone(&self) -> (r: Instruction)
        ensures
            r.deep_view() == self.deep_view(),
    {
        match self {
            Instruction::LoadConst(i) => Instruction::LoadConst(*i),
            Instruction::LoadName(i) => Instruction::LoadName(*i),
            Instruction::LoadGlobal(i) => Instruction::LoadGlobal(*i),
            Instruction::StoreName(i) => Instruction::StoreName(*i),
            Instruction::LoadAttr(s) => Instruction::LoadAttr(s.clone()),
            Instruction::StoreAttr(i) => Instruction::StoreAttr(*i),
            Instruction::IndexAccess => Instruction::IndexAccess,
            Instruction::BuildList { number_elements } => Instruction::BuildList {
                number_elements: *number_elements,
            },
            Instruction::BinaryAdd => Instruction::BinaryAdd,
            Instruction::BinarySubtract => Instruction::BinarySubtract,
            Instruction::BinaryMultiply => Instruction::BinaryMultiply,
            Instruction::BinaryTrueDivision => Instruction::BinaryTrueDivision,
            Instruction::BinaryModulus => Instruction::BinaryModulus,
            Instruction::CompareEquals => Instruction::CompareEquals,
            Instruction::CompareNotEquals => Instruction::CompareNotEquals,
            Instruction::CompareLessThan => Instruction::CompareLessThan,
            Instruction::CompareGreaterThan => Instruction::CompareGreaterThan,
            Instruction::CompareLessEquals => Instruction::CompareLessEquals,
            Instruction::CompareGreaterEquals => Instruction::CompareGreaterEquals,
            Instruction::CallFunction { number_arguments } => Instruction::CallFunction {
                number_arguments: *number_arguments,
            },
            Instruction::MakeFunction(b) => Instruction::MakeFunction(*b),
            Instruction::MakeClass => Instruction::MakeClass,
            Instruction::JumpUnconditional(t) => Instruction::JumpUnconditional(*t),
            Instruction::JumpIfFalseAndPopStack(t) => Instruction::JumpIfFalseAndPopStack(*t),
            Instruction::ForIter(t) => Instruction::ForIter(*t),
            Instruction::Raise => Instruction::Raise,
            Instruction::ReturnValue => Instruction::ReturnValue,
            Instruction::PopTop => Instruction::PopTop,
            Instruction::UnresolvedLoadName(s) => Instruction::UnresolvedLoadName(s.clone()),
            Instruction::UnresolvedStoreName(s) => Instruction::UnresolvedStoreName(s.clone()),
            Instruction::UnresolvedStoreAttr(s) => Instruction::UnresolvedStoreAttr(s.clone()),
            Instruction::UnresolvedBreak => Instruction::UnresolvedBreak,
        }
    }

    /// Whether two instructions have the same value.
    pub fn equals(&self, other: &Instruction) -> (r: bool)
        ensures
            r == (self.deep_view() == other.deep_view()),
    {
        match (self, other) {
            (Instruction::LoadConst(a), Instruction::LoadConst(b)) => *a == *b,
            (Instruction::LoadName(a), Instruction::LoadName(b)) => *a == *b,
            (Instruction::LoadGlobal(a), Instruction::LoadGlobal(b)) => *a == *b,
            (Instruction::StoreName(a), Instruction::StoreName(b)) => *a == *b,
            (Instruction::LoadAttr(a), Instruction::LoadAttr(b)) => *a == *b,
            (Instruction::StoreAttr(a), Instruction::StoreAttr(b)) => *a == *b,
            (Instruction::IndexAccess, Instruction::IndexAccess) => true,
            (
                Instruction::BuildList { number_elements: a },
                Instruction::BuildList { number_elements: b },
            ) => *a == *b,
            (Instruction::BinaryAdd, Instruction::BinaryAdd) => true,
            (Instruction::BinarySubtract, Instruction::BinarySubtract) => true,
            (Instruction::BinaryMultiply, Instruction::BinaryMultiply) => true,
            (Instruction::BinaryTrueDivision, Instruction::BinaryTrueDivision) => true,
            (Instruction::BinaryModulus, Instruction::BinaryModulus) => true,
            (Instruction::CompareEquals, Instruction::CompareEquals) => true,
            (Instruction::CompareNotEquals, Instruction::CompareNotEquals) => true,
            (Instruction::CompareLessThan, Instruction::CompareLessThan) => true,
            (Instruction::CompareGreaterThan, Instruction::CompareGreaterThan) => true,
            (Instruction::CompareLessEquals, Instruction::CompareLessEquals) => true,
            (Instruction::CompareGreaterEquals, Instruction::CompareGreaterEquals) => true,
            (
                Instruction::CallFunction { number_arguments: a },
                Instruction::CallFunction { number_arguments: b },
            ) => *a == *b,
            (Instruction::MakeFunction(a), Instruction::MakeFunction(b)) => *a == *b,
            (Instruction::MakeClass, Instruction::MakeClass) => true,
            (Instruction::JumpUnconditional(a), Instruction::JumpUnconditional(b)) => *a == *b,
            (
                Instruction::JumpIfFalseAndPopStack(a),
                Instruction::JumpIfFalseAndPopStack(b),
            ) => *a == *b,
            (Instruction::ForIter(a), Instruction::ForIter(b)) => *a == *b,
            (Instruction::Raise, Instruction::Raise) => true,
            (Instruction::ReturnValue, Instruction::ReturnValue) => true,
            (Instruction::PopTop, Instruction::PopTop) => true,
            (Instruction::UnresolvedLoadName(a), Instruction::UnresolvedLoadName(b)) => *a == *b,
            (Instruction::UnresolvedStoreName(a), Instruction::UnresolvedStoreName(b)) => *a
                == *b,
            (Instruction::UnresolvedStoreAttr(a), Instruction::UnresolvedStoreAttr(b)) => *a
                == *b,
            (Instruction::UnresolvedBreak, Instruction::UnresolvedBreak) => true,
            _ => false,
        }
    }
}

/// A copy of a list of instructions.
pub fn clone_instructions(v: &Vec<Instruction>) -> (r: Vec<Instruction>)
    ensures
        r.deep_view() == v.deep_view(),
{
    let mut r: Vec<Instruction> = Vec::new();
    let mut i: usize = 0;
    while i < v.len()
        invariant
            i <= v.len(),
            r.len() == i,
            forall|j: int| 0 <= j < i ==> r[j].deep_view() == v[j].deep_view(),
        decreases v.len() - i,
    {
        r.push(v[i].clone());
        i += 1;
    }
    assert(r.deep_view() =~= v.deep_view());
    r
}

/// Whether two lists of instructions have the same value.
pub fn instructions_equal(a: &Vec<Instruction>, b: &Vec<Instruction>) -> (r: bool)
    ensures
        r == (a.deep_view() == b.deep_view()),
{
    if a.len() != b.len() {
        assert(a.deep_view().len() != b.deep_view().len());
        return false;
    }
    let mut i: usize = 0;
    while i < a.len()
        invariant
            i <= a.len(),
            a.len() == b.len(),
            forall|j: int| 0 <= j < i ==> a[j].deep_view() == b[j].deep_view(),
        decreases a.len() - i,
    {
        if !a[i].equals(&b[i]) {
            assert(a.deep_view()[i as int] != b.deep_view()[i as int]);
            return false;
        }
        i += 1;
    }
    assert(a.deep_view() =~= b.deep_view());
    true
}

/// A copy of a list of names.
pub fn clone_names(v: &Vec<String>) -> (r: Vec<String>)
    ensures
        r.deep_view() == v.deep_view(),
{
    let mut r: Vec<String> = Vec::new();
    let mut i: usize = 0;
    while i < v.len()
        invariant
            i <= v.len(),
            r.len() == i,
            forall|j: int| 0 <= j < i ==> r[j]@ == v[j]@,
        decreases v.len() - i,
    {
        r.push(v[i].clone());
        i += 1;
    }
    assert(r.deep_view() =~= v.deep_view());
    r
}

/// Whether two lists of names have the same value.
pub fn names_equal(a: &Vec<String>, b: &Vec<String>) -> (r: bool)
    ensures
        r == (a.deep_view() == b.deep_view()),
{
    if a.len() != b.len() {
        assert(a.deep_view().len() != b.deep_view().len());
        return false;
    }
    let mut i: usize = 0;
    while i < a.len()
        invariant
            i <= a.len(),
            a.len() == b.len(),
            forall|j: int| 0 <= j < i ==> a[j]@ == b[j]@,
        decreases a.len() - i,
    {
        if a[i] != b[i] {
            assert(a.deep_view()[i as int] != b.deep_view()[i as int]);
            return false;
        }
        i += 1;
    }
    assert(a.deep_view() =~= b.deep_view());
    true
}

impl Const {
    /// A copy with the same value.
    pub fn clone(&self) -> (r: Const)
        ensures
            r.deep_view() == self.deep_view(),
        decreases *self,
    {
        match self {
            Const::Integer(i) => Const::Integer(*i),
            Const::Float(f) => Const::Float(*f),
            Const::Boolean(b) => Const::Boolean(*b),
            Const::String(s) => Const::String(s.clone()),
            Const::NoneValue => Const::NoneValue,
            Const::CodeObject(code) => Const::CodeObject(code.clone()),
        }
    }

    /// Whether two constants have the same value.
    pub fn equals(&self, other: &Const) -> (r: bool)
        ensures
            r == (self.deep_view() == other.deep_view()),
        decreases *self,
    {
        match (self, other) {
            (Const::Integer(a), Const::Integer(b)) => *a == *b,
            (Const::Float(a), Const::Float(b)) => a.0 == b.0,
            (Const::Boolean(a), Const::Boolean(b)) => *a == *b,
            (Const::String(a), Const::String(b)) => *a == *b,
            (Const::NoneValue, Const::NoneValue) => true,
            (Const::CodeObject(a), Const::CodeObject(b)) => a.equals(b),
            _ => false,
        }
    }
}

impl CodeObject {
    /// A copy with the same value.
    pub fn clone(&self) -> (r: CodeObject)
        ensures
            r.deep_view() == self.deep_view(),
        decreases *self,
    {
        let mut consts: Vec<Const> = Vec::new();
        let mut i: usize = 0;
        while i < self.consts.len()
            invariant
                i <= self.consts.len(),
                consts.len() == i,
                forall|j: int| 0 <= j < i ==> consts[j].deep_view() == self.consts[j].deep_view(),
            decreases self.consts.len() - i,
        {
            consts.push(self.consts[i].clone());
            i += 1;
        }
        let r = CodeObject {
            instructions: clone_instructions(&self.instructions),
            names: clone_names(&self.names),
            params: clone_names(&self.params),
            consts,
            main: self.main,
            objname: self.objname.clone(),
        };
        assert(r.deep_view().consts =~= self.deep_view().consts);
        r
    }

    /// Whether two code objects have the same value.
    pub fn equals(&self, other: &CodeObject) -> (r: bool)
        ensures
            r == (self.deep_view() == other.deep_view()),
        decreases *self,
    {
        if self.main != other.main || self.objname != other.objname {
            return false;
        }
        if !instructions_equal(&self.instructions, &other.instructions) {
            return false;
        }
        if !names_equal(&self.names, &other.names) || !names_equal(&self.params, &other.params) {
            return false;
        }
        if self.consts.len() != other.consts.len() {
            assert(self.deep_view().consts.len() != other.deep_view().consts.len());
            return false;
        }
        let mut i: usize = 0;
        while i < self.consts.len()
            invariant
                i <= self.consts.len(),
                self.consts.len() == other.consts.len(),
                forall|j: int|
                    0 <= j < i ==> self.consts[j].deep_view() == other.consts[j].deep_view(),
            decreases self.consts.len() - i,
        {
            if !self.consts[i].equals(&other.consts[i]) {
                assert(self.deep_view().consts[i as int] != other.deep_view().consts[i as int]);
                return false;
            }
            i += 1;
        }
        assert(self.deep_view().consts =~= other.deep_view().consts);
        true
    }
}

/// The compiler's output: the top-level unit first, then the nested ones.
#[derive(Debug, PartialEq)]
pub struct Program {
    pub version: usize,
    pub code_objects: Vec<CodeObject>,
}

/// The mathematical value of a [`Program`].
pub struct ProgramView {
    pub version: int,
    pub code_objects: Seq<CodeObjectView>,
}

impl DeepView for Program {
    type V = ProgramView;

    open spec fn deep_view(&self) -> ProgramView {
        ProgramView { version: self.version as int, code_objects: self.code_objects.deep_view() }
    }
}

} // verus!
