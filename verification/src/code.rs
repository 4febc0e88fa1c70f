//! The instruction set: the contract between the compiler and the virtual
//! machine. Instructions live in a flat, per-function sequence; jump targets
//! are absolute indices into that same sequence and never cross functions.

use vstd::prelude::*;

verus! {

/// One bytecode operation.
#[derive(Debug)]
pub enum Code {
    /// Push the constant-pool value at the index.
    Constant(usize),
    Echo,
    Add,
    Subtract,
    Multiply,
    Divide,
    LessThan,
    GreaterThan,
    Concat,
    /// Pop a value, bind it to the name, push it back.
    Assign(String),
    /// Push the named local's value.
    Get(String),
    /// Push the named global constant's value.
    GetConstant(String),
    Jump(usize),
    JumpIfFalse(usize),
    JumpIfTrue(usize),
    Pop,
    True,
    False,
    /// Begin staging a call to the named function.
    InitCall(String),
    /// Move one value from the caller's stack to the staged call.
    SendArg,
    DoUserCall,
    DoInternalCall,
    Return,
    ReturnWith,
    InitArray,
    AddToArray,
    GetArrayItem,
}

/// The mathematical shape of an instruction.
pub enum CodeV {
    Constant(int),
    Echo,
    Add,
    Subtract,
    Multiply,
    Divide,
    LessThan,
    GreaterThan,
    Concat,
    Assign(Seq<char>),
    Get(Seq<char>),
    GetConstant(Seq<char>),
    Jump(int),
    JumpIfFalse(int),
    JumpIfTrue(int),
    Pop,
    True,
    False,
    InitCall(Seq<char>),
    SendArg,
    DoUserCall,
    DoInternalCall,
    Return,
    ReturnWith,
    InitArray,
    AddToArray,
    GetArrayItem,
}

impl View for Code {
    type V = CodeV;

    open spec fn view(&self) -> CodeV {
        match self {
            Code::Constant(i) => CodeV::Constant(*i as int),
            Code::Echo => CodeV::Echo,
            Code::Add => CodeV::Add,
            Code::Subtract => CodeV::Subtract,
            Code::Multiply => CodeV::Multiply,
            Code::Divide => CodeV::Divide,
            Code::LessThan => CodeV::LessThan,
            Code::GreaterThan => CodeV::GreaterThan,
            Code::Concat => CodeV::Concat,
            Code::Assign(n) => CodeV::Assign(n@),
            Code::Get(n) => CodeV::Get(n@),
            Code::GetConstant(n) => CodeV::GetConstant(n@),
            Code::Jump(t) => CodeV::Jump(*t as int),
            Code::JumpIfFalse(t) => CodeV::JumpIfFalse(*t as int),
            Code::JumpIfTrue(t) => CodeV::JumpIfTrue(*t as int),
            Code::Pop => CodeV::Pop,
            Code::True => CodeV::True,
            Code::False => CodeV::False,
            Code::InitCall(n) => CodeV::InitCall(n@),
            Code::SendArg => CodeV::SendArg,
            Code::DoUserCall => CodeV::DoUserCall,
            Code::DoInternalCall => CodeV::DoInternalCall,
            Code::Return => CodeV::Return,
            Code::ReturnWith => CodeV::ReturnWith,
            Code::InitArray => CodeV::InitArray,
            Code::AddToArray => CodeV::AddToArray,
            Code::GetArrayItem => CodeV::GetArrayItem,
        }
    }
}

impl Clone for Code {
    fn clone(&self) -> (other: Self)
        ensures
            other@ == self@,
    {
        match self {
            Code::Constant(i) => Code::Constant(*i),
            Code::Echo => Code::Echo,
            Code::Add => Code::Add,
            Code::Subtract => Code::Subtract,
            Code::Multiply => Code::Multiply,
            Code::Divide => Code::Divide,
            Code::LessThan => Code::LessThan,
            Code::GreaterThan => Code::GreaterThan,
            Code::Concat => Code::Concat,
            Code::Assign(n) => Code::Assign(n.clone()),
            Code::Get(n) => Code::Get(n.clone()),
            Code::GetConstant(n) => Code::GetConstant(n.clone()),
            Code::Jump(t) => Code::Jump(*t),
            Code::JumpIfFalse(t) => Code::JumpIfFalse(*t),
            Code::JumpIfTrue(t) => Code::JumpIfTrue(*t),
            Code::Pop => Code::Pop,
            Code::True => Code::True,
            Code::False => Code::False,
            Code::InitCall(n) => Code::InitCall(n.clone()),
            Code::SendArg => Code::SendArg,
            Code::DoUserCall => Code::DoUserCall,
            Code::DoInternalCall => Code::DoInternalCall,
            Code::Return => Code::Return,
            Code::ReturnWith => Code::ReturnWith,
            Code::InitArray => Code::InitArray,
            Code::AddToArray => Code::AddToArray,
            Code::GetArrayItem => Code::GetArrayItem,
        }
    }
}

/// The view of a whole instruction sequence.
pub open spec fn code_view(s: Seq<Code>) -> Seq<CodeV> {
    s.map_values(|c: Code| c@)
}

/// A deep copy of an instruction sequence.
pub fn clone_codes(v: &Vec<Code>) -> (r: Vec<Code>)
    ensures
        code_view(r@) == code_view(v@),
{
    let n = v.len();
    let mut r: Vec<Code> = Vec::new();
    let mut i: usize = 0;
    while i < n
        invariant
            n == v@.len(),
            0 <= i <= n,
            r@.len() == i,
            forall|j: int| 0 <= j < i ==> r@[j]@ == v@[j]@,
        decreases n - i,
    {
        r.push(v[i].clone());
        i = i + 1;
    }
    proof {
        assert(code_view(r@) =~= code_view(v@));
    }
    r
}

} // verus!
