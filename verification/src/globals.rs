//! The global registry: user-function bytecode bodies, host ("internal")
//! function bindings, and named constants. The compiler writes it while
//! lowering declarations; the machine reads it on every call and constant
//! lookup, and one host function (`define`) writes a constant at runtime.
//! A name denotes exactly one entry; redeclaration is last-write-wins.

use vstd::prelude::*;
use crate::code::{clone_codes, code_view, Code, CodeV};
use crate::object::{Object, ObjectV};
use crate::table::Table;

verus! {

/// Which host function a name is bound to. The host set is fixed: the machine
/// dispatches on this tag when an internal call commits.
#[derive(Debug, Clone, Copy, PartialEq, Eq, Structural)]
pub enum InternalFunctionCallback {
    IsString,
    Strval,
    Basename,
    Define,
    VarDump,
    Count,
}

/// A host-provided callable registered by name.
#[derive(Debug)]
pub struct InternalFunction {
    pub name: String,
    pub callback: InternalFunctionCallback,
}

/// The mathematical shape of a host binding.
pub struct InternalFunctionV {
    pub name: Seq<char>,
    pub callback: InternalFunctionCallback,
}

impl View for InternalFunction {
    type V = InternalFunctionV;

    open spec fn view(&self) -> InternalFunctionV {
        InternalFunctionV { name: self.name@, callback: self.callback }
    }
}

impl Clone for InternalFunction {
    fn clone(&self) -> (other: Self)
        ensures
            other@ == self@,
    {
        InternalFunction { name: self.name.clone(), callback: self.callback }
    }
}

/// A registry entry: a compiled user function or a host function.
#[derive(Debug)]
pub enum Function {
    User(Vec<Code>),
    Internal(InternalFunction),
}

/// The mathematical shape of a registry entry.
pub enum FunctionV {
    User(Seq<CodeV>),
    Internal(InternalFunctionV),
}

impl View for Function {
    type V = FunctionV;

    open spec fn view(&self) -> FunctionV {
        match self {
            Function::User(code) => FunctionV::User(code_view(code@)),
            Function::Internal(i) => FunctionV::Internal(i@),
        }
    }
}

/// The function table and constant table, abstractly.
pub struct GlobalsV {
    pub functions: Map<Seq<char>, FunctionV>,
    pub constants: Map<Seq<char>, ObjectV>,
}

/// The registry.
#[derive(Debug)]
pub struct Globals {
    functions: Table<Function>,
    constants: Table<Object>,
}

impl View for Globals {
    type V = GlobalsV;

    closed spec fn view(&self) -> GlobalsV {
        GlobalsV { functions: self.functions@, constants: self.constants@ }
    }
}

/// The registry a fresh compilation starts from: the six host functions,
/// each under its own name, and no constants.
pub open spec fn initial_globals() -> GlobalsV {
    GlobalsV {
        functions: Map::empty().insert(
            "is_string"@,
            FunctionV::Internal(
                InternalFunctionV {
                    name: "is_string"@,
                    callback: InternalFunctionCallback::IsString,
                },
            ),
        ).insert(
            "strval"@,
            FunctionV::Internal(
                InternalFunctionV { name: "strval"@, callback: InternalFunctionCallback::Strval },
            ),
        ).insert(
            "basename"@,
            FunctionV::Internal(
                InternalFunctionV {
                    name: "basename"@,
                    callback: InternalFunctionCallback::Basename,
                },
            ),
        ).insert(
            "define"@,
            FunctionV::Internal(
                InternalFunctionV { name: "define"@, callback: InternalFunctionCallback::Define },
            ),
        ).insert(
            "var_dump"@,
            FunctionV::Internal(
                InternalFunctionV {
                    name: "var_dump"@,
                    callback: InternalFunctionCallback::VarDump,
                },
            ),
        ).insert(
            "count"@,
            FunctionV::Internal(
                InternalFunctionV { name: "count"@, callback: InternalFunctionCallback::Count },
            ),
        ),
        constants: Map::empty(),
    }
}

impl Globals {
    /// The tables behind the registry keep their keys distinct.
    pub closed spec fn wf(&self) -> bool {
        self.functions.wf() && self.constants.wf()
    }

    /// A fresh registry, pre-populated with the host functions.
    pub fn new() -> (g: Self)
        ensures
            g.wf(),
            g@ == initial_globals(),
    {
        let mut g = Self { functions: Table::new(), constants: Table::new() };
        g.create_internal_function("is_string", InternalFunctionCallback::IsString);
        g.create_internal_function("strval", InternalFunctionCallback::Strval);
        g.create_internal_function("basename", InternalFunctionCallback::Basename);
        g.create_internal_function("define", InternalFunctionCallback::Define);
        g.create_internal_function("var_dump", InternalFunctionCallback::VarDump);
        g.create_internal_function("count", InternalFunctionCallback::Count);
        proof {
            assert(g@.functions =~= initial_globals().functions);
            assert(g@.constants =~= initial_globals().constants);
        }
        g
    }

    pub fn create_constant(&mut self, name: String, value: Object)
        requires
            old(self).wf(),
        ensures
            final(self).wf(),
            final(self)@.constants == old(self)@.constants.insert(name@, value@),
            final(self)@.functions == old(self)@.functions,
    {
        self.constants.insert(name, value);
    }

    pub fn get_constant(&self, name: String) -> (r: Option<Object>)
        requires
            self.wf(),
        ensures
            match r {
                Some(v) => self@.constants.contains_key(name@) && v@ == self@.constants[name@],
                None => !self@.constants.contains_key(name@),
            },
    {
        match self.constants.get(&name) {
            Some(v) => Some(v.clone()),
            None => None,
        }
    }

    pub fn create_user_function(&mut self, name: String, instructions: Vec<Code>)
        requires
            old(self).wf(),
        ensures
            final(self).wf(),
            final(self)@.functions == old(self)@.functions.insert(
                name@,
                FunctionV::User(code_view(instructions@)),
            ),
            final(self)@.constants == old(self)@.constants,
    {
        self.functions.insert(name, Function::User(instructions));
    }

    /// The compiled body of a user function the registry is known to hold.
    pub fn get_user_function(&self, name: String) -> (r: Vec<Code>)
        requires
            self.wf(),
            self@.functions.contains_key(name@),
            self@.functions[name@] is User,
        ensures
            FunctionV::User(code_view(r@)) == self@.functions[name@],
    {
        match self.functions.get(&name) {
            Some(Function::User(code)) => clone_codes(code),
            _ => unreached(),
        }
    }

    pub fn is_user_function(&self, name: &String) -> (r: bool)
        requires
            self.wf(),
        ensures
            r == (self@.functions.contains_key(name@) && self@.functions[name@] is User),
    {
        match self.functions.get(name) {
            Some(Function::User(..)) => true,
            _ => false,
        }
    }

    pub fn create_internal_function(&mut self, name: &str, callback: InternalFunctionCallback)
        requires
            old(self).wf(),
        ensures
            final(self).wf(),
            final(self)@.functions == old(self)@.functions.insert(
                name@,
                FunctionV::Internal(InternalFunctionV { name: name@, callback }),
            ),
            final(self)@.constants == old(self)@.constants,
    {
        let internal = InternalFunction { name: name.to_owned(), callback };
        self.functions.insert(name.to_owned(), Function::Internal(internal));
    }

    pub fn get_internal_function(&self, name: &String) -> (r: Option<InternalFunction>)
        requires
            self.wf(),
        ensures
            match r {
                Some(f) => self@.functions.contains_key(name@) && self@.functions[name@]
                    == FunctionV::Internal(f@),
                None => !(self@.functions.contains_key(name@) && self@.functions[name@]
                    is Internal),
            },
    {
        match self.functions.get(name) {
            Some(Function::Internal(i)) => Some(i.clone()),
            _ => None,
        }
    }
}

} // verus!
