//! The virtual machine: a fetch/decode/execute loop over one frame stack and
//! one staging stack. The current frame — the top of the call stack — drives
//! execution; a call being built lives on the staging stack until an invoke
//! instruction commits it. The machine's one side effect is the text it
//! echoes, collected in an output buffer.
//!
//! The machine is defensive: it checks every index, every stack depth and
//! every value shape, and reports a fatal `RuntimeError` instead of faulting,
//! whatever instruction sequence it is given. Its contract is exact: one
//! exec step produces precisely the state `step_v` describes, and a whole run
//! produces precisely `run_v` of the initial state.

use vstd::prelude::*;
use crate::arith::{eval_op, eval_op_v};
use crate::ast::Op;
use crate::code::{code_view, Code, CodeV};
use crate::error::RuntimeError;
use crate::globals::{FunctionV, Globals, GlobalsV, InternalFunction, InternalFunctionV};
use crate::object::{objs_view, ArrayV, Arrays, Object, ObjectV};
use crate::table::Table;

verus! {

/// One activation record: an instruction pointer, the owned instruction
/// sequence it executes, the function-scoped variable bindings, a private
/// operand stack, and — for a staged call to a host function — the host
/// binding instead of bytecode.
#[derive(Debug)]
pub struct Frame {
    ip: usize,
    instructions: Vec<Code>,
    environment: Table<Object>,
    stack: Vec<Object>,
    internal: Option<InternalFunction>,
}

/// The mathematical shape of a frame.
pub struct FrameV {
    pub ip: int,
    pub instructions: Seq<CodeV>,
    pub environment: Map<Seq<char>, ObjectV>,
    pub stack: Seq<ObjectV>,
    pub internal: Option<InternalFunctionV>,
}

impl View for Frame {
    type V = FrameV;

    closed spec fn view(&self) -> FrameV {
        FrameV {
            ip: self.ip as int,
            instructions: code_view(self.instructions@),
            environment: self.environment@,
            stack: objs_view(self.stack@),
            internal: match self.internal {
                Some(i) => Some(i@),
                None => None,
            },
        }
    }
}

impl Frame {
    pub closed spec fn wf(&self) -> bool {
        self.environment.wf()
    }

    /// A fresh bytecode frame at the start of its instructions.
    pub fn new(instructions: Vec<Code>) -> (f: Self)
        ensures
            f.wf(),
            f@ == (FrameV {
                ip: 0,
                instructions: code_view(instructions@),
                environment: Map::<Seq<char>, ObjectV>::empty(),
                stack: Seq::<ObjectV>::empty(),
                internal: None,
            }),
    {
        let f = Frame {
            ip: 0,
            instructions,
            environment: Table::new(),
            stack: Vec::new(),
            internal: None,
        };
        proof {
            assert(f@.stack =~= Seq::<ObjectV>::empty());
        }
        f
    }

    /// A marker frame for a staged host-function call: no instructions, just
    /// the binding and the argument-staging stack.
    pub fn internal(internal: InternalFunction) -> (f: Self)
        ensures
            f.wf(),
            f@ == (FrameV {
                ip: 0,
                instructions: Seq::<CodeV>::empty(),
                environment: Map::<Seq<char>, ObjectV>::empty(),
                stack: Seq::<ObjectV>::empty(),
                internal: Some(internal@),
            }),
    {
        let f = Frame {
            ip: 0,
            instructions: Vec::new(),
            environment: Table::new(),
            stack: Vec::new(),
            internal: Some(internal),
        };
        proof {
            assert(f@.stack =~= Seq::<ObjectV>::empty());
            assert(f@.instructions =~= Seq::<CodeV>::empty());
        }
        f
    }

    /// Binds `name` to `value`, shadowing any earlier binding.
    pub fn set(&mut self, name: String, value: Object)
        requires
            old(self).wf(),
        ensures
            final(self).wf(),
            final(self)@ == (FrameV {
                environment: old(self)@.environment.insert(name@, value@),
                ..old(self)@
            }),
    {
        self.environment.insert(name, value);
    }

    /// The value bound to `name`, if any.
    pub fn get(&self, name: &String) -> (r: Option<&Object>)
        requires
            self.wf(),
        ensures
            match r {
                Some(v) => self@.environment.contains_key(name@) && v@ == self@.environment[name@],
                None => !self@.environment.contains_key(name@),
            },
    {
        self.environment.get(name)
    }

    /// Pushes a value onto this frame's private stack.
    pub fn push(&mut self, value: Object)
        requires
            old(self).wf(),
        ensures
            final(self).wf(),
            final(self)@ == (FrameV { stack: old(self)@.stack.push(value@), ..old(self)@ }),
    {
        self.stack.push(value);
        proof {
            assert(self@.stack =~= old(self)@.stack.push(value@));
        }
    }
}

/// What one step of the machine reports.
#[derive(Debug, Clone, Copy, PartialEq, Eq, Structural)]
pub enum Status {
    /// More instructions remain to execute.
    Running,
    /// The current frame's pointer reached the end of its sequence.
    Done,
    /// A fatal runtime error; the machine stops where it stands.
    Failed(RuntimeError),
}

/// The machine: the constant pool, the call stack, the staging stack for
/// calls being built, the global registry, the shared array arena, and the
/// echoed output.
#[derive(Debug)]
pub struct Machine {
    constants: Vec<Object>,
    frames: Vec<Frame>,
    buffer: Vec<Frame>,
    pub globals: Globals,
    arrays: Arrays,
    output: Vec<String>,
}

/// The mathematical shape of the machine.
pub struct MachineV {
    pub constants: Seq<ObjectV>,
    pub frames: Seq<FrameV>,
    pub buffer: Seq<FrameV>,
    pub globals: GlobalsV,
    pub arrays: Seq<ArrayV>,
    pub output: Seq<Seq<char>>,
}

impl View for Machine {
    type V = MachineV;

    closed spec fn view(&self) -> MachineV {
        MachineV {
            constants: objs_view(self.constants@),
            frames: self.frames@.map_values(|f: Frame| f@),
            buffer: self.buffer@.map_values(|f: Frame| f@),
            globals: self.globals@,
            arrays: self.arrays@,
            output: self.output@.map_values(|s: String| s@),
        }
    }
}

impl Machine {
    /// The call stack never runs dry, and every name table is well formed.
    pub closed spec fn wf(&self) -> bool {
        &&& self.frames@.len() >= 1
        &&& forall|i: int| 0 <= i < self.frames@.len() ==> (#[trigger] self.frames@[i]).wf()
        &&& forall|i: int| 0 <= i < self.buffer@.len() ==> (#[trigger] self.buffer@[i]).wf()
        &&& self.globals.wf()
    }
}

impl Machine {
    /// The shared array arena.
    pub fn arena(&self) -> (a: &Arrays)
        ensures
            a@ == self@.arrays,
    {
        &self.arrays
    }

    /// How many arrays the arena holds.
    pub fn arena_len(&self) -> (n: usize)
        ensures
            n == self@.arrays.len(),
    {
        self.arrays.len()
    }

    /// Writes a named constant into the global registry, as the host
    /// function `define` does at run time.
    pub fn define_constant(&mut self, name: String, value: Object)
        requires
            old(self).wf(),
        ensures
            final(self).wf(),
            final(self)@ == (MachineV {
                globals: (crate::globals::GlobalsV {
                    constants: old(self)@.globals.constants.insert(name@, value@),
                    ..old(self)@.globals
                }),
                ..old(self)@
            }),
    {
        self.globals.create_constant(name, value);
    }

    /// Appends one echoed line or value to the collected output.
    pub fn write_output(&mut self, s: String)
        requires
            old(self).wf(),
        ensures
            final(self).wf(),
            final(self)@ == (MachineV { output: old(self)@.output.push(s@), ..old(self)@ }),
    {
        self.output.push(s);
        proof {
            assert(self@.output =~= old(self)@.output.push(s@));
        }
    }
}

/// The current frame: the top of the call stack.
pub open spec fn cur_v(m: MachineV) -> FrameV {
    m.frames.last()
}

/// The machine with its current frame replaced.
pub open spec fn set_cur(m: MachineV, f: FrameV) -> MachineV {
    MachineV { frames: m.frames.update(m.frames.len() - 1 as int, f), ..m }
}

/// Whether an instruction is an arithmetic, comparison or concat operation.
pub open spec fn is_binary_code(c: CodeV) -> bool {
    match c {
        CodeV::Add => true,
        CodeV::Subtract => true,
        CodeV::Multiply => true,
        CodeV::Divide => true,
        CodeV::LessThan => true,
        CodeV::GreaterThan => true,
        CodeV::Concat => true,
        _ => false,
    }
}

/// The operator an arithmetic/comparison/concat instruction performs.
pub open spec fn op_of(c: CodeV) -> Op {
    match c {
        CodeV::Add => Op::Add,
        CodeV::Subtract => Op::Subtract,
        CodeV::Multiply => Op::Multiply,
        CodeV::Divide => Op::Divide,
        CodeV::LessThan => Op::LessThan,
        CodeV::GreaterThan => Op::GreaterThan,
        _ => Op::Concat,
    }
}

/// One binary operation step: pop the right operand, then the left, evaluate
/// with promotion, push the result.
pub open spec fn binary_step_v(m: MachineV, op: Op) -> (MachineV, Status) {
    let f = cur_v(m);
    if f.stack.len() < 2 {
        (m, Status::Failed(RuntimeError::StackUnderflow))
    } else {
        let r = f.stack.last();
        let l = f.stack.drop_last().last();
        match eval_op_v(op, l, r) {
            Ok(v) => (
                set_cur(
                    m,
                    FrameV {
                        ip: f.ip + 1,
                        stack: f.stack.drop_last().drop_last().push(v),
                        ..f
                    },
                ),
                Status::Running,
            ),
            Err(e) => (m, Status::Failed(e)),
        }
    }
}

/// One fetch/decode/execute step of the machine: the semantics of every
/// instruction, exactly as `Machine::step` performs it.
pub open spec fn step_v(m: MachineV) -> (MachineV, Status) {
    let f = m.frames.last();
    if !(0 <= f.ip < f.instructions.len()) {
        (m, Status::Done)
    } else {
        match f.instructions[f.ip] {
            CodeV::Constant(ci) => {
                if 0 <= ci < m.constants.len() {
                    (
                        set_cur(
                            m,
                            FrameV { ip: f.ip + 1, stack: f.stack.push(m.constants[ci]), ..f },
                        ),
                        Status::Running,
                    )
                } else {
                    (m, Status::Failed(RuntimeError::ConstantIndexOutOfRange))
                }
            },
            CodeV::True => (
                set_cur(m, FrameV { ip: f.ip + 1, stack: f.stack.push(ObjectV::True), ..f }),
                Status::Running,
            ),
            CodeV::False => (
                set_cur(m, FrameV { ip: f.ip + 1, stack: f.stack.push(ObjectV::False), ..f }),
                Status::Running,
            ),
            CodeV::Jump(t) => (set_cur(m, FrameV { ip: t, ..f }), Status::Running),
            CodeV::JumpIfFalse(t) => {
                if f.stack.len() == 0 {
                    (m, Status::Failed(RuntimeError::StackUnderflow))
                } else {
                    match crate::object::truthy(f.stack.last()) {
                        Ok(b) => (
                            set_cur(
                                m,
                                FrameV {
                                    ip: if !b {
                                        t
                                    } else {
                                        f.ip + 1
                                    },
                                    stack: f.stack.drop_last(),
                                    ..f
                                },
                            ),
                            Status::Running,
                        ),
                        Err(e) => (m, Status::Failed(e)),
                    }
                }
            },
            CodeV::JumpIfTrue(t) => {
                if f.stack.len() == 0 {
                    (m, Status::Failed(RuntimeError::StackUnderflow))
                } else {
                    match crate::object::truthy(f.stack.last()) {
                        Ok(b) => (
                            set_cur(
                                m,
                                FrameV {
                                    ip: if b {
                                        t
                                    } else {
                                        f.ip + 1
                                    },
                                    stack: f.stack.drop_last(),
                                    ..f
                                },
                            ),
                            Status::Running,
                        ),
                        Err(e) => (m, Status::Failed(e)),
                    }
                }
            },
            CodeV::Echo => {
                if f.stack.len() == 0 {
                    (m, Status::Failed(RuntimeError::StackUnderflow))
                } else {
                    match crate::object::rendering(f.stack.last()) {
                        Ok(s) => (
                            MachineV {
                                output: m.output.push(s),
                                ..set_cur(m, FrameV { ip: f.ip + 1, stack: f.stack.drop_last(), ..f })
                            },
                            Status::Running,
                        ),
                        Err(e) => (m, Status::Failed(e)),
                    }
                }
            },
            CodeV::Pop => {
                if f.stack.len() == 0 {
                    (set_cur(m, FrameV { ip: f.ip + 1, ..f }), Status::Running)
                } else {
                    (
                        set_cur(m, FrameV { ip: f.ip + 1, stack: f.stack.drop_last(), ..f }),
                        Status::Running,
                    )
                }
            },
            CodeV::Assign(name) => {
                if f.stack.len() == 0 {
                    (m, Status::Failed(RuntimeError::StackUnderflow))
                } else {
                    (
                        set_cur(
                            m,
                            FrameV {
                                ip: f.ip + 1,
                                environment: f.environment.insert(name, f.stack.last()),
                                ..f
                            },
                        ),
                        Status::Running,
                    )
                }
            },
            CodeV::Get(name) => {
                if f.environment.contains_key(name) {
                    (
                        set_cur(
                            m,
                            FrameV { ip: f.ip + 1, stack: f.stack.push(f.environment[name]), ..f },
                        ),
                        Status::Running,
                    )
                } else {
                    (m, Status::Failed(RuntimeError::UndefinedVariable))
                }
            },
            CodeV::GetConstant(name) => {
                if m.globals.constants.contains_key(name) {
                    (
                        set_cur(
                            m,
                            FrameV {
                                ip: f.ip + 1,
                                stack: f.stack.push(m.globals.constants[name]),
                                ..f
                            },
                        ),
                        Status::Running,
                    )
                } else {
                    (m, Status::Failed(RuntimeError::UndefinedConstant))
                }
            },
            CodeV::Add => binary_step_v(m, Op::Add),
            CodeV::Subtract => binary_step_v(m, Op::Subtract),
            CodeV::Multiply => binary_step_v(m, Op::Multiply),
            CodeV::Divide => binary_step_v(m, Op::Divide),
            CodeV::LessThan => binary_step_v(m, Op::LessThan),
            CodeV::GreaterThan => binary_step_v(m, Op::GreaterThan),
            CodeV::Concat => binary_step_v(m, Op::Concat),
            CodeV::InitCall(name) => {
                if m.globals.functions.contains_key(name) {
                    match m.globals.functions[name] {
                        FunctionV::User(code) => (
                            MachineV {
                                buffer: m.buffer.push(
                                    FrameV {
                                        ip: 0,
                                        instructions: code,
                                        environment: Map::empty(),
                                        stack: Seq::empty(),
                                        internal: None,
                                    },
                                ),
                                ..set_cur(m, FrameV { ip: f.ip + 1, ..f })
                            },
                            Status::Running,
                        ),
                        FunctionV::Internal(i) => (
                            MachineV {
                                buffer: m.buffer.push(
                                    FrameV {
                                        ip: 0,
                                        instructions: Seq::empty(),
                                        environment: Map::empty(),
                                        stack: Seq::empty(),
                                        internal: Some(i),
                                    },
                                ),
                                ..set_cur(m, FrameV { ip: f.ip + 1, ..f })
                            },
                            Status::Running,
                        ),
                    }
                } else {
                    (m, Status::Failed(RuntimeError::UndefinedFunction))
                }
            },
            CodeV::SendArg => {
                if f.stack.len() == 0 {
                    (m, Status::Failed(RuntimeError::StackUnderflow))
                } else if m.buffer.len() == 0 {
                    (m, Status::Failed(RuntimeError::CallBufferUnderflow))
                } else {
                    let bf = m.buffer.last();
                    (
                        MachineV {
                            buffer: m.buffer.update(
                                m.buffer.len() - 1,
                                FrameV { stack: bf.stack.push(f.stack.last()), ..bf },
                            ),
                            ..set_cur(m, FrameV { ip: f.ip + 1, stack: f.stack.drop_last(), ..f })
                        },
                        Status::Running,
                    )
                }
            },
            CodeV::DoUserCall => {
                if m.buffer.len() == 0 {
                    (m, Status::Failed(RuntimeError::CallBufferUnderflow))
                } else {
                    let bf = m.buffer.last();
                    let m2 = set_cur(m, FrameV { ip: f.ip + 1, ..f });
                    (
                        MachineV { frames: m2.frames.push(bf), buffer: m.buffer.drop_last(), ..m2 },
                        Status::Running,
                    )
                }
            },
            CodeV::DoInternalCall => {
                if m.buffer.len() == 0 {
                    (m, Status::Failed(RuntimeError::CallBufferUnderflow))
                } else {
                    let bf = m.buffer.last();
                    match bf.internal {
                        None => (
                            MachineV { buffer: m.buffer.drop_last(), ..m },
                            Status::Failed(RuntimeError::CallKindMismatch),
                        ),
                        Some(i) => {
                            let m2 = MachineV { buffer: m.buffer.drop_last(), ..m };
                            let (m3, res) = crate::stdlib::internal_result_v(
                                i.callback,
                                bf.stack.reverse(),
                                m2,
                            );
                            match res {
                                Ok(v) => (
                                    set_cur(
                                        m3,
                                        FrameV { ip: f.ip + 1, stack: f.stack.push(v), ..f },
                                    ),
                                    Status::Running,
                                ),
                                Err(e) => (m3, Status::Failed(e)),
                            }
                        },
                    }
                }
            },
            CodeV::Return => {
                if m.frames.len() == 1 {
                    (m, Status::Failed(RuntimeError::FrameUnderflow))
                } else {
                    let m2 = MachineV { frames: m.frames.drop_last(), ..m };
                    let g = cur_v(m2);
                    (
                        set_cur(m2, FrameV { stack: g.stack.push(ObjectV::Null), ..g }),
                        Status::Running,
                    )
                }
            },
            CodeV::ReturnWith => {
                if f.stack.len() == 0 {
                    (m, Status::Failed(RuntimeError::StackUnderflow))
                } else if m.frames.len() == 1 {
                    (m, Status::Failed(RuntimeError::FrameUnderflow))
                } else {
                    let v = f.stack.last();
                    let m2 = MachineV { frames: m.frames.drop_last(), ..m };
                    let g = cur_v(m2);
                    (set_cur(m2, FrameV { stack: g.stack.push(v), ..g }), Status::Running)
                }
            },
            CodeV::InitArray => (
                set_cur(
                    MachineV { arrays: m.arrays.push(Seq::empty()), ..m },
                    FrameV {
                        ip: f.ip + 1,
                        stack: f.stack.push(ObjectV::Array(m.arrays.len() as int)),
                        ..f
                    },
                ),
                Status::Running,
            ),
            CodeV::AddToArray => {
                if f.stack.len() < 2 {
                    (m, Status::Failed(RuntimeError::StackUnderflow))
                } else {
                    let v = f.stack.last();
                    let a = f.stack.drop_last().last();
                    match a {
                        ObjectV::Array(id) => {
                            if 0 <= id < m.arrays.len() {
                                (
                                    MachineV {
                                        arrays: m.arrays.update(
                                            id,
                                            m.arrays[id].push(
                                                (crate::text::dec_nat(m.arrays[id].len()), v),
                                            ),
                                        ),
                                        ..set_cur(
                                            m,
                                            FrameV {
                                                ip: f.ip + 1,
                                                stack: f.stack.drop_last().drop_last().push(a),
                                                ..f
                                            },
                                        )
                                    },
                                    Status::Running,
                                )
                            } else {
                                (m, Status::Failed(RuntimeError::TypeMismatch))
                            }
                        },
                        _ => (m, Status::Failed(RuntimeError::TypeMismatch)),
                    }
                }
            },
            CodeV::GetArrayItem => {
                if f.stack.len() < 2 {
                    (m, Status::Failed(RuntimeError::StackUnderflow))
                } else {
                    let idx = f.stack.last();
                    let a = f.stack.drop_last().last();
                    match a {
                        ObjectV::Array(id) => {
                            if 0 <= id < m.arrays.len() {
                                match crate::object::rendering(idx) {
                                    Ok(key) => match crate::object::array_lookup(
                                        m.arrays[id],
                                        key,
                                    ) {
                                        Some(v) => (
                                            set_cur(
                                                m,
                                                FrameV {
                                                    ip: f.ip + 1,
                                                    stack: f.stack.drop_last().drop_last().push(v),
                                                    ..f
                                                },
                                            ),
                                            Status::Running,
                                        ),
                                        None => (
                                            m,
                                            Status::Failed(RuntimeError::UndefinedArrayKey),
                                        ),
                                    },
                                    Err(e) => (m, Status::Failed(e)),
                                }
                            } else {
                                (m, Status::Failed(RuntimeError::TypeMismatch))
                            }
                        },
                        _ => (m, Status::Failed(RuntimeError::TypeMismatch)),
                    }
                }
            },
        }
    }
}

impl Machine {
    fn cur_ip(&self) -> (ip: usize)
        requires
            self.wf(),
        ensures
            ip == cur_v(self@).ip,
    {
        let n = self.frames.len();
        self.frames[n - 1].ip
    }

    fn cur_len(&self) -> (l: usize)
        requires
            self.wf(),
        ensures
            l == cur_v(self@).instructions.len(),
    {
        let n = self.frames.len();
        self.frames[n - 1].instructions.len()
    }

    fn fetch(&self) -> (c: Code)
        requires
            self.wf(),
            0 <= cur_v(self@).ip < cur_v(self@).instructions.len(),
        ensures
            c@ == cur_v(self@).instructions[cur_v(self@).ip],
    {
        let n = self.frames.len();
        let ip = self.frames[n - 1].ip;
        self.frames[n - 1].instructions[ip].clone()
    }

    fn pop(&mut self) -> (r: Option<Object>)
        requires
            old(self).wf(),
        ensures
            final(self).wf(),
            match r {
                Some(v) => cur_v(old(self)@).stack.len() > 0 && v@ == cur_v(old(self)@).stack.last()
                    && final(self)@ == set_cur(
                    old(self)@,
                    (FrameV { stack: cur_v(old(self)@).stack.drop_last(), ..cur_v(old(self)@) }),
                ),
                None => cur_v(old(self)@).stack.len() == 0 && final(self)@ == old(self)@,
            },
    {
        let n = self.frames.len();
        let r = self.frames[n - 1].stack.pop();
        proof {
            if r is Some {
                assert(objs_view(self.frames@[n - 1].stack@) =~= cur_v(
                    old(self)@,
                ).stack.drop_last());
                assert(self@.frames =~= set_cur(
                    old(self)@,
                    (FrameV { stack: cur_v(old(self)@).stack.drop_last(), ..cur_v(old(self)@) }),
                ).frames);
            } else {
                assert(self@.frames =~= old(self)@.frames);
            }
        }
        r
    }

    fn push(&mut self, value: Object)
        requires
            old(self).wf(),
        ensures
            final(self).wf(),
            final(self)@ == set_cur(
                old(self)@,
                (FrameV { stack: cur_v(old(self)@).stack.push(value@), ..cur_v(old(self)@) }),
            ),
    {
        let n = self.frames.len();
        self.frames[n - 1].stack.push(value);
        proof {
            assert(objs_view(self.frames@[n - 1].stack@) =~= cur_v(old(self)@).stack.push(
                value@,
            ));
            assert(self@.frames =~= set_cur(
                old(self)@,
                (FrameV { stack: cur_v(old(self)@).stack.push(value@), ..cur_v(old(self)@) }),
            ).frames);
        }
    }

    fn next(&mut self)
        requires
            old(self).wf(),
            cur_v(old(self)@).ip < usize::MAX,
        ensures
            final(self).wf(),
            final(self)@ == set_cur(
                old(self)@,
                (FrameV { ip: cur_v(old(self)@).ip + 1, ..cur_v(old(self)@) }),
            ),
    {
        let n = self.frames.len();
        self.frames[n - 1].ip = self.frames[n - 1].ip + 1;
        proof {
            assert(self@.frames =~= set_cur(
                old(self)@,
                (FrameV { ip: cur_v(old(self)@).ip + 1, ..cur_v(old(self)@) }),
            ).frames);
        }
    }

    fn set_ip(&mut self, t: usize)
        requires
            old(self).wf(),
        ensures
            final(self).wf(),
            final(self)@ == set_cur(
                old(self)@,
                (FrameV { ip: t as int, ..cur_v(old(self)@) }),
            ),
    {
        let n = self.frames.len();
        self.frames[n - 1].ip = t;
        proof {
            assert(self@.frames =~= set_cur(
                old(self)@,
                (FrameV { ip: t as int, ..cur_v(old(self)@) }),
            ).frames);
        }
    }

    fn set_local(&mut self, name: String, value: Object)
        requires
            old(self).wf(),
        ensures
            final(self).wf(),
            final(self)@ == set_cur(
                old(self)@,
                (FrameV {
                    environment: cur_v(old(self)@).environment.insert(name@, value@),
                    ..cur_v(old(self)@)
                }),
            ),
    {
        let n = self.frames.len();
        self.frames[n - 1].set(name, value);
        proof {
            assert(self@.frames =~= set_cur(
                old(self)@,
                (FrameV {
                    environment: cur_v(old(self)@).environment.insert(name@, value@),
                    ..cur_v(old(self)@)
                }),
            ).frames);
        }
    }

    fn get_local(&self, name: &String) -> (r: Option<Object>)
        requires
            self.wf(),
        ensures
            match r {
                Some(v) => cur_v(self@).environment.contains_key(name@) && v@ == cur_v(
                    self@,
                ).environment[name@],
                None => !cur_v(self@).environment.contains_key(name@),
            },
    {
        let n = self.frames.len();
        match self.frames[n - 1].get(name) {
            Some(v) => Some(v.clone()),
            None => None,
        }
    }

    fn push_buffer(&mut self, frame: Frame)
        requires
            old(self).wf(),
            frame.wf(),
        ensures
            final(self).wf(),
            final(self)@ == (MachineV { buffer: old(self)@.buffer.push(frame@), ..old(self)@ }),
    {
        self.buffer.push(frame);
        proof {
            assert(self@.buffer =~= old(self)@.buffer.push(frame@));
        }
    }

    fn pop_buffer(&mut self) -> (r: Option<Frame>)
        requires
            old(self).wf(),
        ensures
            final(self).wf(),
            match r {
                Some(bf) => old(self)@.buffer.len() > 0 && bf.wf() && bf@ == old(
                    self,
                )@.buffer.last() && final(self)@ == (MachineV {
                    buffer: old(self)@.buffer.drop_last(),
                    ..old(self)@
                }),
                None => old(self)@.buffer.len() == 0 && final(self)@ == old(self)@,
            },
    {
        let r = self.buffer.pop();
        proof {
            if r is Some {
                assert(self@.buffer =~= old(self)@.buffer.drop_last());
            } else {
                assert(self@.buffer =~= old(self)@.buffer);
            }
        }
        r
    }

    fn buffer_top_push(&mut self, value: Object)
        requires
            old(self).wf(),
            old(self)@.buffer.len() > 0,
        ensures
            final(self).wf(),
            final(self)@ == (MachineV {
                buffer: old(self)@.buffer.update(
                    old(self)@.buffer.len() - 1,
                    (FrameV {
                        stack: old(self)@.buffer.last().stack.push(value@),
                        ..old(self)@.buffer.last()
                    }),
                ),
                ..old(self)@
            }),
    {
        let n = self.buffer.len();
        self.buffer[n - 1].push(value);
        proof {
            assert(self@.buffer =~= old(self)@.buffer.update(
                old(self)@.buffer.len() - 1,
                (FrameV {
                    stack: old(self)@.buffer.last().stack.push(value@),
                    ..old(self)@.buffer.last()
                }),
            ));
        }
    }

    fn push_frame(&mut self, frame: Frame)
        requires
            old(self).wf(),
            frame.wf(),
        ensures
            final(self).wf(),
            final(self)@ == (MachineV { frames: old(self)@.frames.push(frame@), ..old(self)@ }),
    {
        self.frames.push(frame);
        proof {
            assert(self@.frames =~= old(self)@.frames.push(frame@));
        }
    }

    fn pop_frame(&mut self) -> (r: Frame)
        requires
            old(self).wf(),
            old(self)@.frames.len() >= 2,
        ensures
            final(self).wf(),
            r@ == old(self)@.frames.last(),
            final(self)@ == (MachineV { frames: old(self)@.frames.drop_last(), ..old(self)@ }),
    {
        let r = match self.frames.pop() {
            Some(f) => f,
            None => unreached(),
        };
        proof {
            assert(self@.frames =~= old(self)@.frames.drop_last());
        }
        r
    }
}

impl Machine {
    /// A copy of the value on top of the current frame's stack.
    fn top(&self) -> (r: Option<Object>)
        requires
            self.wf(),
        ensures
            match r {
                Some(v) => cur_v(self@).stack.len() > 0 && v@ == cur_v(self@).stack.last(),
                None => cur_v(self@).stack.len() == 0,
            },
    {
        let n = self.frames.len();
        let k = self.frames[n - 1].stack.len();
        if k == 0 {
            None
        } else {
            Some(self.frames[n - 1].stack[k - 1].clone())
        }
    }

    /// Copies of the two topmost values: the one below, then the top.
    fn peek2(&self) -> (r: Option<(Object, Object)>)
        requires
            self.wf(),
        ensures
            match r {
                Some(p) => cur_v(self@).stack.len() >= 2 && p.1@ == cur_v(self@).stack.last()
                    && p.0@ == cur_v(self@).stack.drop_last().last(),
                None => cur_v(self@).stack.len() < 2,
            },
    {
        let n = self.frames.len();
        let k = self.frames[n - 1].stack.len();
        if k < 2 {
            None
        } else {
            let below = self.frames[n - 1].stack[k - 2].clone();
            let top = self.frames[n - 1].stack[k - 1].clone();
            proof {
                assert(cur_v(self@).stack.drop_last().last() == cur_v(self@).stack[k - 2]);
            }
            Some((below, top))
        }
    }

    /// A fresh empty shared array in the arena; the handle value.
    fn arrays_new(&mut self) -> (o: Object)
        requires
            old(self).wf(),
        ensures
            final(self).wf(),
            final(self)@ == (MachineV {
                arrays: old(self)@.arrays.push(Seq::empty()),
                ..old(self)@
            }),
            o@ == ObjectV::Array(old(self)@.arrays.len() as int),
    {
        crate::object::new_array(&mut self.arrays)
    }

    /// Appends a value to the array under `id`.
    fn arrays_append(&mut self, id: usize, value: Object)
        requires
            old(self).wf(),
            id < old(self)@.arrays.len(),
        ensures
            final(self).wf(),
            final(self)@ == (MachineV {
                arrays: old(self)@.arrays.update(
                    id as int,
                    old(self)@.arrays[id as int].push(
                        (crate::text::dec_nat(old(self)@.arrays[id as int].len()), value@),
                    ),
                ),
                ..old(self)@
            }),
    {
        self.arrays.append(id, value);
    }

    /// First-match lookup in the array under `id`.
    fn arrays_get(&self, id: usize, key: &String) -> (r: Option<Object>)
        requires
            self.wf(),
            id < self@.arrays.len(),
        ensures
            match r {
                Some(v) => crate::object::array_lookup(self@.arrays[id as int], key@) == Some(v@),
                None => crate::object::array_lookup(self@.arrays[id as int], key@) is None,
            },
    {
        self.arrays.get(id, key)
    }
}

impl Machine {
    /// Executes one fetched instruction. Each method's contract is the same:
    /// the machine afterwards, and the status reported, are exactly what
    /// `step_v` prescribes for the instruction the pointer rests on.
    fn step_constant(&mut self, ci: usize) -> (st: Status)
        requires
            old(self).wf(),
            0 <= cur_v(old(self)@).ip < cur_v(old(self)@).instructions.len(),
            cur_v(old(self)@).instructions.len() <= usize::MAX,
            cur_v(old(self)@).instructions[cur_v(old(self)@).ip] == CodeV::Constant(ci as int),
        ensures
            final(self).wf(),
            final(self)@ == step_v(old(self)@).0,
            st == step_v(old(self)@).1,
    {
        if ci >= self.constants.len() {
            return Status::Failed(RuntimeError::ConstantIndexOutOfRange);
        }
        let v = self.constants[ci].clone();
        proof {
            assert(v@ == old(self)@.constants[ci as int]);
        }
        self.push(v);
        self.next();
        proof {
            assert(self@.frames =~= step_v(old(self)@).0.frames);
        }
        Status::Running
    }

    fn step_push_bool(&mut self, b: bool) -> (st: Status)
        requires
            old(self).wf(),
            0 <= cur_v(old(self)@).ip < cur_v(old(self)@).instructions.len(),
            cur_v(old(self)@).instructions.len() <= usize::MAX,
            cur_v(old(self)@).instructions[cur_v(old(self)@).ip] == (if b {
                CodeV::True
            } else {
                CodeV::False
            }),
        ensures
            final(self).wf(),
            final(self)@ == step_v(old(self)@).0,
            st == step_v(old(self)@).1,
    {
        self.push(Object::from_bool(b));
        self.next();
        proof {
            assert(self@.frames =~= step_v(old(self)@).0.frames);
        }
        Status::Running
    }

    fn step_jump_cond(&mut self, t: usize, want: bool) -> (st: Status)
        requires
            old(self).wf(),
            0 <= cur_v(old(self)@).ip < cur_v(old(self)@).instructions.len(),
            cur_v(old(self)@).instructions.len() <= usize::MAX,
            cur_v(old(self)@).instructions[cur_v(old(self)@).ip] == (if want {
                CodeV::JumpIfTrue(t as int)
            } else {
                CodeV::JumpIfFalse(t as int)
            }),
        ensures
            final(self).wf(),
            final(self)@ == step_v(old(self)@).0,
            st == step_v(old(self)@).1,
    {
        let v = match self.top() {
            Some(v) => v,
            None => {
                return Status::Failed(RuntimeError::StackUnderflow);
            },
        };
        let b = match v.to_bool() {
            Ok(b) => b,
            Err(e) => {
                return Status::Failed(e);
            },
        };
        self.pop();
        if b == want {
            self.set_ip(t);
        } else {
            self.next();
        }
        proof {
            assert(self@.frames =~= step_v(old(self)@).0.frames);
        }
        Status::Running
    }

    fn step_echo(&mut self) -> (st: Status)
        requires
            old(self).wf(),
            0 <= cur_v(old(self)@).ip < cur_v(old(self)@).instructions.len(),
            cur_v(old(self)@).instructions.len() <= usize::MAX,
            cur_v(old(self)@).instructions[cur_v(old(self)@).ip] == CodeV::Echo,
        ensures
            final(self).wf(),
            final(self)@ == step_v(old(self)@).0,
            st == step_v(old(self)@).1,
    {
        let v = match self.top() {
            Some(v) => v,
            None => {
                return Status::Failed(RuntimeError::StackUnderflow);
            },
        };
        let s = match v.render() {
            Ok(s) => s,
            Err(e) => {
                return Status::Failed(e);
            },
        };
        self.pop();
        self.next();
        self.write_output(s);
        proof {
            assert(self@.frames =~= step_v(old(self)@).0.frames);
            assert(self@.output =~= step_v(old(self)@).0.output);
        }
        Status::Running
    }

    fn step_pop(&mut self) -> (st: Status)
        requires
            old(self).wf(),
            0 <= cur_v(old(self)@).ip < cur_v(old(self)@).instructions.len(),
            cur_v(old(self)@).instructions.len() <= usize::MAX,
            cur_v(old(self)@).instructions[cur_v(old(self)@).ip] == CodeV::Pop,
        ensures
            final(self).wf(),
            final(self)@ == step_v(old(self)@).0,
            st == step_v(old(self)@).1,
    {
        self.pop();
        self.next();
        proof {
            assert(self@.frames =~= step_v(old(self)@).0.frames);
        }
        Status::Running
    }

    fn step_assign(&mut self, name: String) -> (st: Status)
        requires
            old(self).wf(),
            0 <= cur_v(old(self)@).ip < cur_v(old(self)@).instructions.len(),
            cur_v(old(self)@).instructions.len() <= usize::MAX,
            cur_v(old(self)@).instructions[cur_v(old(self)@).ip] == CodeV::Assign(name@),
        ensures
            final(self).wf(),
            final(self)@ == step_v(old(self)@).0,
            st == step_v(old(self)@).1,
    {
        let v = match self.top() {
            Some(v) => v,
            None => {
                return Status::Failed(RuntimeError::StackUnderflow);
            },
        };
        self.set_local(name, v);
        self.next();
        proof {
            assert(self@.frames =~= step_v(old(self)@).0.frames);
        }
        Status::Running
    }

    fn step_get(&mut self, name: String) -> (st: Status)
        requires
            old(self).wf(),
            0 <= cur_v(old(self)@).ip < cur_v(old(self)@).instructions.len(),
            cur_v(old(self)@).instructions.len() <= usize::MAX,
            cur_v(old(self)@).instructions[cur_v(old(self)@).ip] == CodeV::Get(name@),
        ensures
            final(self).wf(),
            final(self)@ == step_v(old(self)@).0,
            st == step_v(old(self)@).1,
    {
        let v = match self.get_local(&name) {
            Some(v) => v,
            None => {
                return Status::Failed(RuntimeError::UndefinedVariable);
            },
        };
        self.push(v);
        self.next();
        proof {
            assert(self@.frames =~= step_v(old(self)@).0.frames);
        }
        Status::Running
    }

    fn step_get_constant(&mut self, name: String) -> (st: Status)
        requires
            old(self).wf(),
            0 <= cur_v(old(self)@).ip < cur_v(old(self)@).instructions.len(),
            cur_v(old(self)@).instructions.len() <= usize::MAX,
            cur_v(old(self)@).instructions[cur_v(old(self)@).ip] == CodeV::GetConstant(name@),
        ensures
            final(self).wf(),
            final(self)@ == step_v(old(self)@).0,
            st == step_v(old(self)@).1,
    {
        let v = match self.globals.get_constant(name) {
            Some(v) => v,
            None => {
                return Status::Failed(RuntimeError::UndefinedConstant);
            },
        };
        self.push(v);
        self.next();
        proof {
            assert(self@.frames =~= step_v(old(self)@).0.frames);
        }
        Status::Running
    }

    fn step_binary(&mut self, op: Op) -> (st: Status)
        requires
            old(self).wf(),
            0 <= cur_v(old(self)@).ip < cur_v(old(self)@).instructions.len(),
            cur_v(old(self)@).instructions.len() <= usize::MAX,
            op_of(cur_v(old(self)@).instructions[cur_v(old(self)@).ip]) == op,
            is_binary_code(cur_v(old(self)@).instructions[cur_v(old(self)@).ip]),
        ensures
            final(self).wf(),
            final(self)@ == step_v(old(self)@).0,
            st == step_v(old(self)@).1,
    {
        let (lhs, rhs) = match self.peek2() {
            Some(p) => p,
            None => {
                return Status::Failed(RuntimeError::StackUnderflow);
            },
        };
        let v = match eval_op(op, &lhs, &rhs) {
            Ok(v) => v,
            Err(e) => {
                return Status::Failed(e);
            },
        };
        self.pop();
        self.pop();
        self.push(v);
        self.next();
        proof {
            assert(self@.frames =~= step_v(old(self)@).0.frames);
        }
        Status::Running
    }

    fn step_init_call(&mut self, name: String) -> (st: Status)
        requires
            old(self).wf(),
            0 <= cur_v(old(self)@).ip < cur_v(old(self)@).instructions.len(),
            cur_v(old(self)@).instructions.len() <= usize::MAX,
            cur_v(old(self)@).instructions[cur_v(old(self)@).ip] == CodeV::InitCall(name@),
        ensures
            final(self).wf(),
            final(self)@ == step_v(old(self)@).0,
            st == step_v(old(self)@).1,
    {
        let frame = if self.globals.is_user_function(&name) {
            let instructions = self.globals.get_user_function(name);
            Frame::new(instructions)
        } else {
            match self.globals.get_internal_function(&name) {
                Some(i) => Frame::internal(i),
                None => {
                    proof {
                        if old(self)@.globals.functions.contains_key(name@) {
                            match old(self)@.globals.functions[name@] {
                                FunctionV::User(_) => {
                                    assert(false);
                                },
                                FunctionV::Internal(_) => {
                                    assert(false);
                                },
                            }
                        }
                    }
                    return Status::Failed(RuntimeError::UndefinedFunction);
                },
            }
        };
        self.push_buffer(frame);
        self.next();
        proof {
            assert(self@.frames =~= step_v(old(self)@).0.frames);
            assert(self@.buffer =~= step_v(old(self)@).0.buffer);
        }
        Status::Running
    }

    fn step_send_arg(&mut self) -> (st: Status)
        requires
            old(self).wf(),
            0 <= cur_v(old(self)@).ip < cur_v(old(self)@).instructions.len(),
            cur_v(old(self)@).instructions.len() <= usize::MAX,
            cur_v(old(self)@).instructions[cur_v(old(self)@).ip] == CodeV::SendArg,
        ensures
            final(self).wf(),
            final(self)@ == step_v(old(self)@).0,
            st == step_v(old(self)@).1,
    {
        if self.frames[self.frames.len() - 1].stack.len() == 0 {
            return Status::Failed(RuntimeError::StackUnderflow);
        }
        if self.buffer.len() == 0 {
            return Status::Failed(RuntimeError::CallBufferUnderflow);
        }
        let v = match self.pop() {
            Some(v) => v,
            None => unreached(),
        };
        self.buffer_top_push(v);
        self.next();
        proof {
            assert(self@.frames =~= step_v(old(self)@).0.frames);
            assert(self@.buffer =~= step_v(old(self)@).0.buffer);
        }
        Status::Running
    }

    fn step_do_user_call(&mut self) -> (st: Status)
        requires
            old(self).wf(),
            0 <= cur_v(old(self)@).ip < cur_v(old(self)@).instructions.len(),
            cur_v(old(self)@).instructions.len() <= usize::MAX,
            cur_v(old(self)@).instructions[cur_v(old(self)@).ip] == CodeV::DoUserCall,
        ensures
            final(self).wf(),
            final(self)@ == step_v(old(self)@).0,
            st == step_v(old(self)@).1,
    {
        let frame = match self.pop_buffer() {
            Some(f) => f,
            None => {
                return Status::Failed(RuntimeError::CallBufferUnderflow);
            },
        };
        self.next();
        self.push_frame(frame);
        proof {
            assert(self@.frames =~= step_v(old(self)@).0.frames);
            assert(self@.buffer =~= step_v(old(self)@).0.buffer);
        }
        Status::Running
    }

    fn step_do_internal_call(&mut self) -> (st: Status)
        requires
            old(self).wf(),
            0 <= cur_v(old(self)@).ip < cur_v(old(self)@).instructions.len(),
            cur_v(old(self)@).instructions.len() <= usize::MAX,
            cur_v(old(self)@).instructions[cur_v(old(self)@).ip] == CodeV::DoInternalCall,
        ensures
            final(self).wf(),
            final(self)@ == step_v(old(self)@).0,
            st == step_v(old(self)@).1,
    {
        let frame = match self.pop_buffer() {
            Some(f) => f,
            None => {
                return Status::Failed(RuntimeError::CallBufferUnderflow);
            },
        };
        let internal = match frame.internal {
            Some(i) => i,
            None => {
                return Status::Failed(RuntimeError::CallKindMismatch);
            },
        };
        let args = reverse_objects(frame.stack);
        let ghost staged = *self;
        let result = crate::stdlib::call_internal(self, internal.callback, args);
        proof {
            crate::stdlib::lemma_internal_preserves(
                internal.callback,
                old(self)@.buffer.last().stack.reverse(),
                staged@,
            );
        }
        match result {
            Ok(v) => {
                self.push(v);
                self.next();
                proof {
                    assert(self@.frames =~= step_v(old(self)@).0.frames);
                }
                Status::Running
            },
            Err(e) => Status::Failed(e),
        }
    }

    fn step_return(&mut self) -> (st: Status)
        requires
            old(self).wf(),
            0 <= cur_v(old(self)@).ip < cur_v(old(self)@).instructions.len(),
            cur_v(old(self)@).instructions.len() <= usize::MAX,
            cur_v(old(self)@).instructions[cur_v(old(self)@).ip] == CodeV::Return,
        ensures
            final(self).wf(),
            final(self)@ == step_v(old(self)@).0,
            st == step_v(old(self)@).1,
    {
        if self.frames.len() == 1 {
            return Status::Failed(RuntimeError::FrameUnderflow);
        }
        self.pop_frame();
        self.push(Object::Null);
        proof {
            assert(self@.frames =~= step_v(old(self)@).0.frames);
        }
        Status::Running
    }

    fn step_return_with(&mut self) -> (st: Status)
        requires
            old(self).wf(),
            0 <= cur_v(old(self)@).ip < cur_v(old(self)@).instructions.len(),
            cur_v(old(self)@).instructions.len() <= usize::MAX,
            cur_v(old(self)@).instructions[cur_v(old(self)@).ip] == CodeV::ReturnWith,
        ensures
            final(self).wf(),
            final(self)@ == step_v(old(self)@).0,
            st == step_v(old(self)@).1,
    {
        if self.frames[self.frames.len() - 1].stack.len() == 0 {
            return Status::Failed(RuntimeError::StackUnderflow);
        }
        if self.frames.len() == 1 {
            return Status::Failed(RuntimeError::FrameUnderflow);
        }
        let v = match self.pop() {
            Some(v) => v,
            None => unreached(),
        };
        self.pop_frame();
        self.push(v);
        proof {
            assert(self@.frames =~= step_v(old(self)@).0.frames);
        }
        Status::Running
    }

    fn step_init_array(&mut self) -> (st: Status)
        requires
            old(self).wf(),
            0 <= cur_v(old(self)@).ip < cur_v(old(self)@).instructions.len(),
            cur_v(old(self)@).instructions.len() <= usize::MAX,
            cur_v(old(self)@).instructions[cur_v(old(self)@).ip] == CodeV::InitArray,
        ensures
            final(self).wf(),
            final(self)@ == step_v(old(self)@).0,
            st == step_v(old(self)@).1,
    {
        let o = self.arrays_new();
        self.push(o);
        self.next();
        proof {
            assert(self@.frames =~= step_v(old(self)@).0.frames);
        }
        Status::Running
    }

    fn step_add_to_array(&mut self) -> (st: Status)
        requires
            old(self).wf(),
            0 <= cur_v(old(self)@).ip < cur_v(old(self)@).instructions.len(),
            cur_v(old(self)@).instructions.len() <= usize::MAX,
            cur_v(old(self)@).instructions[cur_v(old(self)@).ip] == CodeV::AddToArray,
        ensures
            final(self).wf(),
            final(self)@ == step_v(old(self)@).0,
            st == step_v(old(self)@).1,
    {
        let (arr, v) = match self.peek2() {
            Some(p) => p,
            None => {
                return Status::Failed(RuntimeError::StackUnderflow);
            },
        };
        let id = match arr {
            Object::Array(id) => id,
            _ => {
                return Status::Failed(RuntimeError::TypeMismatch);
            },
        };
        if id >= self.arena_len() {
            return Status::Failed(RuntimeError::TypeMismatch);
        }
        self.pop();
        self.pop();
        self.arrays_append(id, v);
        self.push(Object::Array(id));
        self.next();
        proof {
            assert(self@.frames =~= step_v(old(self)@).0.frames);
        }
        Status::Running
    }

    fn step_get_array_item(&mut self) -> (st: Status)
        requires
            old(self).wf(),
            0 <= cur_v(old(self)@).ip < cur_v(old(self)@).instructions.len(),
            cur_v(old(self)@).instructions.len() <= usize::MAX,
            cur_v(old(self)@).instructions[cur_v(old(self)@).ip] == CodeV::GetArrayItem,
        ensures
            final(self).wf(),
            final(self)@ == step_v(old(self)@).0,
            st == step_v(old(self)@).1,
    {
        let (arr, idx) = match self.peek2() {
            Some(p) => p,
            None => {
                return Status::Failed(RuntimeError::StackUnderflow);
            },
        };
        let id = match arr {
            Object::Array(id) => id,
            _ => {
                return Status::Failed(RuntimeError::TypeMismatch);
            },
        };
        if id >= self.arena_len() {
            return Status::Failed(RuntimeError::TypeMismatch);
        }
        let key = match idx.render() {
            Ok(s) => s,
            Err(e) => {
                return Status::Failed(e);
            },
        };
        let v = match self.arrays_get(id, &key) {
            Some(v) => v,
            None => {
                return Status::Failed(RuntimeError::UndefinedArrayKey);
            },
        };
        self.pop();
        self.pop();
        self.push(v);
        self.next();
        proof {
            assert(self@.frames =~= step_v(old(self)@).0.frames);
        }
        Status::Running
    }

    /// One fetch/decode/execute step: exactly `step_v` of the machine.
    pub fn step(&mut self) -> (st: Status)
        requires
            old(self).wf(),
        ensures
            final(self).wf(),
            final(self)@ == step_v(old(self)@).0,
            st == step_v(old(self)@).1,
    {
        let ip = self.cur_ip();
        let len = self.cur_len();
        if ip >= len {
            return Status::Done;
        }
        let op = self.fetch();
        match op {
            Code::Constant(ci) => self.step_constant(ci),
            Code::True => self.step_push_bool(true),
            Code::False => self.step_push_bool(false),
            Code::Jump(t) => {
                self.set_ip(t);
                proof {
                    assert(self@.frames =~= step_v(old(self)@).0.frames);
                }
                Status::Running
            },
            Code::JumpIfFalse(t) => self.step_jump_cond(t, false),
            Code::JumpIfTrue(t) => self.step_jump_cond(t, true),
            Code::Echo => self.step_echo(),
            Code::Pop => self.step_pop(),
            Code::Assign(name) => self.step_assign(name),
            Code::Get(name) => self.step_get(name),
            Code::GetConstant(name) => self.step_get_constant(name),
            Code::Add => self.step_binary(Op::Add),
            Code::Subtract => self.step_binary(Op::Subtract),
            Code::Multiply => self.step_binary(Op::Multiply),
            Code::Divide => self.step_binary(Op::Divide),
            Code::LessThan => self.step_binary(Op::LessThan),
            Code::GreaterThan => self.step_binary(Op::GreaterThan),
            Code::Concat => self.step_binary(Op::Concat),
            Code::InitCall(name) => self.step_init_call(name),
            Code::SendArg => self.step_send_arg(),
            Code::DoUserCall => self.step_do_user_call(),
            Code::DoInternalCall => self.step_do_internal_call(),
            Code::Return => self.step_return(),
            Code::ReturnWith => self.step_return_with(),
            Code::InitArray => self.step_init_array(),
            Code::AddToArray => self.step_add_to_array(),
            Code::GetArrayItem => self.step_get_array_item(),
        }
    }
}

/// The staged arguments restored to declaration order.
fn reverse_objects(v: Vec<Object>) -> (r: Vec<Object>)
    ensures
        objs_view(r@) == objs_view(v@).reverse(),
{
    let ghost orig = v@;
    let mut v = v;
    let mut r: Vec<Object> = Vec::new();
    while v.len() > 0
        invariant
            v@ == orig.take(v@.len() as int),
            r@.len() + v@.len() == orig.len(),
            forall|j: int| 0 <= j < r@.len() ==> r@[j]@ == orig[orig.len() - 1 - j]@,
        decreases v.len(),
    {
        let x = match v.pop() {
            Some(x) => x,
            None => unreached(),
        };
        proof {
            assert(x == orig[v@.len() as int]);
            assert(v@ =~= orig.take(v@.len() as int));
        }
        r.push(x);
    }
    proof {
        assert(objs_view(r@) =~= objs_view(orig).reverse());
    }
    r
}

/// Up to `fuel` machine steps: the machine and status that stepping reaches,
/// `Running` if the budget runs out first.
pub open spec fn run_v(m: MachineV, fuel: nat) -> (MachineV, Status)
    decreases fuel,
{
    if fuel == 0 {
        (m, Status::Running)
    } else {
        let (m2, st) = step_v(m);
        if st == Status::Running {
            run_v(m2, (fuel - 1) as nat)
        } else {
            (m2, st)
        }
    }
}

/// The machine a program boots into: one frame over the top-level
/// instructions, empty staging stack, empty arena, no output yet.
pub open spec fn boot_v(constants: Seq<ObjectV>, code: Seq<CodeV>, globals: GlobalsV) -> MachineV {
    MachineV {
        constants,
        frames: seq![
            FrameV {
                ip: 0,
                instructions: code,
                environment: Map::empty(),
                stack: Seq::empty(),
                internal: None,
            },
        ],
        buffer: Seq::empty(),
        globals,
        arrays: Seq::empty(),
        output: Seq::empty(),
    }
}

impl Machine {
    /// Drives the fetch/execute loop for at most `fuel` steps. The result is
    /// exactly `run_v` of the starting state: `Done` when the current frame
    /// ran off the end of its instructions, `Failed` on a fatal error with
    /// the machine stopped where it stood, `Running` if the budget ran out.
    pub fn run(&mut self, fuel: u64) -> (st: Status)
        requires
            old(self).wf(),
        ensures
            final(self).wf(),
            final(self)@ == run_v(old(self)@, fuel as nat).0,
            st == run_v(old(self)@, fuel as nat).1,
    {
        let mut remaining = fuel;
        while remaining > 0
            invariant
                self.wf(),
                run_v(old(self)@, fuel as nat) == run_v(self@, remaining as nat),
            decreases remaining,
        {
            let ghost pre = self@;
            let st = self.step();
            if !matches!(st, Status::Running) {
                proof {
                    assert(run_v(pre, remaining as nat) == (self@, st));
                }
                return st;
            }
            remaining = remaining - 1;
        }
        Status::Running
    }
}

/// Executes a compiled program: a constant pool, a top-level instruction
/// sequence and a populated registry, within a step budget. Returns the
/// echoed output in order, and how the run ended: `Done` for normal
/// completion, `Failed` with the fatal error's category, `Running` if the
/// budget was exhausted first. A fatal error keeps every line echoed before
/// the failing instruction.
pub fn run(constants: Vec<Object>, instructions: Vec<Code>, globals: Globals, fuel: u64) -> (r: (
    Vec<String>,
    Status,
))
    requires
        globals.wf(),
    ensures
        ({
            let (mm, st) = run_v(
                boot_v(objs_view(constants@), code_view(instructions@), globals@),
                fuel as nat,
            );
            &&& r.0@.map_values(|s: String| s@) == mm.output
            &&& r.1 == st
        }),
{
    let mut frames = Vec::new();
    frames.push(Frame::new(instructions));
    let mut machine = Machine {
        constants,
        frames,
        buffer: Vec::new(),
        globals,
        arrays: Arrays::new(),
        output: Vec::new(),
    };
    proof {
        assert(machine@.frames =~= boot_v(
            objs_view(constants@),
            code_view(instructions@),
            globals@,
        ).frames);
        assert(machine@.buffer =~= Seq::<FrameV>::empty());
        assert(machine@.output =~= Seq::<Seq<char>>::empty());
    }
    let st = machine.run(fuel);
    (machine.output, st)
}

/// Running the two-instruction shape the compiler emits for an echoed,
/// folded literal — push one pooled constant, echo it — prints exactly that
/// constant's display form and completes. Together with the compiler's
/// guarantee that folding pools exactly the value the evaluator yields for
/// the unfolded operands, folding cannot change what a program prints.
pub proof fn lemma_push_echo_prints_constant(v: ObjectV, g: GlobalsV, rendered: Seq<char>, fuel: nat)
    requires
        fuel >= 3,
        crate::object::rendering(v) == Ok::<Seq<char>, RuntimeError>(rendered),
    ensures
        ({
            let m0 = boot_v(seq![v], seq![CodeV::Constant(0), CodeV::Echo], g);
            let (mf, st) = run_v(m0, fuel);
            st == Status::Done && mf.output == seq![rendered]
        }),
{
    let m0 = boot_v(seq![v], seq![CodeV::Constant(0), CodeV::Echo], g);
    let (m1, st1) = step_v(m0);
    assert(cur_v(m1).stack =~= Seq::<ObjectV>::empty().push(v));
    let (m2, st2) = step_v(m1);
    assert(st1 == Status::Running && st2 == Status::Running);
    assert(cur_v(m2).ip == 2);
    let (m3, st3) = step_v(m2);
    assert(st3 == Status::Done && m3 == m2);
    reveal_with_fuel(run_v, 4);
    lemma_run_done(m2, (fuel - 2) as nat);
    assert(run_v(m0, fuel).0.output =~= seq![rendered]);
}

proof fn lemma_run_done(m: MachineV, fuel: nat)
    requires
        fuel >= 1,
        step_v(m).1 == Status::Done,
    ensures
        run_v(m, fuel) == (step_v(m).0, Status::Done),
{
}

/// One step only ever appends to the output: whatever a step does, the text
/// echoed so far stays in place.
pub proof fn lemma_step_output_extends(m: MachineV)
    ensures
        m.output.is_prefix_of(step_v(m).0.output),
{
    let f = m.frames.last();
    if 0 <= f.ip < f.instructions.len() {
        match f.instructions[f.ip] {
            CodeV::DoInternalCall => {
                if m.buffer.len() > 0 {
                    let bf = m.buffer.last();
                    match bf.internal {
                        Some(i) => {
                            let m2 = MachineV { buffer: m.buffer.drop_last(), ..m };
                            crate::stdlib::lemma_internal_output_extends(
                                i.callback,
                                bf.stack.reverse(),
                                m2,
                            );
                        },
                        None => {},
                    }
                }
            },
            _ => {},
        }
    }
    assert(m.output =~= step_v(m).0.output.subrange(0, m.output.len() as int));
}

/// A whole run only ever appends to the output: on any outcome — normal
/// completion, fatal error, or an exhausted budget — everything echoed
/// earlier is still there, in order, as a prefix.
pub proof fn lemma_run_output_extends(m: MachineV, fuel: nat)
    ensures
        m.output.is_prefix_of(run_v(m, fuel).0.output),
    decreases fuel,
{
    if fuel == 0 {
        assert(m.output =~= run_v(m, fuel).0.output.subrange(0, m.output.len() as int));
    } else {
        lemma_step_output_extends(m);
        let (m2, st) = step_v(m);
        if st == Status::Running {
            lemma_run_output_extends(m2, (fuel - 1) as nat);
            assert(m.output =~= run_v(m, fuel).0.output.subrange(0, m.output.len() as int));
        }
    }
}

} // verus!
