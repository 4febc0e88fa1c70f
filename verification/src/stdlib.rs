//! The host ("internal") function library: type checkers and converters, a
//! filesystem-name helper, constant definition, the structural dump, and the
//! array counter. Each one validates its own arity and argument shapes and
//! reports a fatal error on violation — the machine aborts the run on any of
//! them.

use vstd::prelude::*;
use vstd::string::StrSliceExecFns;
use crate::error::RuntimeError;
use crate::globals::InternalFunctionCallback;
use crate::object::{dump_v, objs_view, rendering, Object, ObjectV};
use crate::text::push_char;
use crate::vm::{Machine, MachineV};

verus! {

/// The given sequence without its trailing slashes.
pub open spec fn trim_trailing_slashes(s: Seq<char>) -> Seq<char>
    decreases s.len(),
{
    if s.len() > 0 && s.last() == '/' {
        trim_trailing_slashes(s.drop_last())
    } else {
        s
    }
}

/// The characters after the last slash (the whole sequence if there is none).
pub open spec fn suffix_after_slash(s: Seq<char>) -> Seq<char>
    decreases s.len(),
{
    if s.len() == 0 {
        Seq::empty()
    } else if s.last() == '/' {
        Seq::empty()
    } else {
        suffix_after_slash(s.drop_last()).push(s.last())
    }
}

/// The final path component: trailing slashes are ignored, and a path that
/// leaves nothing (empty, all slashes) or ends in a parent reference has no
/// base name.
pub open spec fn basename_of(s: Seq<char>) -> Option<Seq<char>> {
    let b = suffix_after_slash(trim_trailing_slashes(s));
    if b.len() == 0 || b == ".."@ {
        None
    } else {
        Some(b)
    }
}

/// Computes the final path component of `s`.
fn basename_str(s: &String) -> (r: Option<String>)
    ensures
        match r {
            Some(b) => basename_of(s@) == Some(b@),
            None => basename_of(s@) is None,
        },
{
    let text = s.as_str();
    let n = text.unicode_len();
    let mut end: usize = n;
    proof {
        assert(s@.take(n as int) =~= s@);
    }
    while end > 0 && text.get_char(end - 1) == '/'
        invariant
            end <= n,
            n == s@.len(),
            text@ == s@,
            trim_trailing_slashes(s@) == trim_trailing_slashes(s@.take(end as int)),
        decreases end,
    {
        proof {
            assert(s@.take(end as int).last() == s@[end - 1]);
            assert(s@.take(end as int).drop_last() =~= s@.take(end as int - 1));
        }
        end = end - 1;
    }
    let ghost trimmed = s@.take(end as int);
    proof {
        if end > 0 {
            assert(trimmed.last() == s@[end - 1]);
        }
        assert(trim_trailing_slashes(s@) == trimmed);
    }
    let mut start: usize = end;
    proof {
        assert(trimmed.skip(end as int) =~= Seq::<char>::empty());
        assert(trimmed.take(end as int) =~= trimmed);
        assert(suffix_after_slash(trimmed) =~= suffix_after_slash(trimmed.take(end as int))
            + trimmed.skip(end as int));
    }
    while start > 0 && text.get_char(start - 1) != '/'
        invariant
            start <= end,
            end <= n,
            n == s@.len(),
            text@ == s@,
            trimmed == s@.take(end as int),
            suffix_after_slash(trimmed) == suffix_after_slash(trimmed.take(start as int))
                + trimmed.skip(start as int),
        decreases start,
    {
        proof {
            assert(trimmed.take(start as int).last() == s@[start - 1]);
            assert(trimmed.take(start as int).drop_last() =~= trimmed.take(start as int - 1));
            assert(suffix_after_slash(trimmed.take(start as int)) == suffix_after_slash(
                trimmed.take(start as int - 1),
            ).push(trimmed[start as int - 1]));
            assert(suffix_after_slash(trimmed.take(start as int - 1)) + trimmed.skip(
                start as int - 1,
            ) =~= suffix_after_slash(trimmed.take(start as int)) + trimmed.skip(start as int));
        }
        start = start - 1;
    }
    proof {
        if start > 0 {
            assert(trimmed.take(start as int).last() == s@[start - 1]);
            assert(suffix_after_slash(trimmed.take(start as int)) =~= Seq::<char>::empty());
        } else {
            assert(trimmed.take(0) =~= Seq::<char>::empty());
            assert(suffix_after_slash(trimmed.take(0)) =~= Seq::<char>::empty());
        }
        assert(suffix_after_slash(trimmed) =~= trimmed.skip(start as int));
    }
    let mut out = String::new();
    let mut i: usize = start;
    while i < end
        invariant
            start <= i <= end,
            end <= n,
            n == s@.len(),
            text@ == s@,
            out@ == s@.subrange(start as int, i as int),
        decreases end - i,
    {
        push_char(&mut out, text.get_char(i));
        proof {
            assert(out@ =~= s@.subrange(start as int, i as int + 1));
        }
        i = i + 1;
    }
    proof {
        assert(trimmed.skip(start as int) =~= s@.subrange(start as int, end as int));
        assert(out@ == suffix_after_slash(trim_trailing_slashes(s@)));
    }
    if out.as_str().is_empty() {
        return None;
    }
    let dots = "..".to_owned();
    if out.eq(&dots) {
        proof {
            assert(out@ == ".."@);
        }
        return None;
    }
    Some(out)
}

/// What one host call does to the machine, and what it hands back: the
/// semantics every `invoke-internal-function` step follows. Arguments arrive
/// already restored to declaration order.
pub open spec fn internal_result_v(
    cb: InternalFunctionCallback,
    args: Seq<ObjectV>,
    m: MachineV,
) -> (MachineV, Result<ObjectV, RuntimeError>) {
    match cb {
        InternalFunctionCallback::IsString => {
            if args.len() != 1 {
                (m, Err(RuntimeError::ArityMismatch))
            } else if args[0] is Str {
                (m, Ok(ObjectV::True))
            } else {
                (m, Ok(ObjectV::False))
            }
        },
        InternalFunctionCallback::Strval => {
            if args.len() != 1 {
                (m, Err(RuntimeError::ArityMismatch))
            } else {
                match rendering(args[0]) {
                    Ok(s) => (m, Ok(ObjectV::Str(s))),
                    Err(e) => (m, Err(e)),
                }
            }
        },
        InternalFunctionCallback::Basename => {
            if args.len() != 1 {
                (m, Err(RuntimeError::ArityMismatch))
            } else {
                match args[0] {
                    ObjectV::Str(s) => match basename_of(s) {
                        Some(b) => (m, Ok(ObjectV::Str(b))),
                        None => (m, Err(RuntimeError::TypeMismatch)),
                    },
                    _ => (m, Err(RuntimeError::TypeMismatch)),
                }
            }
        },
        InternalFunctionCallback::Define => {
            if args.len() != 2 {
                (m, Err(RuntimeError::ArityMismatch))
            } else {
                match args[0] {
                    ObjectV::Str(name) => (
                        MachineV {
                            globals: crate::globals::GlobalsV {
                                constants: m.globals.constants.insert(name, args[1]),
                                ..m.globals
                            },
                            ..m
                        },
                        Ok(ObjectV::True),
                    ),
                    _ => (m, Err(RuntimeError::TypeMismatch)),
                }
            }
        },
        InternalFunctionCallback::VarDump => {
            if args.len() != 1 {
                (m, Err(RuntimeError::ArityMismatch))
            } else {
                match dump_v(args[0], m.arrays, m.arrays.len()) {
                    Ok(s) => (
                        MachineV { output: m.output.push(s.push('\n')), ..m },
                        Ok(ObjectV::Null),
                    ),
                    Err(e) => (m, Err(e)),
                }
            }
        },
        InternalFunctionCallback::Count => {
            if args.len() != 1 {
                (m, Err(RuntimeError::ArityMismatch))
            } else {
                match args[0] {
                    ObjectV::Array(id) => {
                        if !(0 <= id < m.arrays.len()) {
                            (m, Err(RuntimeError::TypeMismatch))
                        } else if m.arrays[id].len() > i64::MAX {
                            (m, Err(RuntimeError::TypeMismatch))
                        } else {
                            (m, Ok(ObjectV::Int(m.arrays[id].len() as i64)))
                        }
                    },
                    _ => (m, Err(RuntimeError::TypeMismatch)),
                }
            }
        },
    }
}

/// A host call touches only the registry's constants and the output: the
/// frame stacks, the constant pool and the arena come through unchanged.
pub proof fn lemma_internal_preserves(
    cb: InternalFunctionCallback,
    args: Seq<ObjectV>,
    m: MachineV,
)
    ensures
        internal_result_v(cb, args, m).0.frames == m.frames,
        internal_result_v(cb, args, m).0.buffer == m.buffer,
        internal_result_v(cb, args, m).0.constants == m.constants,
        internal_result_v(cb, args, m).0.arrays == m.arrays,
        internal_result_v(cb, args, m).0.globals.functions == m.globals.functions,
{
}

/// A host call only ever appends to the output.
pub proof fn lemma_internal_output_extends(
    cb: InternalFunctionCallback,
    args: Seq<ObjectV>,
    m: MachineV,
)
    ensures
        m.output.is_prefix_of(internal_result_v(cb, args, m).0.output),
{
    assert(m.output =~= internal_result_v(cb, args, m).0.output.subrange(
        0,
        m.output.len() as int,
    ));
}

/// Runs one host function against the machine. The contract is exact: the
/// machine and the handed-back value are precisely what `internal_result_v`
/// says for this callback and argument list.
pub fn call_internal(vm: &mut Machine, cb: InternalFunctionCallback, args: Vec<Object>) -> (r:
    Result<Object, RuntimeError>)
    requires
        old(vm).wf(),
    ensures
        final(vm).wf(),
        ({
            let (mm, rr) = internal_result_v(cb, objs_view(args@), old(vm)@);
            &&& final(vm)@ == mm
            &&& match (r, rr) {
                (Ok(v), Ok(vv)) => v@ == vv,
                (Err(e), Err(ee)) => e == ee,
                _ => false,
            }
        }),
{
    match cb {
        InternalFunctionCallback::IsString => {
            if args.len() != 1 {
                return Err(RuntimeError::ArityMismatch);
            }
            Ok(Object::from_bool(args[0].is_string()))
        },
        InternalFunctionCallback::Strval => {
            if args.len() != 1 {
                return Err(RuntimeError::ArityMismatch);
            }
            match args[0].render() {
                Ok(s) => Ok(Object::String(s)),
                Err(e) => Err(e),
            }
        },
        InternalFunctionCallback::Basename => {
            if args.len() != 1 {
                return Err(RuntimeError::ArityMismatch);
            }
            match &args[0] {
                Object::String(s) => match basename_str(s) {
                    Some(b) => Ok(Object::String(b)),
                    None => Err(RuntimeError::TypeMismatch),
                },
                _ => Err(RuntimeError::TypeMismatch),
            }
        },
        InternalFunctionCallback::Define => {
            if args.len() != 2 {
                return Err(RuntimeError::ArityMismatch);
            }
            let value = args[1].clone();
            match &args[0] {
                Object::String(s) => {
                    vm.define_constant(s.clone(), value);
                    Ok(Object::True)
                },
                _ => Err(RuntimeError::TypeMismatch),
            }
        },
        InternalFunctionCallback::VarDump => {
            if args.len() != 1 {
                return Err(RuntimeError::ArityMismatch);
            }
            let depth = vm.arena_len();
            match args[0].dump(vm.arena(), depth as u64) {
                Ok(mut s) => {
                    push_char(&mut s, '\n');
                    vm.write_output(s);
                    Ok(Object::Null)
                },
                Err(e) => Err(e),
            }
        },
        InternalFunctionCallback::Count => {
            if args.len() != 1 {
                return Err(RuntimeError::ArityMismatch);
            }
            proof {
                assert(objs_view(args@)[0] == args@[0]@);
            }
            match &args[0] {
                Object::Array(id) => {
                    let id = *id;
                    if id >= vm.arena_len() {
                        return Err(RuntimeError::TypeMismatch);
                    }
                    let n = vm.arena().count(id);
                    if (n as u64) > (i64::MAX as u64) {
                        return Err(RuntimeError::TypeMismatch);
                    }
                    Ok(Object::Integer(n as i64))
                },
                _ => Err(RuntimeError::TypeMismatch),
            }
        },
    }
}

/// Host `is_string`: whether the one argument is a string value.
pub fn is_string(vm: &mut Machine, args: Vec<Object>) -> (r: Result<Object, RuntimeError>)
    requires
        old(vm).wf(),
    ensures
        final(vm).wf(),
        host_call_matches(InternalFunctionCallback::IsString, objs_view(args@), old(vm)@, final(vm)@, r),
{
    call_internal(vm, InternalFunctionCallback::IsString, args)
}

/// Host `strval`: the one argument's display-string form.
pub fn strval(vm: &mut Machine, args: Vec<Object>) -> (r: Result<Object, RuntimeError>)
    requires
        old(vm).wf(),
    ensures
        final(vm).wf(),
        host_call_matches(InternalFunctionCallback::Strval, objs_view(args@), old(vm)@, final(vm)@, r),
{
    call_internal(vm, InternalFunctionCallback::Strval, args)
}

/// Host `basename`: the final path component of the one string argument.
pub fn basename(vm: &mut Machine, args: Vec<Object>) -> (r: Result<Object, RuntimeError>)
    requires
        old(vm).wf(),
    ensures
        final(vm).wf(),
        host_call_matches(InternalFunctionCallback::Basename, objs_view(args@), old(vm)@, final(vm)@, r),
{
    call_internal(vm, InternalFunctionCallback::Basename, args)
}

/// Host `define`: binds the named global constant to the given value.
pub fn define(vm: &mut Machine, args: Vec<Object>) -> (r: Result<Object, RuntimeError>)
    requires
        old(vm).wf(),
    ensures
        final(vm).wf(),
        host_call_matches(InternalFunctionCallback::Define, objs_view(args@), old(vm)@, final(vm)@, r),
{
    call_internal(vm, InternalFunctionCallback::Define, args)
}

/// Host `var_dump`: echoes the one argument's structural dump.
pub fn var_dump(vm: &mut Machine, args: Vec<Object>) -> (r: Result<Object, RuntimeError>)
    requires
        old(vm).wf(),
    ensures
        final(vm).wf(),
        host_call_matches(InternalFunctionCallback::VarDump, objs_view(args@), old(vm)@, final(vm)@, r),
{
    call_internal(vm, InternalFunctionCallback::VarDump, args)
}

/// Host `count`: how many entries the one array argument holds.
pub fn count(vm: &mut Machine, args: Vec<Object>) -> (r: Result<Object, RuntimeError>)
    requires
        old(vm).wf(),
    ensures
        final(vm).wf(),
        host_call_matches(InternalFunctionCallback::Count, objs_view(args@), old(vm)@, final(vm)@, r),
{
    call_internal(vm, InternalFunctionCallback::Count, args)
}

/// The relation every host entry point keeps: the machine ends, and the value
/// or error comes back, exactly as `internal_result_v` prescribes.
pub open spec fn host_call_matches(
    cb: InternalFunctionCallback,
    args: Seq<ObjectV>,
    pre: MachineV,
    post: MachineV,
    r: Result<Object, RuntimeError>,
) -> bool {
    let (mm, rr) = internal_result_v(cb, args, pre);
    &&& post == mm
    &&& match (r, rr) {
        (Ok(v), Ok(vv)) => v@ == vv,
        (Err(e), Err(ee)) => e == ee,
        _ => false,
    }
}

} // verus!
