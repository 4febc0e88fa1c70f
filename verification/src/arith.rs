//! Dynamic arithmetic, comparison and concatenation with implicit numeric
//! promotion. One evaluator serves both the machine (at run time) and the
//! compiler (its literal-folding fast path), so folding cannot change what a
//! program computes.

use vstd::prelude::*;
use crate::ast::Op;
use crate::error::RuntimeError;
use crate::float_ops::{
    f64_add, f64_add_bits, f64_div, f64_div_bits, f64_gt, f64_gt_bits, f64_lt, f64_lt_bits,
    f64_mul, f64_mul_bits, f64_of_i64, f64_of_i64_bits, f64_sub, f64_sub_bits,
};
use crate::object::{rendering, Object, ObjectV};
use crate::text::push_string;

verus! {

/// The IEEE-754 binary64 bits a numeric operand contributes when the
/// operation promotes to float.
pub open spec fn promoted_bits(v: ObjectV) -> Option<u64> {
    match v {
        ObjectV::Int(i) => Some(f64_of_i64_bits(i)),
        ObjectV::Float(b) => Some(b),
        _ => None,
    }
}

/// A boolean as a runtime value.
pub open spec fn bool_object(b: bool) -> ObjectV {
    if b {
        ObjectV::True
    } else {
        ObjectV::False
    }
}

/// What a binary operation yields, abstractly.
///
/// Addition, subtraction and multiplication of two integers stay integers,
/// wrapping on overflow; division always promotes to float, and any float
/// operand promotes the result to float. Comparisons yield booleans.
/// Concatenation renders both operands by the display rule and joins them.
/// Every other operand shape is a type fault.
pub open spec fn eval_op_v(op: Op, l: ObjectV, r: ObjectV) -> Result<ObjectV, RuntimeError> {
    match op {
        Op::Add => match (l, r) {
            (ObjectV::Int(a), ObjectV::Int(b)) => Ok(ObjectV::Int(a.wrapping_add(b))),
            _ => match (promoted_bits(l), promoted_bits(r)) {
                (Some(a), Some(b)) => Ok(ObjectV::Float(f64_add_bits(a, b))),
                _ => Err(RuntimeError::TypeMismatch),
            },
        },
        Op::Subtract => match (l, r) {
            (ObjectV::Int(a), ObjectV::Int(b)) => Ok(ObjectV::Int(a.wrapping_sub(b))),
            _ => match (promoted_bits(l), promoted_bits(r)) {
                (Some(a), Some(b)) => Ok(ObjectV::Float(f64_sub_bits(a, b))),
                _ => Err(RuntimeError::TypeMismatch),
            },
        },
        Op::Multiply => match (l, r) {
            (ObjectV::Int(a), ObjectV::Int(b)) => Ok(ObjectV::Int(a.wrapping_mul(b))),
            _ => match (promoted_bits(l), promoted_bits(r)) {
                (Some(a), Some(b)) => Ok(ObjectV::Float(f64_mul_bits(a, b))),
                _ => Err(RuntimeError::TypeMismatch),
            },
        },
        Op::Divide => match (promoted_bits(l), promoted_bits(r)) {
            (Some(a), Some(b)) => Ok(ObjectV::Float(f64_div_bits(a, b))),
            _ => Err(RuntimeError::TypeMismatch),
        },
        Op::LessThan => match (l, r) {
            (ObjectV::Int(a), ObjectV::Int(b)) => Ok(bool_object(a < b)),
            _ => match (promoted_bits(l), promoted_bits(r)) {
                (Some(a), Some(b)) => Ok(bool_object(f64_lt_bits(a, b))),
                _ => Err(RuntimeError::TypeMismatch),
            },
        },
        Op::GreaterThan => match (l, r) {
            (ObjectV::Int(a), ObjectV::Int(b)) => Ok(bool_object(a > b)),
            _ => match (promoted_bits(l), promoted_bits(r)) {
                (Some(a), Some(b)) => Ok(bool_object(f64_gt_bits(a, b))),
                _ => Err(RuntimeError::TypeMismatch),
            },
        },
        Op::Concat => match (rendering(l), rendering(r)) {
            (Ok(a), Ok(b)) => Ok(ObjectV::Str(a + b)),
            _ => Err(RuntimeError::TypeMismatch),
        },
    }
}

fn promote(v: &Object) -> (r: Result<u64, RuntimeError>)
    ensures
        match r {
            Ok(b) => promoted_bits(v@) == Some(b),
            Err(e) => promoted_bits(v@) is None && e == RuntimeError::TypeMismatch,
        },
{
    match v {
        Object::Integer(i) => Ok(f64_of_i64(*i)),
        Object::Float(b) => Ok(*b),
        _ => Err(RuntimeError::TypeMismatch),
    }
}

/// Evaluates one binary operation on two runtime values.
pub fn eval_op(op: Op, l: &Object, r: &Object) -> (res: Result<Object, RuntimeError>)
    ensures
        match res {
            Ok(v) => eval_op_v(op, l@, r@) == Ok::<ObjectV, RuntimeError>(v@),
            Err(e) => eval_op_v(op, l@, r@) == Err::<ObjectV, RuntimeError>(e),
        },
{
    match op {
        Op::Add => {
            if let (Object::Integer(a), Object::Integer(b)) = (l, r) {
                Ok(Object::Integer(a.wrapping_add(*b)))
            } else {
                match (promote(l), promote(r)) {
                    (Ok(a), Ok(b)) => Ok(Object::Float(f64_add(a, b))),
                    _ => Err(RuntimeError::TypeMismatch),
                }
            }
        },
        Op::Subtract => {
            if let (Object::Integer(a), Object::Integer(b)) = (l, r) {
                Ok(Object::Integer(a.wrapping_sub(*b)))
            } else {
                match (promote(l), promote(r)) {
                    (Ok(a), Ok(b)) => Ok(Object::Float(f64_sub(a, b))),
                    _ => Err(RuntimeError::TypeMismatch),
                }
            }
        },
        Op::Multiply => {
            if let (Object::Integer(a), Object::Integer(b)) = (l, r) {
                Ok(Object::Integer(a.wrapping_mul(*b)))
            } else {
                match (promote(l), promote(r)) {
                    (Ok(a), Ok(b)) => Ok(Object::Float(f64_mul(a, b))),
                    _ => Err(RuntimeError::TypeMismatch),
                }
            }
        },
        Op::Divide => {
            match (promote(l), promote(r)) {
                (Ok(a), Ok(b)) => Ok(Object::Float(f64_div(a, b))),
                _ => Err(RuntimeError::TypeMismatch),
            }
        },
        Op::LessThan => {
            if let (Object::Integer(a), Object::Integer(b)) = (l, r) {
                Ok(Object::from_bool(*a < *b))
            } else {
                match (promote(l), promote(r)) {
                    (Ok(a), Ok(b)) => Ok(Object::from_bool(f64_lt(a, b))),
                    _ => Err(RuntimeError::TypeMismatch),
                }
            }
        },
        Op::GreaterThan => {
            if let (Object::Integer(a), Object::Integer(b)) = (l, r) {
                Ok(Object::from_bool(*a > *b))
            } else {
                match (promote(l), promote(r)) {
                    (Ok(a), Ok(b)) => Ok(Object::from_bool(f64_gt(a, b))),
                    _ => Err(RuntimeError::TypeMismatch),
                }
            }
        },
        Op::Concat => {
            let a = match l.render() {
                Ok(a) => a,
                Err(e) => {
                    return Err(RuntimeError::TypeMismatch);
                },
            };
            let b = match r.render() {
                Ok(b) => b,
                Err(e) => {
                    return Err(RuntimeError::TypeMismatch);
                },
            };
            let mut s = a;
            push_string(&mut s, b.as_str());
            Ok(Object::String(s))
        },
    }
}

/// Integer arithmetic stays integer (wrapping on overflow), and integer
/// division always promotes to float: the promotion rules, stated once for
/// every integer pair.
pub proof fn lemma_integer_promotion(l: i64, r: i64)
    ensures
        eval_op_v(Op::Add, ObjectV::Int(l), ObjectV::Int(r)) == Ok::<ObjectV, RuntimeError>(
            ObjectV::Int(l.wrapping_add(r)),
        ),
        eval_op_v(Op::Subtract, ObjectV::Int(l), ObjectV::Int(r)) == Ok::<ObjectV, RuntimeError>(
            ObjectV::Int(l.wrapping_sub(r)),
        ),
        eval_op_v(Op::Multiply, ObjectV::Int(l), ObjectV::Int(r)) == Ok::<ObjectV, RuntimeError>(
            ObjectV::Int(l.wrapping_mul(r)),
        ),
        eval_op_v(Op::Divide, ObjectV::Int(l), ObjectV::Int(r)) == Ok::<ObjectV, RuntimeError>(
            ObjectV::Float(f64_div_bits(f64_of_i64_bits(l), f64_of_i64_bits(r))),
        ),
        -0x8000_0000_0000_0000 <= l + r < 0x8000_0000_0000_0000 ==> eval_op_v(
            Op::Add,
            ObjectV::Int(l),
            ObjectV::Int(r),
        ) == Ok::<ObjectV, RuntimeError>(ObjectV::Int((l + r) as i64)),
{
}

/// Any float operand promotes the result of an arithmetic operation to float.
pub proof fn lemma_float_promotion(op: Op, l: ObjectV, r: ObjectV)
    requires
        op == Op::Add || op == Op::Subtract || op == Op::Multiply || op == Op::Divide,
        l is Float || r is Float,
        promoted_bits(l) is Some,
        promoted_bits(r) is Some,
    ensures
        eval_op_v(op, l, r) matches Ok(v) && v is Float,
{
}

} // verus!
