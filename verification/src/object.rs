//! The tagged runtime value: string, 64-bit integer, IEEE-754 double (carried
//! as bits), booleans, null, and the associative array. Arrays are the one
//! reference-shared value: an `Object::Array` holds a handle into the shared
//! arena, so every binding that copies the handle observes mutations made
//! through any other binding.

use vstd::prelude::*;
use crate::error::RuntimeError;
use crate::float_ops::{f64_fmt, f64_is_pos, f64_is_pos_bits, f64_str_bits, sci_expand, sci_expand_str};
use crate::text::{dec_int, dec_nat, i64_to_dec, push_string, u128_to_dec, u64_to_dec, utf8_len, utf8_len_of};

verus! {

/// A runtime value.
#[derive(Debug)]
pub enum Object {
    String(String),
    Integer(i64),
    /// The bit pattern of an IEEE-754 binary64 value.
    Float(u64),
    True,
    False,
    Null,
    /// A handle into the shared array arena.
    Array(usize),
}

/// The mathematical shape of a runtime value.
pub enum ObjectV {
    Str(Seq<char>),
    Int(i64),
    Float(u64),
    True,
    False,
    Null,
    Array(int),
}

impl View for Object {
    type V = ObjectV;

    open spec fn view(&self) -> ObjectV {
        match self {
            Object::String(s) => ObjectV::Str(s@),
            Object::Integer(i) => ObjectV::Int(*i),
            Object::Float(b) => ObjectV::Float(*b),
            Object::True => ObjectV::True,
            Object::False => ObjectV::False,
            Object::Null => ObjectV::Null,
            Object::Array(a) => ObjectV::Array(*a as int),
        }
    }
}

impl Clone for Object {
    fn clone(&self) -> (other: Self)
        ensures
            other@ == self@,
    {
        match self {
            Object::String(s) => Object::String(s.clone()),
            Object::Integer(i) => Object::Integer(*i),
            Object::Float(b) => Object::Float(*b),
            Object::True => Object::True,
            Object::False => Object::False,
            Object::Null => Object::Null,
            Object::Array(a) => Object::Array(*a),
        }
    }
}

impl Object {
    pub fn is_string(&self) -> (r: bool)
        ensures
            r == (self@ is Str),
    {
        matches!(self, Object::String(..))
    }

    pub fn is_array(&self) -> (r: bool)
        ensures
            r == (self@ is Array),
    {
        matches!(self, Object::Array(..))
    }

    pub fn from_bool(b: bool) -> (r: Self)
        ensures
            r@ == (if b {
                ObjectV::True
            } else {
                ObjectV::False
            }),
    {
        match b {
            true => Self::True,
            false => Self::False,
        }
    }

    /// The boolean coercion rule: positive numbers and non-empty strings are
    /// true; an array has no boolean form.
    pub fn to_bool(&self) -> (r: Result<bool, RuntimeError>)
        ensures
            r == truthy(self@),
    {
        match self {
            Object::True => Ok(true),
            Object::False => Ok(false),
            Object::Float(b) => Ok(f64_is_pos(*b)),
            Object::Integer(i) => Ok(*i > 0),
            Object::String(s) => Ok(!s.as_str().is_empty()),
            Object::Null => Ok(false),
            Object::Array(_) => Err(RuntimeError::TypeMismatch),
        }
    }

    /// The array handle inside an array value.
    pub fn to_hash(&self) -> (r: usize)
        requires
            self@ is Array,
        ensures
            self@ == ObjectV::Array(r as int),
    {
        match self {
            Object::Array(a) => *a,
            _ => unreached(),
        }
    }

    /// The display-string form: strings verbatim, numbers in decimal, `True`
    /// as "1", `False` and `Null` empty; an array has no display form.
    pub fn render(&self) -> (r: Result<String, RuntimeError>)
        ensures
            match r {
                Ok(s) => rendering(self@) == Ok::<Seq<char>, RuntimeError>(s@),
                Err(e) => rendering(self@) == Err::<Seq<char>, RuntimeError>(e),
            },
    {
        match self {
            Object::String(s) => Ok(s.clone()),
            Object::Integer(i) => Ok(i64_to_dec(*i)),
            Object::Float(b) => {
                let raw = f64_fmt(*b);
                Ok(sci_expand_str(&raw))
            },
            Object::True => {
                let one = "1".to_owned();
                proof {
                    reveal_strlit("1");
                    assert(one@ =~= seq!['1']);
                }
                Ok(one)
            },
            Object::False => Ok(String::new()),
            Object::Null => Ok(String::new()),
            Object::Array(_) => Err(RuntimeError::TypeMismatch),
        }
    }
}

/// The boolean coercion rule, abstractly.
pub open spec fn truthy(v: ObjectV) -> Result<bool, RuntimeError> {
    match v {
        ObjectV::True => Ok(true),
        ObjectV::False => Ok(false),
        ObjectV::Float(b) => Ok(f64_is_pos_bits(b)),
        ObjectV::Int(i) => Ok(i > 0),
        ObjectV::Str(s) => Ok(s.len() > 0),
        ObjectV::Null => Ok(false),
        ObjectV::Array(_) => Err(RuntimeError::TypeMismatch),
    }
}

/// The display-string rule, abstractly.
pub open spec fn rendering(v: ObjectV) -> Result<Seq<char>, RuntimeError> {
    match v {
        ObjectV::Str(s) => Ok(s),
        ObjectV::Int(i) => Ok(dec_int(i as int)),
        ObjectV::Float(b) => Ok(sci_expand(f64_str_bits(b))),
        ObjectV::True => Ok(seq!['1']),
        ObjectV::False => Ok(Seq::empty()),
        ObjectV::Null => Ok(Seq::empty()),
        ObjectV::Array(_) => Err(RuntimeError::TypeMismatch),
    }
}

/// The views of a sequence of runtime values.
pub open spec fn objs_view(s: Seq<Object>) -> Seq<ObjectV> {
    s.map_values(|o: Object| o@)
}

/// One array: an insertion-ordered association of string keys to values.
pub type ArrayV = Seq<(Seq<char>, ObjectV)>;

/// The view of one stored entry.
pub open spec fn entry_view(p: (String, Object)) -> (Seq<char>, ObjectV) {
    (p.0@, p.1@)
}

/// The view of one stored array.
pub open spec fn array_view(s: Seq<(String, Object)>) -> ArrayV {
    s.map_values(|p: (String, Object)| entry_view(p))
}

/// First-match lookup in an array.
pub open spec fn array_lookup(a: ArrayV, k: Seq<char>) -> Option<ObjectV>
    decreases a.len(),
{
    if a.len() == 0 {
        None
    } else if a[0].0 == k {
        Some(a[0].1)
    } else {
        array_lookup(a.skip(1), k)
    }
}

/// The shared array arena. An `Object::Array` holds an index into it, so
/// copying the object copies the handle, not the contents: every alias sees
/// mutations made through any other.
#[derive(Debug)]
pub struct Arrays {
    items: Vec<Vec<(String, Object)>>,
}

impl View for Arrays {
    type V = Seq<ArrayV>;

    closed spec fn view(&self) -> Seq<ArrayV> {
        self.items@.map_values(|v: Vec<(String, Object)>| array_view(v@))
    }
}

impl Arrays {
    pub fn new() -> (a: Self)
        ensures
            a@ == Seq::<ArrayV>::empty(),
    {
        let a = Arrays { items: Vec::new() };
        proof {
            assert(a@ =~= Seq::<ArrayV>::empty());
        }
        a
    }

    /// How many arrays the arena holds.
    pub fn len(&self) -> (n: usize)
        ensures
            n == self@.len(),
    {
        self.items.len()
    }

    /// How many entries the array under `id` holds.
    pub fn count(&self, id: usize) -> (n: usize)
        requires
            id < self@.len(),
        ensures
            n == self@[id as int].len(),
    {
        self.items[id].len()
    }

    /// Appends `value` under the next numeric-string key: the array's current
    /// length, rendered in decimal, preserving insertion order.
    pub fn append(&mut self, id: usize, value: Object)
        requires
            id < old(self)@.len(),
        ensures
            final(self)@ == old(self)@.update(
                id as int,
                old(self)@[id as int].push((dec_nat(old(self)@[id as int].len()), value@)),
            ),
    {
        let n = self.items[id].len();
        let key = u64_to_dec(n as u64);
        let ghost pre = self.items@;
        self.items[id].push((key, value));
        proof {
            assert(array_view(self.items@[id as int]@) =~= array_view(pre[id as int]@).push((
                dec_nat(pre[id as int]@.len()),
                value@,
            )));
            assert(final(self)@ =~= old(self)@.update(
                id as int,
                old(self)@[id as int].push((dec_nat(old(self)@[id as int].len()), value@)),
            ));
        }
    }

    /// First-match lookup of `key` in the array under `id`.
    pub fn get(&self, id: usize, key: &String) -> (r: Option<Object>)
        requires
            id < self@.len(),
        ensures
            match r {
                Some(v) => array_lookup(self@[id as int], key@) == Some(v@),
                None => array_lookup(self@[id as int], key@) is None,
            },
    {
        let n = self.items[id].len();
        proof {
            assert(self@[id as int].skip(0) =~= self@[id as int]);
        }
        let mut i: usize = 0;
        while i < n
            invariant
                id < self@.len(),
                n == self.items@[id as int]@.len(),
                n == self@[id as int].len(),
                0 <= i <= n,
                array_lookup(self@[id as int], key@) == array_lookup(
                    self@[id as int].skip(i as int),
                    key@,
                ),
            decreases n - i,
        {
            let ghost a = self@[id as int];
            if self.items[id][i].0.eq(key) {
                proof {
                    assert(a.skip(i as int)[0] == a[i as int]);
                }
                return Some(self.items[id][i].1.clone());
            }
            proof {
                assert(a.skip(i as int)[0] == a[i as int]);
                assert(a.skip(i as int).skip(1) =~= a.skip(i as int + 1));
            }
            i = i + 1;
        }
        proof {
            assert(self@[id as int].skip(n as int).len() == 0);
        }
        None
    }
}

/// A fresh, empty shared array: pushes a new slot onto the arena and returns
/// the handle value.
pub fn new_array(arrays: &mut Arrays) -> (o: Object)
    ensures
        final(arrays)@ == old(arrays)@.push(Seq::empty()),
        o@ == ObjectV::Array(old(arrays)@.len() as int),
{
    let id = arrays.items.len();
    arrays.items.push(Vec::new());
    proof {
        assert(arrays@ =~~= old(arrays)@.push(Seq::empty()));
    }
    Object::Array(id)
}

/// The structural dump of a value, abstractly: type-tagged scalars, and for an
/// array its entries in insertion order, one level of indentation each. The
/// depth budget bounds descent through nested arrays; a self-referential array
/// exhausts it.
pub open spec fn dump_v(v: ObjectV, arrs: Seq<ArrayV>, depth: nat) -> Result<
    Seq<char>,
    RuntimeError,
>
    decreases depth, 0nat,
{
    match v {
        ObjectV::Int(i) => Ok("int("@ + dec_int(i as int) + ")"@),
        ObjectV::Float(b) => Ok("double("@ + sci_expand(f64_str_bits(b)) + ")"@),
        ObjectV::Str(s) => Ok("string("@ + dec_nat(utf8_len(s) as nat) + ") \""@ + s + "\""@),
        ObjectV::True => Ok("bool(true)"@),
        ObjectV::False => Ok("bool(false)"@),
        ObjectV::Null => Ok("NULL"@),
        ObjectV::Array(id) => {
            if !(0 <= id < arrs.len()) {
                Err(RuntimeError::TypeMismatch)
            } else if depth == 0 {
                Err(RuntimeError::DumpTooDeep)
            } else {
                match dump_entries_v(arrs[id], arrs, (depth - 1) as nat) {
                    Ok(body) => Ok("array("@ + dec_nat(arrs[id].len()) + ") {\n"@ + body + "}"@),
                    Err(e) => Err(e),
                }
            }
        },
    }
}

/// The dumped bodies of an array's entries, in order, each indented and on its
/// own line.
pub open spec fn dump_entries_v(es: ArrayV, arrs: Seq<ArrayV>, depth: nat) -> Result<
    Seq<char>,
    RuntimeError,
>
    decreases depth, es.len(),
{
    if es.len() == 0 {
        Ok(Seq::empty())
    } else {
        match dump_v(es[0].1, arrs, depth) {
            Ok(first) => match dump_entries_v(es.skip(1), arrs, depth) {
                Ok(rest) => Ok("  "@ + first + "\n"@ + rest),
                Err(e) => Err(e),
            },
            Err(e) => Err(e),
        }
    }
}

impl Object {
    /// The structural dump form, built against the arena. The depth budget
    /// guards against self-referential arrays, which the dump cannot
    /// linearize.
    pub fn dump(&self, arrays: &Arrays, depth: u64) -> (r: Result<String, RuntimeError>)
        ensures
            match r {
                Ok(s) => dump_v(self@, arrays@, depth as nat) == Ok::<Seq<char>, RuntimeError>(s@),
                Err(e) => dump_v(self@, arrays@, depth as nat) == Err::<Seq<char>, RuntimeError>(e),
            },
        decreases depth, 0nat,
    {
        match self {
            Object::Integer(i) => {
                let mut s = String::new();
                push_string(&mut s, "int(");
                let d = i64_to_dec(*i);
                push_string(&mut s, d.as_str());
                push_string(&mut s, ")");
                proof {
                    assert(s@ =~= "int("@ + dec_int(*i as int) + ")"@);
                }
                Ok(s)
            },
            Object::Float(b) => {
                let mut s = String::new();
                push_string(&mut s, "double(");
                let raw = f64_fmt(*b);
                let d = sci_expand_str(&raw);
                push_string(&mut s, d.as_str());
                push_string(&mut s, ")");
                proof {
                    assert(s@ =~= "double("@ + sci_expand(f64_str_bits(*b)) + ")"@);
                }
                Ok(s)
            },
            Object::String(inner) => {
                let mut s = String::new();
                push_string(&mut s, "string(");
                let n = utf8_len_of(inner.as_str());
                let d = u128_to_dec(n);
                push_string(&mut s, d.as_str());
                push_string(&mut s, ") \"");
                push_string(&mut s, inner.as_str());
                push_string(&mut s, "\"");
                proof {
                    assert(s@ =~= "string("@ + dec_nat(utf8_len(inner@) as nat) + ") \""@
                        + inner@ + "\""@);
                }
                Ok(s)
            },
            Object::True => Ok("bool(true)".to_owned()),
            Object::False => Ok("bool(false)".to_owned()),
            Object::Null => Ok("NULL".to_owned()),
            Object::Array(id) => {
                let id = *id;
                if id >= arrays.items.len() {
                    return Err(RuntimeError::TypeMismatch);
                }
                if depth == 0 {
                    return Err(RuntimeError::DumpTooDeep);
                }
                proof {
                    assert(arrays@[id as int].skip(0) =~= arrays@[id as int]);
                }
                match dump_entries(arrays, id, 0, depth - 1) {
                    Ok(body) => {
                        let mut s = String::new();
                        push_string(&mut s, "array(");
                        let d = u64_to_dec(arrays.items[id].len() as u64);
                        push_string(&mut s, d.as_str());
                        push_string(&mut s, ") {\n");
                        push_string(&mut s, body.as_str());
                        push_string(&mut s, "}");
                        proof {
                            assert(arrays@[id as int].len() == arrays.items@[id as int]@.len());
                            assert(s@ =~= "array("@ + dec_nat(arrays@[id as int].len()) + ") {\n"@
                                + body@ + "}"@);
                        }
                        Ok(s)
                    },
                    Err(e) => Err(e),
                }
            },
        }
    }
}

proof fn lemma_lookup_pushed(a: ArrayV, k: Seq<char>, v: ObjectV)
    requires
        forall|j: int| 0 <= j < a.len() ==> (#[trigger] a[j]).0 != k,
    ensures
        array_lookup(a.push((k, v)), k) == Some(v),
    decreases a.len(),
{
    if a.len() > 0 {
        assert(a.push((k, v))[0] == a[0]);
        assert(a.push((k, v)).skip(1) =~= a.skip(1).push((k, v)));
        assert forall|j: int| 0 <= j < a.skip(1).len() implies (#[trigger] a.skip(1)[j]).0 != k by {
            assert(a.skip(1)[j] == a[j + 1]);
        }
        lemma_lookup_pushed(a.skip(1), k, v);
    }
}

/// Array values are shared by reference: a handle names one arena slot, so a
/// mutation through any alias is a mutation of the slot every alias reads.
/// Appending a value under a fresh key and then indexing that key — through
/// the same handle, wherever it is bound — yields the appended value.
pub proof fn lemma_append_visible(arrays: Seq<ArrayV>, id: int, v: ObjectV)
    requires
        0 <= id < arrays.len(),
        forall|j: int|
            0 <= j < arrays[id].len() ==> (#[trigger] arrays[id][j]).0 != dec_nat(
                arrays[id].len(),
            ),
    ensures
        ({
            let appended = arrays.update(
                id,
                arrays[id].push((dec_nat(arrays[id].len()), v)),
            );
            array_lookup(appended[id], dec_nat(arrays[id].len())) == Some(v)
        }),
{
    lemma_lookup_pushed(arrays[id], dec_nat(arrays[id].len()), v);
}

/// Dumps the entries of the array under `id`, starting at entry `i`.
fn dump_entries(arrays: &Arrays, id: usize, i: usize, depth: u64) -> (r: Result<
    String,
    RuntimeError,
>)
    requires
        id < arrays@.len(),
        i <= arrays@[id as int].len(),
    ensures
        match r {
            Ok(s) => dump_entries_v(arrays@[id as int].skip(i as int), arrays@, depth as nat)
                == Ok::<Seq<char>, RuntimeError>(s@),
            Err(e) => dump_entries_v(arrays@[id as int].skip(i as int), arrays@, depth as nat)
                == Err::<Seq<char>, RuntimeError>(e),
        },
    decreases depth, arrays@[id as int].len() - i,
{
    let ghost es = arrays@[id as int].skip(i as int);
    let n = arrays.items[id].len();
    proof {
        assert(n == arrays@[id as int].len());
    }
    if i == n {
        proof {
            assert(es.len() == 0);
        }
        return Ok(String::new());
    }
    proof {
        assert(es[0] == arrays@[id as int][i as int]);
        assert(es.skip(1) =~= arrays@[id as int].skip(i as int + 1));
    }
    let value = &arrays.items[id][i].1;
    proof {
        assert(value@ == arrays@[id as int][i as int].1);
    }
    match value.dump(arrays, depth) {
        Ok(first) => {
            match dump_entries(arrays, id, i + 1, depth) {
                Ok(rest) => {
                    let mut s = String::new();
                    push_string(&mut s, "  ");
                    push_string(&mut s, first.as_str());
                    push_string(&mut s, "\n");
                    push_string(&mut s, rest.as_str());
                    proof {
                        assert(s@ =~= "  "@ + first@ + "\n"@ + rest@);
                    }
                    Ok(s)
                },
                Err(e) => Err(e),
            }
        },
        Err(e) => Err(e),
    }
}

} // verus!
