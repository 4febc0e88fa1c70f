//! The bytecode compiler: one walk over the syntax tree emits a flat
//! instruction sequence per function scope, resolves control flow by
//! backpatching jump targets, fills the constant pool, and registers function
//! bodies in the global registry.
//!
//! The contracts here are exact. Compilation succeeds on precisely the trees
//! the language can lower, reporting the first error `lower_stmt` prescribes
//! otherwise; on success the emitted instructions, the pooled constants and
//! the registered function bodies are exactly what the lowering rules in
//! `lower` compute. On top of that, the output is well formed: every jump
//! target and constant index is in range for its own instruction sequence and
//! pool — backpatching leaves no placeholder behind.

use vstd::prelude::*;
use crate::arith::eval_op;
use crate::ast::{block_ok, expr_ok, exprs_ok, stmt_ok, Expression, Op, Statement};
use crate::code::{code_view, Code, CodeV};
use crate::error::CompileError;
use crate::globals::{FunctionV, Globals, GlobalsV};
use crate::lower::{
    emit_one, initial_lower_state, lower_args, lower_block, lower_expr, lower_stmt,
    param_prologue, patch_all, pool_constant, LowerState,
};
use crate::object::{Object, ObjectV};

verus! {

/// Whether one instruction is well formed inside a sequence of length `len`
/// against a pool of `nconsts` constants: jump targets stay within the
/// sequence (its end included: execution falling there simply stops), and
/// constant indices stay within the pool.
pub open spec fn code_wf(c: CodeV, len: int, nconsts: int) -> bool {
    match c {
        CodeV::Jump(t) => 0 <= t <= len,
        CodeV::JumpIfFalse(t) => 0 <= t <= len,
        CodeV::JumpIfTrue(t) => 0 <= t <= len,
        CodeV::Constant(i) => 0 <= i < nconsts,
        _ => true,
    }
}

/// Every instruction of the sequence is well formed in it.
pub open spec fn codes_wf(s: Seq<CodeV>, nconsts: int) -> bool {
    forall|i: int| 0 <= i < s.len() ==> code_wf(#[trigger] s[i], s.len() as int, nconsts)
}

/// Well-formedness of a sequence still under construction: the positions in
/// `holes` are placeholders whose targets a later patch will resolve.
pub open spec fn scope_ok(s: Seq<CodeV>, nconsts: int, holes: Set<int>) -> bool {
    forall|i: int|
        0 <= i < s.len() && !holes.contains(i) ==> code_wf(
            #[trigger] s[i],
            s.len() as int,
            nconsts,
        )
}

/// An instruction that stays well formed as its sequence grows.
pub open spec fn steady(c: CodeV) -> bool {
    !(c is Jump) && !(c is JumpIfFalse) && !(c is JumpIfTrue)
}

/// Every user-function body registered so far is well formed against a pool
/// of `nconsts` constants.
pub open spec fn user_fns_wf(g: GlobalsV, nconsts: int) -> bool {
    forall|k: Seq<char>| #[trigger] g.functions.contains_key(k) ==> match g.functions[k] {
        FunctionV::User(code) => codes_wf(code, nconsts),
        FunctionV::Internal(_) => true,
    }
}

/// The positions a pending-break list names.
pub open spec fn pend_set(s: Seq<usize>) -> Set<int> {
    Set::new(|x: int| exists|j: int| 0 <= j < s.len() && s[j] as int == x)
}

/// The views of the pooled constants.
pub open spec fn consts_view(s: Seq<Object>) -> Seq<ObjectV> {
    s.map_values(|o: Object| o@)
}

/// The pending-break positions as mathematical integers.
pub open spec fn pend_ints(s: Seq<usize>) -> Seq<int> {
    s.map_values(|x: usize| x as int)
}

proof fn lemma_code_wf_mono(c: CodeV, len1: int, len2: int, n1: int, n2: int)
    requires
        code_wf(c, len1, n1),
        len1 <= len2,
        n1 <= n2,
    ensures
        code_wf(c, len2, n2),
{
}

proof fn lemma_codes_wf_mono(s: Seq<CodeV>, n1: int, n2: int)
    requires
        codes_wf(s, n1),
        n1 <= n2,
    ensures
        codes_wf(s, n2),
{
    assert forall|i: int| 0 <= i < s.len() implies code_wf(#[trigger] s[i], s.len() as int, n2) by {
        lemma_code_wf_mono(s[i], s.len() as int, s.len() as int, n1, n2);
    }
}

proof fn lemma_user_fns_wf_mono(g: GlobalsV, n1: int, n2: int)
    requires
        user_fns_wf(g, n1),
        n1 <= n2,
    ensures
        user_fns_wf(g, n2),
{
    assert forall|k: Seq<char>| #[trigger] g.functions.contains_key(k) implies match g.functions[k] {
        FunctionV::User(code) => codes_wf(code, n2),
        FunctionV::Internal(_) => true,
    } by {
        match g.functions[k] {
            FunctionV::User(code) => {
                lemma_codes_wf_mono(code, n1, n2);
            },
            FunctionV::Internal(_) => {},
        }
    }
}

proof fn lemma_block_ok_iff(ss: Seq<Statement>, in_loop: bool)
    ensures
        block_ok(ss, in_loop) <==> (forall|i: int|
            0 <= i < ss.len() ==> stmt_ok(#[trigger] ss[i], in_loop)),
    decreases ss.len(),
{
    if ss.len() > 0 {
        lemma_block_ok_iff(ss.skip(1), in_loop);
        assert forall|i: int| 1 <= i < ss.len() implies ss.skip(1)[i - 1] == ss[i] by {}
        if forall|i: int| 0 <= i < ss.len() ==> stmt_ok(#[trigger] ss[i], in_loop) {
            assert forall|i: int| 0 <= i < ss.skip(1).len() implies stmt_ok(
                #[trigger] ss.skip(1)[i],
                in_loop,
            ) by {
                assert(ss.skip(1)[i] == ss[i + 1]);
            }
        }
    }
}

proof fn lemma_exprs_ok_iff(es: Seq<Expression>)
    ensures
        exprs_ok(es) <==> (forall|i: int| 0 <= i < es.len() ==> expr_ok(#[trigger] es[i])),
    decreases es.len(),
{
    if es.len() > 0 {
        lemma_exprs_ok_iff(es.skip(1));
        assert forall|i: int| 1 <= i < es.len() implies es.skip(1)[i - 1] == es[i] by {}
        if forall|i: int| 0 <= i < es.len() ==> expr_ok(#[trigger] es[i]) {
            assert forall|i: int| 0 <= i < es.skip(1).len() implies expr_ok(
                #[trigger] es.skip(1)[i],
            ) by {
                assert(es.skip(1)[i] == es[i + 1]);
            }
        }
    }
}

/// The literal value of a numeric literal expression.
pub open spec fn lit_value(e: Expression) -> Option<ObjectV> {
    match e {
        Expression::Integer(i) => Some(ObjectV::Int(i)),
        Expression::Float(b) => Some(ObjectV::Float(b)),
        _ => None,
    }
}

/// Whether the literal-folding fast path fires: an arithmetic operator over
/// two numeric literals. Comparisons and concatenation are never folded.
pub open spec fn folds(e: Expression) -> bool {
    match e {
        Expression::Infix(l, op, r) => (op == Op::Add || op == Op::Subtract || op == Op::Multiply
            || op == Op::Divide) && lit_value(*l) is Some && lit_value(*r) is Some,
        _ => false,
    }
}

/// One function scope's instruction sequence under construction.
#[derive(Debug)]
pub struct Scope {
    instructions: Vec<Code>,
}

impl View for Scope {
    type V = Seq<CodeV>;

    closed spec fn view(&self) -> Seq<CodeV> {
        code_view(self.instructions@)
    }
}

impl Scope {
    pub fn new() -> (s: Self)
        ensures
            s@ == Seq::<CodeV>::empty(),
    {
        let s = Scope { instructions: Vec::new() };
        proof {
            assert(s@ =~= Seq::<CodeV>::empty());
        }
        s
    }
}

struct Compiler {
    constants: Vec<Object>,
    scopes: Vec<Scope>,
    globals: Globals,
    breakable_scope: bool,
    breakable_positions: Vec<usize>,
}

impl Compiler {
    /// The scope instructions are currently emitted into.
    spec fn cur(&self) -> Seq<CodeV> {
        self.scopes@.last()@
    }

    spec fn nconsts(&self) -> int {
        self.constants@.len() as int
    }

    spec fn pend(&self) -> Seq<usize> {
        self.breakable_positions@
    }

    /// The lowering state this compiler stands in: what the next emission
    /// sees and extends.
    spec fn lstate(&self) -> LowerState {
        LowerState {
            code: self.cur(),
            consts: consts_view(self.constants@),
            funs: self.globals@.functions,
            breakable: self.breakable_scope,
            pending: pend_ints(self.breakable_positions@),
        }
    }

    spec fn inv(&self) -> bool {
        &&& self.scopes@.len() >= 1
        &&& self.globals.wf()
        &&& user_fns_wf(self.globals@, self.nconsts())
        &&& forall|j: int|
            0 <= j < self.pend().len() ==> ((#[trigger] self.pend()[j]) as int) < self.cur().len()
    }

    fn len(&self) -> (n: usize)
        requires
            self.scopes@.len() >= 1,
        ensures
            n == self.cur().len(),
    {
        let k = self.scopes.len();
        self.scopes[k - 1].instructions.len()
    }

    fn emit(&mut self, code: Code) -> (pos: usize)
        requires
            old(self).scopes@.len() >= 1,
        ensures
            pos == old(self).cur().len(),
            final(self).cur() == old(self).cur().push(code@),
            final(self).scopes@.len() == old(self).scopes@.len(),
            forall|k: int|
                0 <= k < old(self).scopes@.len() - 1 ==> final(self).scopes@[k]@ == old(
                    self,
                ).scopes@[k]@,
            final(self).constants@ == old(self).constants@,
            final(self).globals == old(self).globals,
            final(self).breakable_scope == old(self).breakable_scope,
            final(self).breakable_positions@ == old(self).breakable_positions@,
    {
        let k = self.scopes.len();
        let pos = self.scopes[k - 1].instructions.len();
        self.scopes[k - 1].instructions.push(code);
        proof {
            assert(final(self).cur() =~= old(self).cur().push(code@));
        }
        pos
    }

    fn replace(&mut self, position: usize, code: Code)
        requires
            old(self).scopes@.len() >= 1,
            position < old(self).cur().len(),
        ensures
            final(self).cur() == old(self).cur().update(position as int, code@),
            final(self).scopes@.len() == old(self).scopes@.len(),
            forall|k: int|
                0 <= k < old(self).scopes@.len() - 1 ==> final(self).scopes@[k]@ == old(
                    self,
                ).scopes@[k]@,
            final(self).constants@ == old(self).constants@,
            final(self).globals == old(self).globals,
            final(self).breakable_scope == old(self).breakable_scope,
            final(self).breakable_positions@ == old(self).breakable_positions@,
    {
        let k = self.scopes.len();
        self.scopes[k - 1].instructions[position] = code;
        proof {
            assert(final(self).cur() =~= old(self).cur().update(position as int, code@));
        }
    }

    fn constant(&mut self, object: Object)
        requires
            old(self).scopes@.len() >= 1,
        ensures
            final(self).cur() == old(self).cur().push(CodeV::Constant(old(self).nconsts())),
            final(self).constants@ == old(self).constants@.push(object),
            consts_view(final(self).constants@) == consts_view(old(self).constants@).push(object@),
            final(self).scopes@.len() == old(self).scopes@.len(),
            forall|k: int|
                0 <= k < old(self).scopes@.len() - 1 ==> final(self).scopes@[k]@ == old(
                    self,
                ).scopes@[k]@,
            final(self).globals == old(self).globals,
            final(self).breakable_scope == old(self).breakable_scope,
            final(self).breakable_positions@ == old(self).breakable_positions@,
    {
        self.constants.push(object);
        let idx = self.constants.len() - 1;
        self.emit(Code::Constant(idx));
        proof {
            assert(consts_view(self.constants@) =~= consts_view(old(self).constants@).push(
                object@,
            ));
        }
    }

    fn enter_scope(&mut self)
        ensures
            final(self).scopes@.len() == old(self).scopes@.len() + 1,
            forall|k: int|
                0 <= k < old(self).scopes@.len() ==> final(self).scopes@[k]@ == old(
                    self,
                ).scopes@[k]@,
            final(self).cur() == Seq::<CodeV>::empty(),
            final(self).constants@ == old(self).constants@,
            final(self).globals == old(self).globals,
            final(self).breakable_scope == old(self).breakable_scope,
            final(self).breakable_positions@ == old(self).breakable_positions@,
    {
        self.scopes.push(Scope::new());
    }

    fn leave_scope(&mut self) -> (s: Scope)
        requires
            old(self).scopes@.len() >= 1,
        ensures
            s@ == old(self).cur(),
            final(self).scopes@.len() == old(self).scopes@.len() - 1,
            forall|k: int|
                0 <= k < final(self).scopes@.len() ==> final(self).scopes@[k]@ == old(
                    self,
                ).scopes@[k]@,
            final(self).constants@ == old(self).constants@,
            final(self).globals == old(self).globals,
            final(self).breakable_scope == old(self).breakable_scope,
            final(self).breakable_positions@ == old(self).breakable_positions@,
    {
        match self.scopes.pop() {
            Some(s) => s,
            None => unreached(),
        }
    }

    /// What every compilation step leaves alone: the scope stack's depth and
    /// every scope below the current one; and what it only extends: the
    /// constant pool and the current scope's prefix.
    spec fn advances(pre: &Compiler, post: &Compiler) -> bool {
        &&& post.scopes@.len() == pre.scopes@.len()
        &&& forall|k: int| 0 <= k < pre.scopes@.len() - 1 ==> post.scopes@[k]@ == pre.scopes@[k]@
        &&& consts_view(pre.constants@).is_prefix_of(consts_view(post.constants@))
        &&& post.cur().len() >= pre.cur().len()
        &&& post.cur().subrange(0, pre.cur().len() as int) == pre.cur()
    }

    /// Every instruction emitted between the two states is steady and well
    /// formed in the later state.
    spec fn fresh_steady(pre: &Compiler, post: &Compiler) -> bool {
        forall|k: int|
            pre.cur().len() <= k < post.cur().len() ==> steady(#[trigger] post.cur()[k]) && code_wf(
                post.cur()[k],
                post.cur().len() as int,
                post.nconsts(),
            )
    }

    /// What expression lowering never touches: the registry, the breakable
    /// flag, and the pending-break list.
    spec fn expr_frame(pre: &Compiler, post: &Compiler) -> bool {
        &&& post.globals == pre.globals
        &&& post.breakable_scope == pre.breakable_scope
        &&& post.breakable_positions@ == pre.breakable_positions@
    }

    /// Emits one steady instruction, keeping the expression-step contract.
    fn push_op(&mut self, code: Code)
        requires
            old(self).inv(),
            steady(code@),
            code@ matches CodeV::Constant(ci) ==> 0 <= ci < old(self).nconsts(),
        ensures
            final(self).inv(),
            Compiler::advances(old(self), final(self)),
            Compiler::fresh_steady(old(self), final(self)),
            Compiler::expr_frame(old(self), final(self)),
            final(self).cur() == old(self).cur().push(code@),
            final(self).constants@ == old(self).constants@,
            final(self).lstate() == emit_one(old(self).lstate(), code@),
    {
        self.emit(code);
        proof {
            assert(self.cur().subrange(0, old(self).cur().len() as int) =~= old(self).cur());
            assert(consts_view(self.constants@).is_prefix_of(consts_view(self.constants@)));
            assert forall|j: int| 0 <= j < self.pend().len() implies ((#[trigger] self.pend()[j]) as int)
                < self.cur().len() by {
                assert(self.pend()[j] == old(self).pend()[j]);
            }
        }
    }

    /// Pools one constant and emits the push for it, keeping the
    /// expression-step contract.
    fn push_const(&mut self, object: Object)
        requires
            old(self).inv(),
        ensures
            final(self).inv(),
            Compiler::advances(old(self), final(self)),
            Compiler::fresh_steady(old(self), final(self)),
            Compiler::expr_frame(old(self), final(self)),
            final(self).cur() == old(self).cur().push(CodeV::Constant(old(self).nconsts())),
            consts_view(final(self).constants@) == consts_view(old(self).constants@).push(object@),
            final(self).lstate() == pool_constant(old(self).lstate(), object@),
    {
        self.constant(object);
        proof {
            assert(self.cur().subrange(0, old(self).cur().len() as int) =~= old(self).cur());
            assert(consts_view(self.constants@) =~= consts_view(old(self).constants@).push(
                object@,
            ));
            assert(consts_view(old(self).constants@).is_prefix_of(consts_view(self.constants@)));
            lemma_user_fns_wf_mono(self.globals@, old(self).nconsts(), self.nconsts());
            assert forall|j: int| 0 <= j < self.pend().len() implies ((#[trigger] self.pend()[j]) as int)
                < self.cur().len() by {
                assert(self.pend()[j] == old(self).pend()[j]);
            }
        }
    }
}

/// Composes two expression steps into one.
proof fn lemma_compose(a: &Compiler, b: &Compiler, c: &Compiler)
    requires
        Compiler::advances(a, b),
        Compiler::advances(b, c),
        Compiler::fresh_steady(a, b),
        Compiler::fresh_steady(b, c),
    ensures
        Compiler::advances(a, c),
        Compiler::fresh_steady(a, c),
{
    lemma_prefix_trans(consts_view(a.constants@), consts_view(b.constants@), consts_view(c.constants@));
    assert(c.cur().subrange(0, a.cur().len() as int) =~= a.cur());
    assert forall|k: int| a.cur().len() <= k < c.cur().len() implies steady(#[trigger] c.cur()[k])
        && code_wf(c.cur()[k], c.cur().len() as int, c.nconsts()) by {
        if k < b.cur().len() {
            assert(c.cur()[k] == c.cur().subrange(0, b.cur().len() as int)[k]);
            assert(c.cur()[k] == b.cur()[k]);
            lemma_code_wf_mono(
                c.cur()[k],
                b.cur().len() as int,
                c.cur().len() as int,
                b.nconsts(),
                c.nconsts(),
            );
        }
    }
}

proof fn lemma_advances_refl(a: &Compiler)
    ensures
        Compiler::advances(a, a),
{
    assert(a.cur().subrange(0, a.cur().len() as int) =~= a.cur());
    assert(consts_view(a.constants@).is_prefix_of(consts_view(a.constants@)));
}

proof fn lemma_prefix_trans<A>(a: Seq<A>, b: Seq<A>, c: Seq<A>)
    requires
        a.is_prefix_of(b),
        b.is_prefix_of(c),
    ensures
        a.is_prefix_of(c),
{
    assert(a =~= c.subrange(0, a.len() as int));
}

impl Compiler {
    /// Lowers one expression onto the current scope. The emitted sequence
    /// pushes exactly one value at run time; expressions emit no jumps and
    /// touch no registry entry and no pending-break state.
    fn compile_expr(&mut self, e: &Expression) -> (r: Result<(), CompileError>)
        requires
            old(self).inv(),
        ensures
            final(self).inv(),
            Compiler::advances(old(self), final(self)),
            Compiler::fresh_steady(old(self), final(self)),
            Compiler::expr_frame(old(self), final(self)),
            r is Ok <==> expr_ok(*e),
            folds(*e) ==> match *e {
                Expression::Infix(l, op, rr) => {
                    &&& final(self).cur() == old(self).cur().push(
                        CodeV::Constant(old(self).nconsts()),
                    )
                    &&& match (lit_value(*l), lit_value(*rr)) {
                        (Some(lv), Some(rv)) => match crate::arith::eval_op_v(op, lv, rv) {
                            Ok(v) => consts_view(final(self).constants@) == consts_view(
                                old(self).constants@,
                            ).push(v),
                            Err(_) => false,
                        },
                        _ => false,
                    }
                },
                _ => true,
            },
            match r {
                Ok(()) => lower_expr(old(self).lstate(), *e) == Ok::<LowerState, CompileError>(
                    final(self).lstate(),
                ),
                Err(er) => lower_expr(old(self).lstate(), *e) == Err::<LowerState, CompileError>(
                    er,
                ),
            },
        decreases *e,
    {
        match e {
            Expression::True => {
                self.push_op(Code::True);
                proof {
                    assert(expr_ok(*e));
                }
                Ok(())
            },
            Expression::False => {
                self.push_op(Code::False);
                proof {
                    assert(expr_ok(*e));
                }
                Ok(())
            },
            Expression::String(s) => {
                self.push_const(Object::String(s.clone()));
                proof {
                    assert(expr_ok(*e));
                }
                Ok(())
            },
            Expression::Integer(i) => {
                self.push_const(Object::Integer(*i));
                proof {
                    assert(expr_ok(*e));
                }
                Ok(())
            },
            Expression::Float(f) => {
                self.push_const(Object::Float(*f));
                proof {
                    assert(expr_ok(*e));
                }
                Ok(())
            },
            Expression::Variable(v) => {
                self.push_op(Code::Get(v.clone()));
                proof {
                    assert(expr_ok(*e));
                }
                Ok(())
            },
            Expression::Identifier(i) => {
                self.push_op(Code::GetConstant(i.clone()));
                proof {
                    assert(expr_ok(*e));
                }
                Ok(())
            },
            Expression::Null => {
                proof {
                    lemma_advances_refl(self);
                }
                Err(CompileError::UnsupportedExpression)
            },
            Expression::Array(_) => {
                proof {
                    lemma_advances_refl(self);
                }
                Err(CompileError::UnsupportedExpression)
            },
            Expression::Index(_, _) => {
                proof {
                    lemma_advances_refl(self);
                }
                Err(CompileError::UnsupportedExpression)
            },
            Expression::Infix(lhs, op, rhs) => {
                let op = *op;
                proof {
                    assert(*e matches Expression::Infix(l, o, r) && o == op && *l == **lhs && *r
                        == **rhs);
                }
                if matches!(op, Op::LessThan | Op::GreaterThan) {
                    match self.compile_expr(lhs) {
                        Ok(()) => {},
                        Err(er) => {
                            return Err(er);
                        },
                    }
                    let ghost mid = *self;
                    match self.compile_expr(rhs) {
                        Ok(()) => {},
                        Err(er) => {
                            proof {
                                lemma_compose(old(self), &mid, self);
                            }
                            return Err(er);
                        },
                    }
                    let ghost mid2 = *self;
                    if matches!(op, Op::LessThan) {
                        self.push_op(Code::LessThan);
                    } else {
                        self.push_op(Code::GreaterThan);
                    }
                    proof {
                        lemma_compose(old(self), &mid, &mid2);
                        lemma_compose(old(self), &mid2, self);
                        assert(expr_ok(**lhs) && expr_ok(**rhs));
                        assert(expr_ok(*e));
                    }
                    Ok(())
                } else {
                    let fold = !matches!(op, Op::Concat) && lit_check(lhs) && lit_check(rhs);
                    proof {
                        assert(fold == folds(*e));
                    }
                    if fold {
                        let lv = lit_object(lhs);
                        let rv = lit_object(rhs);
                        match eval_op(op, &lv, &rv) {
                            Ok(v) => {
                                self.push_const(v);
                                proof {
                                    assert(expr_ok(**lhs) && expr_ok(**rhs));
                                    assert(expr_ok(*e));
                                }
                                Ok(())
                            },
                            Err(_) => unreached(),
                        }
                    } else {
                        match self.compile_expr(lhs) {
                            Ok(()) => {},
                            Err(er) => {
                                return Err(er);
                            },
                        }
                        let ghost mid = *self;
                        match self.compile_expr(rhs) {
                            Ok(()) => {},
                            Err(er) => {
                                proof {
                                    lemma_compose(old(self), &mid, self);
                                }
                                return Err(er);
                            },
                        }
                        let ghost mid2 = *self;
                        match op {
                            Op::Add => self.push_op(Code::Add),
                            Op::Subtract => self.push_op(Code::Subtract),
                            Op::Multiply => self.push_op(Code::Multiply),
                            Op::Divide => self.push_op(Code::Divide),
                            Op::Concat => self.push_op(Code::Concat),
                            _ => unreached(),
                        };
                        proof {
                            lemma_compose(old(self), &mid, &mid2);
                            lemma_compose(old(self), &mid2, self);
                            assert(expr_ok(**lhs) && expr_ok(**rhs));
                            assert(expr_ok(*e));
                        }
                        Ok(())
                    }
                }
            },
            Expression::Assign(target, value) => {
                match self.compile_expr(value) {
                    Ok(()) => {},
                    Err(er) => {
                        return Err(er);
                    },
                }
                let ghost mid = *self;
                match &**target {
                    Expression::Variable(v) => {
                        self.push_op(Code::Assign(v.clone()));
                        proof {
                            lemma_compose(old(self), &mid, self);
                            assert(expr_ok(*e));
                        }
                        Ok(())
                    },
                    _ => {
                        proof {
                            assert(!expr_ok(*e));
                        }
                        Err(CompileError::InvalidAssignTarget)
                    },
                }
            },
            Expression::Call(callable, args) => {
                self.push_op(Code::InitCall(callable.clone()));
                let ghost st_entry = self.lstate();
                let n = args.len();
                let mut i: usize = n;
                proof {
                    lemma_exprs_ok_iff(args@);
                    assert(decreases_to!(*e => args@));
                    assert(expr_ok(*e) == exprs_ok(args@));
                    assert(!folds(*e));
                    assert(args@.take(n as int) =~= args@);
                }
                while i > 0
                    invariant
                        expr_ok(*e) == exprs_ok(args@),
                        !folds(*e),
                        *e == Expression::Call(*callable, *args),
                        st_entry == emit_one(old(self).lstate(), CodeV::InitCall(callable@)),
                        lower_args(st_entry, args@) == lower_args(
                            self.lstate(),
                            args@.take(i as int),
                        ),
                        self.inv(),
                        0 <= i <= n,
                        n == args@.len(),
                        Compiler::advances(old(self), self),
                        Compiler::fresh_steady(old(self), self),
                        Compiler::expr_frame(old(self), self),
                        forall|k: int| i <= k < n ==> expr_ok(#[trigger] args@[k]),
                        decreases_to!(*e => args@),
                    decreases i,
                {
                    i = i - 1;
                    proof {
                        assert(decreases_to!(args@ => args@[i as int]));
                        assert(args@.take(i as int + 1).last() == args@[i as int]);
                        assert(args@.take(i as int + 1).drop_last() =~= args@.take(i as int));
                    }
                    let ghost mid = *self;
                    match self.compile_expr(&args[i]) {
                        Ok(()) => {},
                        Err(er) => {
                            proof {
                                lemma_compose(old(self), &mid, self);
                                lemma_exprs_ok_iff(args@);
                                assert(!expr_ok(args@[i as int]));
                                assert(!exprs_ok(args@));
                                assert(!expr_ok(*e));
                                assert(lower_expr(mid.lstate(), args@[i as int])
                                    == Err::<LowerState, CompileError>(er));
                                assert(lower_args(mid.lstate(), args@.take(i as int + 1))
                                    == Err::<LowerState, CompileError>(er));
                                assert(lower_args(st_entry, args@) == Err::<
                                    LowerState,
                                    CompileError,
                                >(er));
                                assert(lower_expr(old(self).lstate(), *e) == Err::<
                                    LowerState,
                                    CompileError,
                                >(er));
                            }
                            return Err(er);
                        },
                    }
                    let ghost mid2 = *self;
                    self.push_op(Code::SendArg);
                    proof {
                        lemma_compose(old(self), &mid, &mid2);
                        lemma_compose(old(self), &mid2, self);
                        assert(lower_expr(mid.lstate(), args@[i as int])
                            == Ok::<LowerState, CompileError>(mid2.lstate()));
                        assert(self.lstate() == emit_one(mid2.lstate(), CodeV::SendArg));
                        assert(lower_args(mid.lstate(), args@.take(i as int + 1)) == lower_args(
                            self.lstate(),
                            args@.take(i as int),
                        ));
                    }
                }
                let ghost mid = *self;
                proof {
                    assert(args@.take(0) =~= Seq::<Expression>::empty());
                    assert(lower_args(st_entry, args@) == Ok::<LowerState, CompileError>(
                        mid.lstate(),
                    ));
                }
                if self.globals.is_user_function(callable) {
                    self.push_op(Code::DoUserCall);
                } else {
                    self.push_op(Code::DoInternalCall);
                }
                proof {
                    lemma_compose(old(self), &mid, self);
                    lemma_exprs_ok_iff(args@);
                    assert(exprs_ok(args@));
                    assert(expr_ok(*e));
                    assert(lower_expr(old(self).lstate(), *e) == Ok::<LowerState, CompileError>(
                        self.lstate(),
                    ));
                }
                Ok(())
            },
        }
    }
}

proof fn lemma_scope_extend(a: &Compiler, b: &Compiler, h: Set<int>)
    requires
        scope_ok(a.cur(), a.nconsts(), h),
        Compiler::advances(a, b),
        Compiler::fresh_steady(a, b),
    ensures
        scope_ok(b.cur(), b.nconsts(), h),
{
    assert forall|i: int| 0 <= i < b.cur().len() && !h.contains(i) implies code_wf(
        #[trigger] b.cur()[i],
        b.cur().len() as int,
        b.nconsts(),
    ) by {
        if i < a.cur().len() {
            assert(b.cur()[i] == b.cur().subrange(0, a.cur().len() as int)[i]);
            assert(b.cur()[i] == a.cur()[i]);
            lemma_code_wf_mono(
                b.cur()[i],
                a.cur().len() as int,
                b.cur().len() as int,
                a.nconsts(),
                b.nconsts(),
            );
        }
    }
}

proof fn lemma_scope_push(s: Seq<CodeV>, n: int, h: Set<int>, c: CodeV)
    requires
        scope_ok(s, n, h),
        code_wf(c, s.len() as int + 1, n),
    ensures
        scope_ok(s.push(c), n, h),
{
    assert forall|i: int| 0 <= i < s.push(c).len() && !h.contains(i) implies code_wf(
        #[trigger] s.push(c)[i],
        s.push(c).len() as int,
        n,
    ) by {
        if i < s.len() {
            assert(s.push(c)[i] == s[i]);
            lemma_code_wf_mono(s[i], s.len() as int, s.len() as int + 1, n, n);
        } else {
            assert(s.push(c)[i] == c);
        }
    }
}

proof fn lemma_scope_push_hole(s: Seq<CodeV>, n: int, h: Set<int>, c: CodeV)
    requires
        scope_ok(s, n, h),
    ensures
        scope_ok(s.push(c), n, h.insert(s.len() as int)),
{
    assert forall|i: int|
        0 <= i < s.push(c).len() && !h.insert(s.len() as int).contains(i) implies code_wf(
        #[trigger] s.push(c)[i],
        s.push(c).len() as int,
        n,
    ) by {
        assert(i < s.len());
        assert(s.push(c)[i] == s[i]);
        lemma_code_wf_mono(s[i], s.len() as int, s.len() as int + 1, n, n);
    }
}

proof fn lemma_scope_patch(s: Seq<CodeV>, n: int, h: Set<int>, p: int, c: CodeV)
    requires
        scope_ok(s, n, h.insert(p)),
        0 <= p < s.len(),
        code_wf(c, s.len() as int, n),
    ensures
        scope_ok(s.update(p, c), n, h),
{
    let s2 = s.update(p, c);
    assert forall|i: int| 0 <= i < s2.len() && !h.contains(i) implies code_wf(
        #[trigger] s2[i],
        s2.len() as int,
        n,
    ) by {
        if i != p {
            assert(!h.insert(p).contains(i));
            assert(s2[i] == s[i]);
        }
    }
}

proof fn lemma_scope_nconsts(s: Seq<CodeV>, n1: int, n2: int, h: Set<int>)
    requires
        scope_ok(s, n1, h),
        n1 <= n2,
    ensures
        scope_ok(s, n2, h),
{
    assert forall|i: int| 0 <= i < s.len() && !h.contains(i) implies code_wf(
        #[trigger] s[i],
        s.len() as int,
        n2,
    ) by {
        lemma_code_wf_mono(s[i], s.len() as int, s.len() as int, n1, n2);
    }
}

proof fn lemma_pend_empty(s: Seq<usize>)
    requires
        s.len() == 0,
    ensures
        pend_set(s) =~= Set::<int>::empty(),
{
}

impl Compiler {
    /// What every statement step preserves: the scope stack's depth, every
    /// scope below the current one, and monotone growth of the constant pool
    /// and of the current scope's length.
    spec fn stmt_frame(pre: &Compiler, post: &Compiler) -> bool {
        &&& post.scopes@.len() == pre.scopes@.len()
        &&& forall|k: int| 0 <= k < pre.scopes@.len() - 1 ==> post.scopes@[k]@ == pre.scopes@[k]@
        &&& consts_view(pre.constants@).is_prefix_of(consts_view(post.constants@))
        &&& post.cur().len() >= pre.cur().len()
        &&& post.globals@.constants == pre.globals@.constants
    }
}

proof fn lemma_stmt_frame_trans(a: &Compiler, b: &Compiler, c: &Compiler)
    requires
        Compiler::stmt_frame(a, b),
        Compiler::stmt_frame(b, c),
    ensures
        Compiler::stmt_frame(a, c),
{
    lemma_prefix_trans(consts_view(a.constants@), consts_view(b.constants@), consts_view(c.constants@));
}

proof fn lemma_prefix_refl<A>(s: Seq<A>)
    ensures
        s.is_prefix_of(s),
{
    assert(s =~= s.subrange(0, s.len() as int));
}

proof fn lemma_prefix_index<A>(a: Seq<A>, b: Seq<A>, j: int)
    requires
        a.is_prefix_of(b),
        0 <= j < a.len(),
    ensures
        a[j] == b[j],
{
    assert(a[j] == b.subrange(0, a.len() as int)[j]);
}

proof fn lemma_pend_push(s: Seq<usize>, v: usize)
    ensures
        pend_set(s.push(v)) =~= pend_set(s).insert(v as int),
{
    assert forall|x: int| #[trigger] pend_set(s.push(v)).contains(x) implies pend_set(s).insert(
        v as int,
    ).contains(x) by {
        let j = choose|j: int| 0 <= j < s.push(v).len() && (s.push(v)[j] as int) == x;
        if j < s.len() {
            assert((s[j] as int) == x);
        } else {
            assert(x == v as int);
        }
    }
    assert forall|x: int| #[trigger] pend_set(s).insert(v as int).contains(x) implies pend_set(
        s.push(v),
    ).contains(x) by {
        if x == v as int {
            assert((s.push(v)[s.len() as int] as int) == x);
        } else {
            let j = choose|j: int| 0 <= j < s.len() && (s[j] as int) == x;
            assert((s.push(v)[j] as int) == x);
        }
    }
}

proof fn lemma_patch_step(spre: Seq<CodeV>, n: int, base: Set<int>, bp: Seq<usize>, t: int, c: CodeV)
    requires
        0 <= t < bp.len(),
        (bp[t] as int) < spre.len(),
        scope_ok(spre, n, base.union(pend_set(bp.skip(t)))),
        code_wf(c, spre.len() as int, n),
    ensures
        scope_ok(spre.update(bp[t] as int, c), n, base.union(pend_set(bp.skip(t + 1)))),
{
    let q = bp[t] as int;
    let s2 = spre.update(q, c);
    assert forall|i: int|
        0 <= i < s2.len() && !base.union(pend_set(bp.skip(t + 1))).contains(i) implies code_wf(
        #[trigger] s2[i],
        s2.len() as int,
        n,
    ) by {
        if i == q {
        } else {
            assert(s2[i] == spre[i]);
            if pend_set(bp.skip(t)).contains(i) {
                let j0 = choose|j: int| 0 <= j < bp.skip(t).len() && (bp.skip(t)[j] as int) == i;
                assert(bp.skip(t)[j0] == bp[t + j0]);
                if j0 == 0 {
                    assert(i == q);
                    assert(false);
                } else {
                    assert(bp.skip(t + 1)[j0 - 1] == bp[t + j0]);
                    assert(pend_set(bp.skip(t + 1)).contains(i));
                    assert(false);
                }
            }
        }
    }
}

impl Compiler {
    /// Patches every pending-break placeholder to jump just past the current
    /// end of the scope, discharging the whole pending list.
    fn patch_breaks(&mut self, Ghost(base): Ghost<Set<int>>)
        requires
            old(self).inv(),
            scope_ok(
                old(self).cur(),
                old(self).nconsts(),
                base.union(pend_set(old(self).pend())),
            ),
        ensures
            final(self).inv(),
            final(self).cur().len() == old(self).cur().len(),
            final(self).constants@ == old(self).constants@,
            final(self).globals == old(self).globals,
            final(self).breakable_scope == old(self).breakable_scope,
            final(self).breakable_positions@ == old(self).breakable_positions@,
            final(self).scopes@.len() == old(self).scopes@.len(),
            forall|k: int|
                0 <= k < old(self).scopes@.len() - 1 ==> final(self).scopes@[k]@ == old(
                    self,
                ).scopes@[k]@,
            scope_ok(final(self).cur(), final(self).nconsts(), base),
            final(self).cur() == patch_all(
                old(self).cur(),
                pend_ints(old(self).pend()),
                old(self).cur().len() as int,
            ),
    {
        let after = self.len();
        let ghost bp = old(self).pend();
        proof {
            assert(bp.skip(0) =~= bp);
            assert(pend_ints(bp).skip(0) =~= pend_ints(bp));
        }
        let m = self.breakable_positions.len();
        let mut t: usize = 0;
        while t < m
            invariant
                self.inv(),
                0 <= t <= m,
                m == bp.len(),
                self.breakable_positions@ == bp,
                self.cur().len() == old(self).cur().len(),
                after == self.cur().len(),
                self.constants@ == old(self).constants@,
                self.globals == old(self).globals,
                self.breakable_scope == old(self).breakable_scope,
                self.scopes@.len() == old(self).scopes@.len(),
                forall|k: int|
                    0 <= k < old(self).scopes@.len() - 1 ==> self.scopes@[k]@ == old(
                        self,
                    ).scopes@[k]@,
                scope_ok(self.cur(), self.nconsts(), base.union(pend_set(bp.skip(t as int)))),
                patch_all(old(self).cur(), pend_ints(bp), after as int) == patch_all(
                    self.cur(),
                    pend_ints(bp).skip(t as int),
                    after as int,
                ),
            decreases m - t,
        {
            let q = self.breakable_positions[t];
            proof {
                assert(q == self.pend()[t as int]);
            }
            let ghost pre = *self;
            self.replace(q, Code::Jump(after));
            proof {
                lemma_patch_step(
                    pre.cur(),
                    pre.nconsts(),
                    base,
                    bp,
                    t as int,
                    CodeV::Jump(after as int),
                );
                assert forall|j: int| 0 <= j < self.pend().len() implies ((
                #[trigger] self.pend()[j]) as int) < self.cur().len() by {
                    assert(self.pend()[j] == pre.pend()[j]);
                }
                assert(pend_ints(bp).skip(t as int)[0] == q as int);
                assert(pend_ints(bp).skip(t as int).skip(1) =~= pend_ints(bp).skip(t as int + 1));
                assert(patch_all(pre.cur(), pend_ints(bp).skip(t as int), after as int)
                    == patch_all(self.cur(), pend_ints(bp).skip(t as int + 1), after as int));
            }
            t = t + 1;
        }
        proof {
            lemma_pend_empty(bp.skip(m as int));
            assert(base.union(pend_set(bp.skip(m as int))) =~= base);
            assert(pend_ints(bp).skip(m as int).len() == 0);
        }
    }

    /// Emits the implicit parameter-bind prologue: for each parameter in
    /// declared order, bind the next staged value and drop the re-pushed
    /// copy.
    fn bind_params(&mut self, params: &Vec<String>)
        requires
            old(self).inv(),
            scope_ok(old(self).cur(), old(self).nconsts(), Set::<int>::empty()),
        ensures
            final(self).inv(),
            final(self).constants@ == old(self).constants@,
            final(self).globals == old(self).globals,
            final(self).breakable_scope == old(self).breakable_scope,
            final(self).breakable_positions@ == old(self).breakable_positions@,
            final(self).scopes@.len() == old(self).scopes@.len(),
            forall|k: int|
                0 <= k < old(self).scopes@.len() - 1 ==> final(self).scopes@[k]@ == old(
                    self,
                ).scopes@[k]@,
            scope_ok(final(self).cur(), final(self).nconsts(), Set::<int>::empty()),
            final(self).cur() == old(self).cur() + param_prologue(params@),
    {
        let np = params.len();
        proof {
            assert(params@.skip(0) =~= params@);
        }
        let mut pi: usize = 0;
        while pi < np
            invariant
                old(self).cur() + param_prologue(params@) == self.cur() + param_prologue(
                    params@.skip(pi as int),
                ),
                self.inv(),
                0 <= pi <= np,
                np == params@.len(),
                self.constants@ == old(self).constants@,
                self.globals == old(self).globals,
                self.breakable_scope == old(self).breakable_scope,
                self.breakable_positions@ == old(self).breakable_positions@,
                self.scopes@.len() == old(self).scopes@.len(),
                forall|k: int|
                    0 <= k < old(self).scopes@.len() - 1 ==> self.scopes@[k]@ == old(
                        self,
                    ).scopes@[k]@,
                scope_ok(self.cur(), self.nconsts(), Set::<int>::empty()),
            decreases np - pi,
        {
            let ghost p1 = *self;
            self.emit(Code::Assign(params[pi].clone()));
            let ghost p2 = *self;
            self.emit(Code::Pop);
            proof {
                lemma_scope_push(
                    p1.cur(),
                    p1.nconsts(),
                    Set::<int>::empty(),
                    CodeV::Assign(params@[pi as int]@),
                );
                lemma_scope_push(p2.cur(), p2.nconsts(), Set::<int>::empty(), CodeV::Pop);
                assert forall|j: int| 0 <= j < self.pend().len() implies ((
                #[trigger] self.pend()[j]) as int) < self.cur().len() by {
                    assert(self.pend()[j] == p1.pend()[j]);
                }
                assert(params@.skip(pi as int)[0] == params@[pi as int]);
                assert(params@.skip(pi as int).skip(1) =~= params@.skip(pi as int + 1));
                assert(param_prologue(params@.skip(pi as int)) == seq![
                    CodeV::Assign(params@[pi as int]@),
                    CodeV::Pop,
                ] + param_prologue(params@.skip(pi as int + 1)));
                assert(p1.cur().push(CodeV::Assign(params@[pi as int]@)).push(CodeV::Pop)
                    + param_prologue(params@.skip(pi as int + 1)) =~= p1.cur() + (seq![
                    CodeV::Assign(params@[pi as int]@),
                    CodeV::Pop,
                ] + param_prologue(params@.skip(pi as int + 1))));
            }
            pi = pi + 1;
        }
        proof {
            assert(param_prologue(params@.skip(np as int)) =~= Seq::<CodeV>::empty());
            assert(self.cur() + param_prologue(params@.skip(np as int)) =~= self.cur());
        }
    }

    /// The common step from an expression-lowering phase to the statement
    /// contract's bookkeeping.
    proof fn expr_to_stmt(a: &Compiler, b: &Compiler)
        requires
            Compiler::advances(a, b),
            Compiler::expr_frame(a, b),
        ensures
            Compiler::stmt_frame(a, b),
            a.pend().is_prefix_of(b.pend()),
    {
        lemma_prefix_refl(b.pend());
    }

    /// Lowers one statement onto the current scope.
    ///
    /// On success the current scope stays well formed: every jump target is
    /// patched in range except the positions on the pending-break list (all
    /// of them inside `holes` plus the list itself), and every break recorded
    /// here waits for the innermost enclosing loop — a loop restores the
    /// pending list it found, so one loop's breaks never leak into another's.
    fn compile_stmt(&mut self, s: &Statement, Ghost(holes): Ghost<Set<int>>) -> (r: Result<
        (),
        CompileError,
    >)
        requires
            old(self).inv(),
            scope_ok(
                old(self).cur(),
                old(self).nconsts(),
                holes.union(pend_set(old(self).pend())),
            ),
        ensures
            final(self).inv(),
            Compiler::stmt_frame(old(self), final(self)),
            final(self).breakable_scope == old(self).breakable_scope,
            old(self).pend().is_prefix_of(final(self).pend()),
            r is Ok <==> stmt_ok(*s, old(self).breakable_scope),
            r is Ok ==> scope_ok(
                final(self).cur(),
                final(self).nconsts(),
                holes.union(pend_set(final(self).pend())),
            ),
            r is Ok ==> forall|j: int|
                old(self).pend().len() <= j < final(self).pend().len() ==> old(self).cur().len()
                    <= ((#[trigger] final(self).pend()[j]) as int),
            r is Ok && !old(self).breakable_scope ==> final(self).pend() == old(self).pend(),
            match r {
                Ok(()) => lower_stmt(old(self).lstate(), *s) == Ok::<LowerState, CompileError>(
                    final(self).lstate(),
                ),
                Err(er) => lower_stmt(old(self).lstate(), *s) == Err::<LowerState, CompileError>(
                    er,
                ),
            },
        decreases *s, 1int,
    {
        let ghost hh = holes.union(pend_set(old(self).pend()));
        match s {
            Statement::Echo(e) => {
                match self.compile_expr(e) {
                    Ok(()) => {},
                    Err(er) => {
                        proof {
                            Compiler::expr_to_stmt(old(self), self);
                        }
                        return Err(er);
                    },
                }
                let ghost mid = *self;
                self.push_op(Code::Echo);
                proof {
                    lemma_scope_extend(old(self), &mid, hh);
                    lemma_scope_push(mid.cur(), mid.nconsts(), hh, CodeV::Echo);
                    Compiler::expr_to_stmt(&mid, self);
                    Compiler::expr_to_stmt(old(self), &mid);
                    lemma_stmt_frame_trans(old(self), &mid, self);
                }
                Ok(())
            },
            Statement::Expression(e) => {
                match self.compile_expr(e) {
                    Ok(()) => {},
                    Err(er) => {
                        proof {
                            Compiler::expr_to_stmt(old(self), self);
                        }
                        return Err(er);
                    },
                }
                let ghost mid = *self;
                self.push_op(Code::Pop);
                proof {
                    lemma_scope_extend(old(self), &mid, hh);
                    lemma_scope_push(mid.cur(), mid.nconsts(), hh, CodeV::Pop);
                    Compiler::expr_to_stmt(&mid, self);
                    Compiler::expr_to_stmt(old(self), &mid);
                    lemma_stmt_frame_trans(old(self), &mid, self);
                }
                Ok(())
            },
            Statement::Return(eo) => {
                match eo {
                    Some(e) => {
                        match self.compile_expr(e) {
                            Ok(()) => {},
                            Err(er) => {
                                proof {
                                    Compiler::expr_to_stmt(old(self), self);
                                }
                                return Err(er);
                            },
                        }
                        let ghost mid = *self;
                        self.push_op(Code::ReturnWith);
                        proof {
                            lemma_scope_extend(old(self), &mid, hh);
                            lemma_scope_push(mid.cur(), mid.nconsts(), hh, CodeV::ReturnWith);
                            Compiler::expr_to_stmt(&mid, self);
                            Compiler::expr_to_stmt(old(self), &mid);
                            lemma_stmt_frame_trans(old(self), &mid, self);
                        }
                        Ok(())
                    },
                    None => {
                        self.push_op(Code::Return);
                        proof {
                            lemma_scope_push(old(self).cur(), old(self).nconsts(), hh, CodeV::Return);
                            Compiler::expr_to_stmt(old(self), self);
                        }
                        Ok(())
                    },
                }
            },
            Statement::Break => {
                if !self.breakable_scope {
                    proof {
                        lemma_prefix_refl(consts_view(self.constants@));
                        lemma_prefix_refl(self.pend());
                    }
                    return Err(CompileError::InvalidBreakScope);
                }
                let p = self.emit(Code::Jump(usize::MAX));
                self.breakable_positions.push(p);
                proof {
                    assert(pend_ints(self.pend()) =~= pend_ints(old(self).pend()).push(p as int));
                    lemma_scope_push_hole(
                        old(self).cur(),
                        old(self).nconsts(),
                        hh,
                        CodeV::Jump(usize::MAX as int),
                    );
                    lemma_pend_push(old(self).pend(), p);
                    assert(holes.union(pend_set(self.pend())) =~= hh.insert(p as int));
                    lemma_prefix_refl(consts_view(self.constants@));
                    assert(old(self).pend() =~= self.pend().subrange(
                        0,
                        old(self).pend().len() as int,
                    ));
                }
                Ok(())
            },
            Statement::For(_, _, _, _) => {
                proof {
                    lemma_prefix_refl(consts_view(self.constants@));
                    lemma_prefix_refl(self.pend());
                }
                Err(CompileError::UnsupportedStatement)
            },
            Statement::Const(_, _) => {
                proof {
                    lemma_prefix_refl(consts_view(self.constants@));
                    lemma_prefix_refl(self.pend());
                }
                Err(CompileError::UnsupportedStatement)
            },
            Statement::IfElse(cond, then_b, else_b) => {
                proof {
                    assert(*s == Statement::IfElse(*cond, *then_b, *else_b));
                }
                self.compile_ifelse(s, cond, then_b, else_b, Ghost(holes))
            },
            Statement::While(cond, body) => {
                proof {
                    assert(*s == Statement::While(*cond, *body));
                }
                self.compile_while(s, cond, body, Ghost(holes))
            },
            Statement::Function(name, params, body) => {
                proof {
                    assert(*s == Statement::Function(*name, *params, *body));
                }
                self.compile_function(s, name, params, body, Ghost(holes))
            },
        }
    }
}

impl Compiler {
    #[verifier::rlimit(80)]
    fn compile_ifelse(
        &mut self,
        s: &Statement,
        cond: &Expression,
        then_b: &Vec<Statement>,
        else_b: &Vec<Statement>,
        Ghost(holes): Ghost<Set<int>>,
    ) -> (r: Result<(), CompileError>)
        requires
            old(self).inv(),
            scope_ok(
                old(self).cur(),
                old(self).nconsts(),
                holes.union(pend_set(old(self).pend())),
            ),
            *s == Statement::IfElse(*cond, *then_b, *else_b),
        ensures
            final(self).inv(),
            Compiler::stmt_frame(old(self), final(self)),
            final(self).breakable_scope == old(self).breakable_scope,
            old(self).pend().is_prefix_of(final(self).pend()),
            r is Ok <==> stmt_ok(*s, old(self).breakable_scope),
            r is Ok ==> scope_ok(
                final(self).cur(),
                final(self).nconsts(),
                holes.union(pend_set(final(self).pend())),
            ),
            r is Ok ==> forall|j: int|
                old(self).pend().len() <= j < final(self).pend().len() ==> old(self).cur().len()
                    <= ((#[trigger] final(self).pend()[j]) as int),
            r is Ok && !old(self).breakable_scope ==> final(self).pend() == old(self).pend(),
            match r {
                Ok(()) => lower_stmt(old(self).lstate(), *s) == Ok::<LowerState, CompileError>(
                    final(self).lstate(),
                ),
                Err(er) => lower_stmt(old(self).lstate(), *s) == Err::<LowerState, CompileError>(
                    er,
                ),
            },
        decreases *s, 0int,
    {
        let ghost hh = holes.union(pend_set(old(self).pend()));
        match self.compile_expr(cond) {
            Ok(()) => {},
            Err(er) => {
                proof {
                    Compiler::expr_to_stmt(old(self), self);
                }
                return Err(er);
            },
        }
        let ghost a1 = *self;
        proof {
            lemma_scope_extend(old(self), &a1, hh);
        }
        let jnp = self.emit(Code::JumpIfFalse(usize::MAX));
        let ghost a2 = *self;
        proof {
            lemma_scope_push_hole(
                a1.cur(),
                a1.nconsts(),
                hh,
                CodeV::JumpIfFalse(usize::MAX as int),
            );
            assert(hh.insert(jnp as int) =~= holes.insert(jnp as int).union(
                pend_set(a2.pend()),
            ));
            assert(s->IfElse_1 == *then_b);
            assert(decreases_to!(*s => s->IfElse_1));
            assert(decreases_to!(*then_b => then_b@));
            assert(decreases_to!(*s => then_b@));
            Compiler::expr_to_stmt(old(self), &a1);
        }
        match self.compile_block(then_b, Ghost(holes.insert(jnp as int))) {
            Ok(()) => {},
            Err(er) => {
                proof {
                    Compiler::expr_to_stmt(old(self), &a1);
                    assert(Compiler::stmt_frame(&a1, &a2));
                    lemma_prefix_trans(
                        consts_view(a1.constants@),
                        consts_view(a2.constants@),
                        consts_view(self.constants@),
                    );
                    lemma_stmt_frame_trans(old(self), &a1, self);
                    lemma_prefix_trans(old(self).pend(), a2.pend(), self.pend());
                }
                return Err(er);
            },
        }
        let ghost a3 = *self;
        proof {
            Compiler::expr_to_stmt(old(self), &a1);
            assert(Compiler::stmt_frame(&a1, &a2));
            lemma_stmt_frame_trans(old(self), &a1, &a2);
            lemma_stmt_frame_trans(old(self), &a2, &a3);
            lemma_prefix_trans(old(self).pend(), a2.pend(), a3.pend());
        }
        if else_b.is_empty() {
            let after = self.len();
            self.replace(jnp, Code::JumpIfFalse(after));
            proof {
                assert(holes.insert(jnp as int).union(pend_set(a3.pend())) =~= holes.union(
                    pend_set(a3.pend()),
                ).insert(jnp as int));
                lemma_scope_patch(
                    a3.cur(),
                    a3.nconsts(),
                    holes.union(pend_set(a3.pend())),
                    jnp as int,
                    CodeV::JumpIfFalse(after as int),
                );
                lemma_stmt_frame_trans(old(self), &a3, self);
                assert(else_b@.len() == 0);
                assert(block_ok(else_b@, old(self).breakable_scope));
                assert forall|j: int|
                    old(self).pend().len() <= j < self.pend().len() implies old(
                    self,
                ).cur().len() <= ((#[trigger] self.pend()[j]) as int) by {
                    if j < a2.pend().len() {
                        lemma_prefix_index(a2.pend(), a3.pend(), j);
                    }
                }
            }
            Ok(())
        } else {
            let jp = self.emit(Code::Jump(usize::MAX));
            let ghost a4 = *self;
            let after_then = self.len();
            self.replace(jnp, Code::JumpIfFalse(after_then));
            let ghost a5 = *self;
            proof {
                lemma_scope_push_hole(
                    a3.cur(),
                    a3.nconsts(),
                    holes.insert(jnp as int).union(pend_set(a3.pend())),
                    CodeV::Jump(usize::MAX as int),
                );
                assert(holes.insert(jnp as int).union(pend_set(a3.pend())).insert(
                    jp as int,
                ) =~= holes.insert(jp as int).union(pend_set(a4.pend())).insert(
                    jnp as int,
                ));
                lemma_scope_patch(
                    a4.cur(),
                    a4.nconsts(),
                    holes.insert(jp as int).union(pend_set(a4.pend())),
                    jnp as int,
                    CodeV::JumpIfFalse(after_then as int),
                );
                assert(Compiler::stmt_frame(&a3, &a5));
                lemma_stmt_frame_trans(old(self), &a3, &a5);
                assert(s->IfElse_2 == *else_b);
                assert(decreases_to!(*s => s->IfElse_2));
                assert(decreases_to!(*else_b => else_b@));
                assert(decreases_to!(*s => else_b@));
            }
            match self.compile_block(else_b, Ghost(holes.insert(jp as int))) {
                Ok(()) => {},
                Err(er) => {
                    proof {
                        lemma_stmt_frame_trans(old(self), &a5, self);
                        lemma_prefix_trans(old(self).pend(), a5.pend(), self.pend());
                    }
                    return Err(er);
                },
            }
            let ghost a6 = *self;
            let after_o = self.len();
            self.replace(jp, Code::Jump(after_o));
            proof {
                assert(holes.insert(jp as int).union(pend_set(a6.pend())) =~= holes.union(
                    pend_set(a6.pend()),
                ).insert(jp as int));
                lemma_scope_patch(
                    a6.cur(),
                    a6.nconsts(),
                    holes.union(pend_set(a6.pend())),
                    jp as int,
                    CodeV::Jump(after_o as int),
                );
                lemma_stmt_frame_trans(old(self), &a5, &a6);
                lemma_stmt_frame_trans(old(self), &a6, self);
                lemma_prefix_trans(old(self).pend(), a5.pend(), self.pend());
                assert forall|j: int|
                    old(self).pend().len() <= j < self.pend().len() implies old(
                    self,
                ).cur().len() <= ((#[trigger] self.pend()[j]) as int) by {
                    if j < a2.pend().len() {
                        lemma_prefix_index(a2.pend(), a5.pend(), j);
                        lemma_prefix_index(a5.pend(), a6.pend(), j);
                    } else if j < a5.pend().len() {
                        lemma_prefix_index(a5.pend(), a6.pend(), j);
                    }
                }
            }
            Ok(())
        }
    }

    #[verifier::rlimit(80)]
    fn compile_while(
        &mut self,
        s: &Statement,
        cond: &Expression,
        body: &Vec<Statement>,
        Ghost(holes): Ghost<Set<int>>,
    ) -> (r: Result<(), CompileError>)
        requires
            old(self).inv(),
            scope_ok(
                old(self).cur(),
                old(self).nconsts(),
                holes.union(pend_set(old(self).pend())),
            ),
            *s == Statement::While(*cond, *body),
        ensures
            final(self).inv(),
            Compiler::stmt_frame(old(self), final(self)),
            final(self).breakable_scope == old(self).breakable_scope,
            old(self).pend().is_prefix_of(final(self).pend()),
            r is Ok <==> stmt_ok(*s, old(self).breakable_scope),
            r is Ok ==> scope_ok(
                final(self).cur(),
                final(self).nconsts(),
                holes.union(pend_set(final(self).pend())),
            ),
            r is Ok ==> forall|j: int|
                old(self).pend().len() <= j < final(self).pend().len() ==> old(self).cur().len()
                    <= ((#[trigger] final(self).pend()[j]) as int),
            r is Ok && !old(self).breakable_scope ==> final(self).pend() == old(self).pend(),
            match r {
                Ok(()) => lower_stmt(old(self).lstate(), *s) == Ok::<LowerState, CompileError>(
                    final(self).lstate(),
                ),
                Err(er) => lower_stmt(old(self).lstate(), *s) == Err::<LowerState, CompileError>(
                    er,
                ),
            },
        decreases *s, 0int,
    {
        let ghost hh = holes.union(pend_set(old(self).pend()));
        let saved_flag = self.breakable_scope;
        let mut saved: Vec<usize> = Vec::new();
        core::mem::swap(&mut saved, &mut self.breakable_positions);
        let ghost hsaved = pend_set(saved@);
        let cjp = self.emit(Code::Jump(usize::MAX));
        let start = self.len();
        self.breakable_scope = true;
        let ghost b2 = *self;
        let ghost hbody = holes.union(hsaved).insert(cjp as int);
        proof {
            lemma_scope_push_hole(
                old(self).cur(),
                old(self).nconsts(),
                hh,
                CodeV::Jump(usize::MAX as int),
            );
            lemma_pend_empty(b2.pend());
            assert(hh.insert(cjp as int) =~= hbody.union(pend_set(b2.pend())));
            assert(s->While_1 == *body);
            assert(decreases_to!(*s => s->While_1));
            assert(decreases_to!(*body => body@));
            assert(decreases_to!(*s => body@));
            assert(pend_ints(b2.pend()) =~= Seq::<int>::empty());
            assert(b2.lstate() == (LowerState {
                code: old(self).lstate().code.push(CodeV::Jump(usize::MAX as int)),
                breakable: true,
                pending: Seq::<int>::empty(),
                ..old(self).lstate()
            }));
        }
        match self.compile_block(body, Ghost(hbody)) {
            Ok(()) => {},
            Err(er) => {
                self.breakable_scope = saved_flag;
                core::mem::swap(&mut saved, &mut self.breakable_positions);
                proof {
                    lemma_prefix_refl(old(self).pend());
                    lemma_prefix_trans(
                        consts_view(old(self).constants@),
                        consts_view(b2.constants@),
                        consts_view(self.constants@),
                    );
                    assert(lower_stmt(old(self).lstate(), *s) == Err::<
                        LowerState,
                        CompileError,
                    >(er));
                }
                return Err(er);
            },
        }
        let ghost bafter = *self;
        self.breakable_scope = saved_flag;
        let ghost b3 = *self;
        proof {
            assert(b3.lstate() == (LowerState {
                breakable: old(self).breakable_scope,
                ..bafter.lstate()
            }));
        }
        let cond_pos = self.len();
        match self.compile_expr(cond) {
            Ok(()) => {},
            Err(er) => {
                core::mem::swap(&mut saved, &mut self.breakable_positions);
                proof {
                    lemma_prefix_refl(old(self).pend());
                    lemma_prefix_trans(
                        consts_view(old(self).constants@),
                        consts_view(b3.constants@),
                        consts_view(self.constants@),
                    );
                    assert(lower_stmt(old(self).lstate(), *s) == Err::<
                        LowerState,
                        CompileError,
                    >(er));
                }
                return Err(er);
            },
        }
        let ghost b4 = *self;
        proof {
            lemma_scope_extend(&b3, &b4, hbody.union(pend_set(b3.pend())));
        }
        self.emit(Code::JumpIfTrue(start));
        let ghost b5 = *self;
        self.replace(cjp, Code::Jump(cond_pos));
        let ghost b6 = *self;
        let after = self.len();
        let ghost base = holes.union(hsaved);
        let ghost bp2 = b6.pend();
        proof {
            lemma_scope_push(
                b4.cur(),
                b4.nconsts(),
                hbody.union(pend_set(b4.pend())),
                CodeV::JumpIfTrue(start as int),
            );
            assert(hbody.union(pend_set(b5.pend())) =~= base.union(
                pend_set(b5.pend()),
            ).insert(cjp as int));
            lemma_scope_patch(
                b5.cur(),
                b5.nconsts(),
                base.union(pend_set(b5.pend())),
                cjp as int,
                CodeV::Jump(cond_pos as int),
            );
            assert(bp2.skip(0) =~= bp2);
            assert(base.union(pend_set(bp2.skip(0))) =~= base.union(pend_set(bp2)));
        }
        self.patch_breaks(Ghost(base));
        core::mem::swap(&mut saved, &mut self.breakable_positions);
        proof {
            assert(holes.union(pend_set(self.pend())) =~= base);
            lemma_prefix_refl(self.pend());
            lemma_prefix_trans(
                consts_view(old(self).constants@),
                consts_view(b3.constants@),
                consts_view(self.constants@),
            );
            lemma_scope_nconsts(
                self.cur(),
                b6.nconsts(),
                self.nconsts(),
                base,
            );
            let st0 = old(self).lstate();
            assert(cjp as int == st0.code.len() as int);
            let entry_s = LowerState {
                code: st0.code.push(CodeV::Jump(usize::MAX as int)),
                breakable: true,
                pending: Seq::<int>::empty(),
                ..st0
            };
            assert(lower_block(entry_s, body@) == Ok::<LowerState, CompileError>(
                bafter.lstate(),
            ));
            let st1 = bafter.lstate();
            let cond_entry_s = LowerState { breakable: st0.breakable, ..st1 };
            assert(b3.lstate() == cond_entry_s);
            assert(lower_expr(cond_entry_s, *cond) == Ok::<LowerState, CompileError>(
                b4.lstate(),
            ));
            let st2 = b4.lstate();
            let looped_s = emit_one(st2, CodeV::JumpIfTrue(cjp as int + 1));
            assert(start as int == cjp as int + 1);
            assert(b5.lstate() == looped_s);
            let headed_s = looped_s.code.update(cjp as int, CodeV::Jump(st1.code.len() as int));
            assert(cond_pos as int == st1.code.len() as int);
            assert(b6.lstate().code == headed_s);
            assert(pend_ints(b6.pend()) == st1.pending);
            assert(pend_ints(self.pend()) == st0.pending);
            assert(self.lstate().code == patch_all(headed_s, st1.pending, headed_s.len() as int));
            let result_s = LowerState {
                code: patch_all(headed_s, st1.pending, headed_s.len() as int),
                pending: st0.pending,
                ..st2
            };
            assert(self.lstate() == result_s);
            assert(lower_stmt(st0, *s) == Ok::<LowerState, CompileError>(result_s));
        }
        Ok(())
    }

    #[verifier::rlimit(80)]
    fn compile_function(
        &mut self,
        s: &Statement,
        name: &String,
        params: &Vec<String>,
        body: &Vec<Statement>,
        Ghost(holes): Ghost<Set<int>>,
    ) -> (r: Result<(), CompileError>)
        requires
            old(self).inv(),
            scope_ok(
                old(self).cur(),
                old(self).nconsts(),
                holes.union(pend_set(old(self).pend())),
            ),
            *s == Statement::Function(*name, *params, *body),
        ensures
            final(self).inv(),
            Compiler::stmt_frame(old(self), final(self)),
            final(self).breakable_scope == old(self).breakable_scope,
            old(self).pend().is_prefix_of(final(self).pend()),
            r is Ok <==> stmt_ok(*s, old(self).breakable_scope),
            r is Ok ==> scope_ok(
                final(self).cur(),
                final(self).nconsts(),
                holes.union(pend_set(final(self).pend())),
            ),
            r is Ok ==> forall|j: int|
                old(self).pend().len() <= j < final(self).pend().len() ==> old(self).cur().len()
                    <= ((#[trigger] final(self).pend()[j]) as int),
            r is Ok && !old(self).breakable_scope ==> final(self).pend() == old(self).pend(),
            match r {
                Ok(()) => lower_stmt(old(self).lstate(), *s) == Ok::<LowerState, CompileError>(
                    final(self).lstate(),
                ),
                Err(er) => lower_stmt(old(self).lstate(), *s) == Err::<LowerState, CompileError>(
                    er,
                ),
            },
        decreases *s, 0int,
    {
        let ghost hh = holes.union(pend_set(old(self).pend()));
        self.globals.create_user_function(name.clone(), Vec::new());
        proof {
            assert(code_view(Seq::<Code>::empty()) =~= Seq::<CodeV>::empty());
            assert forall|k2: Seq<char>| #[trigger] self.globals@.functions.contains_key(
                k2,
            ) implies match self.globals@.functions[k2] {
                FunctionV::User(code) => codes_wf(code, self.nconsts()),
                FunctionV::Internal(_) => true,
            } by {}
        }
        let saved_flag = self.breakable_scope;
        self.breakable_scope = false;
        let mut saved: Vec<usize> = Vec::new();
        core::mem::swap(&mut saved, &mut self.breakable_positions);
        self.enter_scope();
        let ghost f1 = *self;
        self.bind_params(params);
        let ghost f2 = *self;
        proof {
            lemma_pend_empty(f2.pend());
            assert(Set::<int>::empty().union(pend_set(f2.pend()))
                =~= Set::<int>::empty());
            assert(s->Function_2 == *body);
            assert(decreases_to!(*s => s->Function_2));
            assert(decreases_to!(*body => body@));
            assert(decreases_to!(*s => body@));
        }
        proof {
            assert(code_view(Seq::<Code>::empty()) =~= Seq::<CodeV>::empty());
            assert(f1.cur() + param_prologue(params@) =~= param_prologue(params@));
            assert(pend_ints(f2.pend()) =~= Seq::<int>::empty());
            assert(f2.lstate() == (LowerState {
                code: param_prologue(params@),
                consts: old(self).lstate().consts,
                funs: old(self).lstate().funs.insert(name@, FunctionV::User(Seq::empty())),
                breakable: false,
                pending: Seq::<int>::empty(),
            }));
        }
        match self.compile_block(body, Ghost(Set::<int>::empty())) {
            Ok(()) => {},
            Err(er) => {
                let _dropped = self.leave_scope();
                core::mem::swap(&mut saved, &mut self.breakable_positions);
                self.breakable_scope = saved_flag;
                proof {
                    lemma_prefix_refl(old(self).pend());
                    lemma_prefix_trans(
                        consts_view(old(self).constants@),
                        consts_view(f2.constants@),
                        consts_view(self.constants@),
                    );
                    assert(lower_stmt(old(self).lstate(), *s) == Err::<
                        LowerState,
                        CompileError,
                    >(er));
                }
                return Err(er);
            },
        }
        let ghost f3 = *self;
        self.constant(Object::Null);
        let ghost f4 = *self;
        self.emit(Code::Return);
        proof {
            lemma_pend_empty(f3.pend());
            assert(Set::<int>::empty().union(pend_set(f3.pend()))
                =~= Set::<int>::empty());
            lemma_scope_nconsts(f3.cur(), f3.nconsts(), f4.nconsts(), Set::<int>::empty());
            lemma_scope_push(
                f3.cur(),
                f4.nconsts(),
                Set::<int>::empty(),
                CodeV::Constant(f3.nconsts()),
            );
            lemma_scope_push(f4.cur(), f4.nconsts(), Set::<int>::empty(), CodeV::Return);
        }
        let scope = self.leave_scope();
        proof {
            assert forall|i: int| 0 <= i < scope@.len() implies code_wf(
                #[trigger] scope@[i],
                scope@.len() as int,
                self.nconsts(),
            ) by {
                assert(!Set::<int>::empty().contains(i));
            }
            assert(codes_wf(scope@, self.nconsts()));
        }
        proof {
            assert(scope@ == emit_one(pool_constant(f3.lstate(), ObjectV::Null), CodeV::Return).code);
        }
        self.globals.create_user_function(name.clone(), scope.instructions);
        core::mem::swap(&mut saved, &mut self.breakable_positions);
        self.breakable_scope = saved_flag;
        proof {
            assert forall|k2: Seq<char>| #[trigger] self.globals@.functions.contains_key(
                k2,
            ) implies match self.globals@.functions[k2] {
                FunctionV::User(code) => codes_wf(code, self.nconsts()),
                FunctionV::Internal(_) => true,
            } by {}
            lemma_prefix_refl(old(self).pend());
            lemma_prefix_trans(
                consts_view(old(self).constants@),
                consts_view(f2.constants@),
                consts_view(self.constants@),
            );
            lemma_scope_nconsts(
                self.cur(),
                old(self).nconsts(),
                self.nconsts(),
                hh,
            );
            assert(pend_ints(self.pend()) == old(self).lstate().pending);
            assert(lower_stmt(old(self).lstate(), *s) == Ok::<LowerState, CompileError>(
                self.lstate(),
            ));
        }
        Ok(())
    }
}

impl Compiler {
    /// Lowers a block of statements in order, stopping at the first one the
    /// language cannot lower.
    fn compile_block(&mut self, stmts: &Vec<Statement>, Ghost(holes): Ghost<Set<int>>) -> (r:
        Result<(), CompileError>)
        requires
            old(self).inv(),
            scope_ok(
                old(self).cur(),
                old(self).nconsts(),
                holes.union(pend_set(old(self).pend())),
            ),
        ensures
            final(self).inv(),
            Compiler::stmt_frame(old(self), final(self)),
            final(self).breakable_scope == old(self).breakable_scope,
            old(self).pend().is_prefix_of(final(self).pend()),
            r is Ok <==> block_ok(stmts@, old(self).breakable_scope),
            r is Ok ==> scope_ok(
                final(self).cur(),
                final(self).nconsts(),
                holes.union(pend_set(final(self).pend())),
            ),
            r is Ok ==> forall|j: int|
                old(self).pend().len() <= j < final(self).pend().len() ==> old(self).cur().len()
                    <= ((#[trigger] final(self).pend()[j]) as int),
            r is Ok && !old(self).breakable_scope ==> final(self).pend() == old(self).pend(),
            match r {
                Ok(()) => lower_block(old(self).lstate(), stmts@) == Ok::<
                    LowerState,
                    CompileError,
                >(final(self).lstate()),
                Err(er) => lower_block(old(self).lstate(), stmts@) == Err::<
                    LowerState,
                    CompileError,
                >(er),
            },
        decreases stmts@, 1int,
    {
        let n = stmts.len();
        let mut i: usize = 0;
        proof {
            lemma_prefix_refl(consts_view(self.constants@));
            lemma_prefix_refl(self.pend());
            assert(stmts@.skip(0) =~= stmts@);
        }
        while i < n
            invariant
                lower_block(old(self).lstate(), stmts@) == lower_block(
                    self.lstate(),
                    stmts@.skip(i as int),
                ),
                self.inv(),
                0 <= i <= n,
                n == stmts@.len(),
                Compiler::stmt_frame(old(self), self),
                self.breakable_scope == old(self).breakable_scope,
                old(self).pend().is_prefix_of(self.pend()),
                scope_ok(self.cur(), self.nconsts(), holes.union(pend_set(self.pend()))),
                forall|j: int|
                    old(self).pend().len() <= j < self.pend().len() ==> old(self).cur().len() <= ((
                    #[trigger] self.pend()[j]) as int),
                !old(self).breakable_scope ==> self.pend() == old(self).pend(),
                forall|k: int| 0 <= k < i ==> stmt_ok(#[trigger] stmts@[k], old(self).breakable_scope),
            decreases n - i,
        {
            let ghost mid = *self;
            proof {
                assert(decreases_to!(stmts@ => stmts@[i as int]));
            }
            proof {
                assert(stmts@.skip(i as int)[0] == stmts@[i as int]);
                assert(stmts@.skip(i as int).skip(1) =~= stmts@.skip(i as int + 1));
            }
            match self.compile_stmt(&stmts[i], Ghost(holes)) {
                Ok(()) => {},
                Err(er) => {
                    proof {
                        lemma_stmt_frame_trans(old(self), &mid, self);
                        lemma_prefix_trans(old(self).pend(), mid.pend(), self.pend());
                        lemma_block_ok_iff(stmts@, old(self).breakable_scope);
                        assert(!stmt_ok(stmts@[i as int], old(self).breakable_scope));
                        assert(lower_stmt(mid.lstate(), stmts@[i as int]) == Err::<
                            LowerState,
                            CompileError,
                        >(er));
                        assert(lower_block(mid.lstate(), stmts@.skip(i as int)) == Err::<
                            LowerState,
                            CompileError,
                        >(er));
                    }
                    return Err(er);
                },
            }
            proof {
                lemma_stmt_frame_trans(old(self), &mid, self);
                lemma_prefix_trans(old(self).pend(), mid.pend(), self.pend());
                assert(lower_block(mid.lstate(), stmts@.skip(i as int)) == lower_block(
                    self.lstate(),
                    stmts@.skip(i as int + 1),
                ));
                assert forall|j: int|
                    old(self).pend().len() <= j < self.pend().len() implies old(self).cur().len()
                        <= ((#[trigger] self.pend()[j]) as int) by {
                    if j < mid.pend().len() {
                        lemma_prefix_index(mid.pend(), self.pend(), j);
                    }
                }
            }
            i = i + 1;
        }
        proof {
            lemma_block_ok_iff(stmts@, old(self).breakable_scope);
            assert(stmts@.skip(n as int).len() == 0);
        }
        Ok(())
    }
}

/// Compiles a whole program: an ordered sequence of top-level statements.
///
/// Succeeds exactly on the trees the language can lower (no `for`, `const`,
/// array or index syntax; assignments to simple variables only; `break` only
/// inside a loop), and reports exactly the error `lower_block` gives for the
/// first shape it cannot lower. On success the constant pool, the top-level
/// instruction sequence and the registry's function table are exactly what
/// the lowering rules prescribe for the tree, and the output is well formed:
/// each jump target lies within its own sequence and each constant index
/// within the pool.
pub fn compile(ast: Vec<Statement>) -> (r: Result<(Vec<Object>, Vec<Code>, Globals), CompileError>)
    ensures
        r is Ok <==> block_ok(ast@, false),
        match r {
            Ok(out) => {
                &&& codes_wf(code_view(out.1@), out.0@.len() as int)
                &&& out.2.wf()
                &&& user_fns_wf(out.2@, out.0@.len() as int)
                &&& out.2@.constants == crate::globals::initial_globals().constants
                &&& lower_block(initial_lower_state(), ast@) == Ok::<LowerState, CompileError>(
                    (LowerState {
                        code: code_view(out.1@),
                        consts: consts_view(out.0@),
                        funs: out.2@.functions,
                        breakable: false,
                        pending: Seq::<int>::empty(),
                    }),
                )
            },
            Err(er) => lower_block(initial_lower_state(), ast@) == Err::<
                LowerState,
                CompileError,
            >(er),
        },
{
    let mut scopes = Vec::new();
    scopes.push(Scope::new());
    let mut compiler = Compiler {
        constants: Vec::new(),
        scopes,
        globals: Globals::new(),
        breakable_scope: false,
        breakable_positions: Vec::new(),
    };
    proof {
        assert(compiler.cur() =~= Seq::<CodeV>::empty());
        assert(compiler.pend().len() == 0);
        lemma_pend_empty(compiler.pend());
        assert(Set::<int>::empty().union(pend_set(compiler.pend())) =~= Set::<int>::empty());
        assert(consts_view(compiler.constants@) =~= Seq::<ObjectV>::empty());
        assert(pend_ints(compiler.breakable_positions@) =~= Seq::<int>::empty());
        assert(compiler.lstate() == initial_lower_state());
    }
    match compiler.compile_block(&ast, Ghost(Set::<int>::empty())) {
        Err(e) => Err(e),
        Ok(()) => {
            proof {
                lemma_pend_empty(compiler.pend());
                assert(Set::<int>::empty().union(pend_set(compiler.pend())) =~= Set::<
                    int,
                >::empty());
                assert forall|i: int| 0 <= i < compiler.cur().len() implies code_wf(
                    #[trigger] compiler.cur()[i],
                    compiler.cur().len() as int,
                    compiler.nconsts(),
                ) by {
                    assert(!Set::<int>::empty().contains(i));
                }
            }
            proof {
                assert(pend_ints(compiler.breakable_positions@) =~= Seq::<int>::empty());
            }
            let scope = compiler.leave_scope();
            Ok((compiler.constants, scope.instructions, compiler.globals))
        },
    }
}

fn lit_check(e: &Expression) -> (r: bool)
    ensures
        r == (lit_value(*e) is Some),
{
    matches!(e, Expression::Integer(_) | Expression::Float(_))
}

fn lit_object(e: &Expression) -> (o: Object)
    requires
        lit_value(*e) is Some,
    ensures
        Some(o@) == lit_value(*e),
{
    match e {
        Expression::Integer(i) => Object::Integer(*i),
        Expression::Float(b) => Object::Float(*b),
        _ => unreached(),
    }
}

} // verus!
