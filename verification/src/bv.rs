//! Symbolic bit vectors: handles on solver terms, with the term each was
//! made as for its view.
//!
//! The solver holds a term for every vector. It is the term as it was
//! made, until the solver simplifies it: then it is a term of the same
//! width and the same value. Contracts speak of the term as it was made;
//! that the held term stands for it is the invariant of the type.

use crate::bits::to_nat;
use crate::smt::{
    bool_formula, bool_home, bool_ite, bv_clone, bv_eq, bv_home, bv_new_const, bv_simplify,
    bv_term, context_id, solver_divides,
};
use crate::term::{
    as_bit, bit_false, bit_true, numeral_of, BinOp, Formula, Interp, Relation, Term,
};
use vstd::arithmetic::power2::pow2;
use vstd::prelude::*;

verus! {

/// Whether the term `held` can stand for the term `t`: it is as wide and
/// has the same value under every interpretation that divides by zero as
/// the solver does.
pub open spec fn stands_for(held: Term, t: Term) -> bool {
    &&& held.width() == t.width()
    &&& forall|i: Interp| solver_divides(i) ==> #[trigger] held.eval(i) == t.eval(i)
}

/// Whether the formula `held` can stand for the formula `f`: it has the
/// same truth value under every interpretation that divides by zero as the
/// solver does.
pub open spec fn means(held: Formula, f: Formula) -> bool {
    forall|i: Interp| solver_divides(i) ==> #[trigger] held.eval(i) == f.eval(i)
}

/// An operation on terms that stand for others stands for the operation
/// on those.
proof fn lemma_stands_not(held: Term, t: Term)
    requires
        stands_for(held, t),
    ensures
        stands_for(Term::not(held), Term::not(t)),
{
    assert forall|i: Interp| solver_divides(i) implies #[trigger] Term::not(held).eval(i) == Term::not(t).eval(i) by {
        assert(held.eval(i) == t.eval(i));
    }
}

proof fn lemma_stands_bin(op: BinOp, held: Term, t: Term, held2: Term, t2: Term)
    requires
        stands_for(held, t),
        stands_for(held2, t2),
    ensures
        stands_for(Term::bin(op, held, held2), Term::bin(op, t, t2)),
{
    assert forall|i: Interp| solver_divides(i) implies #[trigger] Term::bin(op, held, held2).eval(i) == Term::bin(op, t, t2).eval(i) by {
        assert(held.eval(i) == t.eval(i));
        assert(held2.eval(i) == t2.eval(i));
    }
}

proof fn lemma_stands_extract(high: nat, low: nat, held: Term, t: Term)
    requires
        stands_for(held, t),
    ensures
        stands_for(Term::extract(high, low, held), Term::extract(high, low, t)),
{
    assert forall|i: Interp| solver_divides(i) implies #[trigger] Term::extract(high, low, held).eval(i) == Term::extract(high, low, t).eval(i) by {
        assert(held.eval(i) == t.eval(i));
    }
}

proof fn lemma_stands_zero_ext(extra: nat, held: Term, t: Term)
    requires
        stands_for(held, t),
    ensures
        stands_for(Term::zero_ext(extra, held), Term::zero_ext(extra, t)),
{
    assert forall|i: Interp| solver_divides(i) implies #[trigger] Term::zero_ext(extra, held).eval(i) == Term::zero_ext(extra, t).eval(i) by {
        assert(held.eval(i) == t.eval(i));
    }
}

proof fn lemma_stands_sign_ext(extra: nat, held: Term, t: Term)
    requires
        stands_for(held, t),
    ensures
        stands_for(Term::sign_ext(extra, held), Term::sign_ext(extra, t)),
{
    assert forall|i: Interp| solver_divides(i) implies #[trigger] Term::sign_ext(extra, held).eval(i) == Term::sign_ext(extra, t).eval(i) by {
        assert(held.eval(i) == t.eval(i));
    }
}

proof fn lemma_stands_concat(held: Term, t: Term, held2: Term, t2: Term)
    requires
        stands_for(held, t),
        stands_for(held2, t2),
    ensures
        stands_for(Term::concat(held, held2), Term::concat(t, t2)),
{
    assert forall|i: Interp| solver_divides(i) implies #[trigger] Term::concat(held, held2).eval(i) == Term::concat(t, t2).eval(i) by {
        assert(held.eval(i) == t.eval(i));
        assert(held2.eval(i) == t2.eval(i));
    }
}

proof fn lemma_stands_ite(held: Formula, f: Formula, a: Term, b: Term)
    requires
        means(held, f),
    ensures
        stands_for(Term::ite(held, a, b), Term::ite(f, a, b)),
{
    assert forall|i: Interp| solver_divides(i) implies #[trigger] Term::ite(held, a, b).eval(i) == Term::ite(f, a, b).eval(
        i,
    ) by {
        assert(held.eval(i) == f.eval(i));
    }
}

proof fn lemma_means_rel(rel: Relation, held: Term, t: Term, held2: Term, t2: Term)
    requires
        stands_for(held, t),
        stands_for(held2, t2),
    ensures
        means(Formula::rel(rel, held, held2), Formula::rel(rel, t, t2)),
{
    assert forall|i: Interp| solver_divides(i) implies #[trigger] Formula::rel(rel, held, held2).eval(i) == Formula::rel(rel, t, t2).eval(i) by {
        assert(held.eval(i) == t.eval(i));
        assert(held2.eval(i) == t2.eval(i));
    }
}

proof fn lemma_means_not(held: Formula, f: Formula)
    requires
        means(held, f),
    ensures
        means(Formula::not(held), Formula::not(f)),
{
    assert forall|i: Interp| solver_divides(i) implies #[trigger] Formula::not(held).eval(i) == Formula::not(f).eval(i) by {
        assert(held.eval(i) == f.eval(i));
    }
}

/// A symbolic bit vector of a fixed, positive width. Its view is the term
/// as it was made. The solver holds a term that stands for it: the same
/// term, until it is simplified.
pub struct BitVec<'ctx> {
    ctx: &'ctx z3::Context,
    handle: z3::ast::BV<'ctx>,
    term: Ghost<Term>,
    literal: bool,
}

/// A formula over symbolic bit vectors. Its view is the formula as it was
/// made; the solver holds one that stands for it.
pub struct Cond<'ctx> {
    ctx: &'ctx z3::Context,
    handle: z3::ast::Bool<'ctx>,
    formula: Ghost<Formula>,
}

impl<'ctx> Cond<'ctx> {
    #[verifier::type_invariant]
    spec fn inv(self) -> bool {
        &&& bool_home(self.handle) == context_id(*self.ctx)
        &&& means(bool_formula(self.handle), self.formula@)
    }

    /// The formula as it was made.
    pub closed spec fn view(&self) -> Formula {
        self.formula@
    }

    /// The context that this formula belongs to.
    pub closed spec fn home(&self) -> int {
        context_id(*self.ctx)
    }

    /// The formula that the solver holds for this one.
    pub closed spec fn held(&self) -> Formula {
        bool_formula(self.handle)
    }

    /// Whether the solver holds the formula as it was made.
    pub open spec fn as_made(&self) -> bool {
        self.held() == self@
    }

    pub(crate) fn handle(&self) -> (r: &z3::ast::Bool<'ctx>)
        ensures
            bool_formula(*r) == self.held(),
            means(self.held(), self@),
            bool_home(*r) == self.home(),
    {
        proof {
            use_type_invariant(self);
        }
        &self.handle
    }

    /// The negation.
    pub fn not(&self) -> (r: Cond<'ctx>)
        ensures
            r@ == Formula::not(self@),
            r.home() == self.home(),
            self.as_made() ==> r.as_made(),
    {
        proof {
            use_type_invariant(self);
            lemma_means_not(bool_formula(self.handle), self.formula@);
        }
        Cond {
            ctx: self.ctx,
            handle: self.handle.not(),
            formula: Ghost(Formula::not(self.formula@)),
        }
    }
}

impl<'ctx> Clone for Cond<'ctx> {
    fn clone(&self) -> (r: Self)
        ensures
            r@ == self@,
            r.home() == self.home(),
            r.held() == self.held(),
    {
        proof {
            use_type_invariant(self);
        }
        Cond {
            ctx: self.ctx,
            handle: crate::smt::bool_clone(&self.handle),
            formula: Ghost(self.formula@),
        }
    }
}

impl<'ctx> BitVec<'ctx> {
    #[verifier::type_invariant]
    spec fn inv(self) -> bool {
        &&& bv_home(self.handle) == context_id(*self.ctx)
        &&& 0 < self.term@.width() <= u32::MAX
        &&& stands_for(bv_term(self.handle), self.term@)
        &&& self.literal == (self.term@ is Const)
        &&& self.literal ==> bv_term(self.handle) == self.term@
    }

    /// The term as it was made.
    pub closed spec fn view(&self) -> Term {
        self.term@
    }

    /// The context that this vector belongs to.
    pub closed spec fn home(&self) -> int {
        context_id(*self.ctx)
    }

    /// The term that the solver holds for this vector.
    pub closed spec fn held(&self) -> Term {
        bv_term(self.handle)
    }

    /// Whether the solver holds the term as it was made. So it is for
    /// unknowns and numerals, and for what operations make of such terms;
    /// what was simplified may be held as another term of the same value.
    pub open spec fn as_made(&self) -> bool {
        self.held() == self@
    }

    /// The number of bits.
    pub open spec fn width(&self) -> nat {
        self@.width()
    }

    /// The value under an interpretation, least significant bit first.
    pub open spec fn eval(&self, i: Interp) -> Seq<bool> {
        self@.eval(i)
    }

    /// The unsigned number under an interpretation.
    pub open spec fn number(&self, i: Interp) -> nat {
        to_nat(self@.eval(i))
    }

    /// Whether `other` can meet `self` in a binary operation.
    pub open spec fn alike(&self, other: &BitVec<'ctx>) -> bool {
        self.home() == other.home() && self.width() == other.width()
    }

    /// A vector for a term that the solver holds, which stands for `term`.
    pub(crate) fn from_handle(
        ctx: &'ctx z3::Context,
        handle: z3::ast::BV<'ctx>,
        Ghost(term): Ghost<Term>,
    ) -> (r: BitVec<'ctx>)
        requires
            bv_home(handle) == context_id(*ctx),
            0 < term.width() <= u32::MAX,
            stands_for(bv_term(handle), term),
            !(term is Const),
        ensures
            r@ == term,
            r.held() == bv_term(handle),
            r.home() == context_id(*ctx),
    {
        BitVec { ctx, handle, term: Ghost(term), literal: false }
    }

    /// The term that the solver holds: for a numeral the numeral itself.
    pub(crate) fn handle(&self) -> (r: &z3::ast::BV<'ctx>)
        ensures
            bv_term(*r) == self.held(),
            stands_for(self.held(), self@),
            self@ is Const ==> self.held() == self@,
            bv_home(*r) == self.home(),
            0 < self.width() <= u32::MAX,
    {
        proof {
            use_type_invariant(self);
        }
        &self.handle
    }

    pub(crate) fn context(&self) -> (r: &'ctx z3::Context)
        ensures
            context_id(*r) == self.home(),
    {
        self.ctx
    }

    /// A new unknown called `name`, of `width` bits.
    pub fn new(ctx: &'ctx z3::Context, name: &str, width: u32) -> (r: BitVec<'ctx>)
        requires
            width > 0,
            !name@.contains('\0'),
        ensures
            r@ == (Term::Var { name: name@, width: width as nat }),
            r.home() == context_id(*ctx),
            r.width() == width,
            r.as_made(),
    {
        BitVec {
            ctx,
            handle: bv_new_const(ctx, name, width),
            term: Ghost(Term::Var { name: name@, width: width as nat }),
            literal: false,
        }
    }

    /// The constant `u`, reduced to `width` bits.
    pub fn from_u64(ctx: &'ctx z3::Context, u: u64, width: u32) -> (r: BitVec<'ctx>)
        requires
            width > 0,
        ensures
            r@ == (Term::Const { value: (u as nat) % pow2(width as nat), width: width as nat }),
            r.home() == context_id(*ctx),
            r.width() == width,
            r.as_made(),
    {
        BitVec {
            ctx,
            handle: z3::ast::BV::from_u64(ctx, u, width),
            term: Ghost(
                Term::Const { value: (u as nat) % pow2(width as nat), width: width as nat },
            ),
            literal: true,
        }
    }

    /// The constant `i` in two's complement, reduced to `width` bits.
    pub fn from_i64(ctx: &'ctx z3::Context, i: i64, width: u32) -> (r: BitVec<'ctx>)
        requires
            width > 0,
        ensures
            r@ == (Term::Const {
                value: ((i as int) % (pow2(width as nat) as int)) as nat,
                width: width as nat,
            }),
            r.home() == context_id(*ctx),
            r.width() == width,
            r.as_made(),
    {
        BitVec {
            ctx,
            handle: z3::ast::BV::from_i64(ctx, i, width),
            term: Ghost(
                Term::Const {
                    value: ((i as int) % (pow2(width as nat) as int)) as nat,
                    width: width as nat,
                },
            ),
            literal: true,
        }
    }

    /// The constant `u`, reduced to `width` bits.
    pub fn from_u32(ctx: &'ctx z3::Context, u: u32, width: u32) -> (r: BitVec<'ctx>)
        requires
            width > 0,
        ensures
            r@ == (Term::Const { value: (u as nat) % pow2(width as nat), width: width as nat }),
            r.home() == context_id(*ctx),
            r.width() == width,
            r.as_made(),
    {
        BitVec::from_u64(ctx, u as u64, width)
    }

    /// The constant `i` in two's complement, reduced to `width` bits.
    pub fn from_i32(ctx: &'ctx z3::Context, i: i32, width: u32) -> (r: BitVec<'ctx>)
        requires
            width > 0,
        ensures
            r@ == (Term::Const {
                value: ((i as int) % (pow2(width as nat) as int)) as nat,
                width: width as nat,
            }),
            r.home() == context_id(*ctx),
            r.width() == width,
            r.as_made(),
    {
        BitVec::from_i64(ctx, i as i64, width)
    }

    /// The bit `1` for `true`, the bit `0` for `false`, as a vector of width one.
    pub fn from_bool(ctx: &'ctx z3::Context, b: bool) -> (r: BitVec<'ctx>)
        ensures
            r@ == if b {
                bit_true()
            } else {
                bit_false()
            },
            r.home() == context_id(*ctx),
            r.width() == 1,
            r.as_made(),
    {
        proof {
            vstd::arithmetic::power2::lemma2_to64();
        }
        if b {
            BitVec::from_u64(ctx, 1, 1)
        } else {
            BitVec::from_u64(ctx, 0, 1)
        }
    }

    /// The constant zero of `width` bits.
    pub fn zero(ctx: &'ctx z3::Context, width: u32) -> (r: BitVec<'ctx>)
        requires
            width > 0,
        ensures
            r@ == (Term::Const { value: 0, width: width as nat }),
            r.home() == context_id(*ctx),
            r.width() == width,
            r.as_made(),
    {
        proof {
            vstd::arithmetic::power2::lemma_pow2_pos(width as nat);
            vstd::arithmetic::div_mod::lemma_small_mod(0, pow2(width as nat));
        }
        BitVec::from_u64(ctx, 0, width)
    }

    /// The constant one of `width` bits.
    pub fn one(ctx: &'ctx z3::Context, width: u32) -> (r: BitVec<'ctx>)
        requires
            width > 0,
        ensures
            r@ == (Term::Const { value: 1, width: width as nat }),
            r.home() == context_id(*ctx),
            r.width() == width,
            r.as_made(),
    {
        proof {
            vstd::arithmetic::power2::lemma_pow2_strictly_increases(0, width as nat);
            vstd::arithmetic::power2::lemma2_to64();
            vstd::arithmetic::div_mod::lemma_small_mod(1, pow2(width as nat));
        }
        BitVec::from_u64(ctx, 1, width)
    }

    /// The vector of `width` bits that are all one.
    pub fn ones(ctx: &'ctx z3::Context, width: u32) -> (r: BitVec<'ctx>)
        requires
            width > 0,
        ensures
            r@ == Term::not(Term::Const { value: 0, width: width as nat }),
            r.home() == context_id(*ctx),
            r.width() == width,
            r.as_made(),
    {
        BitVec::zero(ctx, width).not()
    }

    /// Whether the solver holds one term for the two. Two vectors that
    /// are held as they were made are held as one term exactly where they
    /// are the same term, as it is written: a sum and the sum of the same
    /// two terms the other way round differ. Whatever they are held as,
    /// two that are held as one term have the same width and the same
    /// value under every interpretation that divides by zero as the solver
    /// does.
    pub fn is_same(&self, other: &BitVec<'ctx>) -> (r: bool)
        requires
            self.home() == other.home(),
        ensures
            r == (self.held() == other.held()),
            self.as_made() && other.as_made() ==> r == (self@ == other@),
            r ==> self.width() == other.width(),
            r ==> forall|i: Interp| solver_divides(i) ==> #[trigger] self.eval(i) == other.eval(i),
    {
        proof {
            use_type_invariant(self);
            use_type_invariant(other);
        }
        let r = crate::smt::bv_same(&self.handle, &other.handle);
        proof {
            if r {
                assert forall|i: Interp| solver_divides(i) implies #[trigger] self.eval(i) == other.eval(i) by {
                    assert(self.held().eval(i) == self@.eval(i));
                    assert(other.held().eval(i) == other@.eval(i));
                }
            }
        }
        r
    }

    /// The number of bits.
    pub fn get_width(&self) -> (r: u32)
        ensures
            r == self.width(),
            r > 0,
    {
        proof {
            use_type_invariant(self);
        }
        self.handle.get_size()
    }

    /// The value, where the term is a numeral that fits 64 bits. Only a
    /// term that was made as a numeral is one: the solver is not asked to
    /// work one out.
    pub fn as_u64(&self) -> (r: Option<u64>)
        ensures
            r == numeral_of(self@),
    {
        proof {
            use_type_invariant(self);
        }
        if self.literal {
            self.handle.as_u64()
        } else {
            None
        }
    }

    /// The truth value, where the term is a numeral of width one.
    pub fn as_bool(&self) -> (r: Option<bool>)
        ensures
            r == match self@ {
                Term::Const { value, width } => if width == 1 && value <= u64::MAX {
                    Some(value != 0)
                } else {
                    None
                },
                _ => None,
            },
    {
        if self.get_width() != 1 {
            return None;
        }
        match self.as_u64() {
            Some(v) => Some(v != 0),
            None => None,
        }
    }

    /// The same term, held by the solver in a simpler form of the same
    /// value. A numeral stays as it is.
    pub fn simplify(&self) -> (r: BitVec<'ctx>)
        ensures
            r@ == self@,
            r.home() == self.home(),
            r.width() == self.width(),
            forall|i: Interp| #[trigger] r.eval(i) == self.eval(i),
    {
        proof {
            use_type_invariant(self);
        }
        if self.literal {
            self.clone()
        } else {
            BitVec {
                ctx: self.ctx,
                handle: bv_simplify(&self.handle),
                term: Ghost(self.term@),
                literal: false,
            }
        }
    }

    /// Bitwise complement.
    pub fn not(&self) -> (r: BitVec<'ctx>)
        ensures
            r@ == Term::not(self@),
            r.home() == self.home(),
            r.width() == self.width(),
            self.as_made() ==> r.as_made(),
    {
        proof {
            use_type_invariant(self);
            lemma_stands_not(bv_term(self.handle), self.term@);
        }
        BitVec {
            ctx: self.ctx,
            handle: self.handle.bvnot(),
            term: Ghost(Term::not(self.term@)),
            literal: false,
        }
    }

    /// The result of a binary operator on two vectors of one width.
    pub fn binary(&self, op: BinOp, other: &BitVec<'ctx>) -> (r: BitVec<'ctx>)
        requires
            self.alike(other),
        ensures
            r@ == Term::bin(op, self@, other@),
            r.home() == self.home(),
            r.width() == self.width(),
            self.as_made() && other.as_made() ==> r.as_made(),
    {
        proof {
            use_type_invariant(self);
            use_type_invariant(other);
        }
        let a = &self.handle;
        let b = &other.handle;
        let handle = match op {
            BinOp::Add => a.bvadd(b),
            BinOp::Sub => a.bvsub(b),
            BinOp::Mul => a.bvmul(b),
            BinOp::UDiv => a.bvudiv(b),
            BinOp::SDiv => a.bvsdiv(b),
            BinOp::URem => a.bvurem(b),
            BinOp::SRem => a.bvsrem(b),
            BinOp::And => a.bvand(b),
            BinOp::Or => a.bvor(b),
            BinOp::Xor => a.bvxor(b),
            BinOp::Shl => a.bvshl(b),
            BinOp::LShr => a.bvlshr(b),
            BinOp::AShr => a.bvashr(b),
        };
        proof {
            lemma_stands_bin(op, bv_term(*a), self.term@, bv_term(*b), other.term@);
        }
        BitVec {
            ctx: self.ctx,
            handle,
            term: Ghost(Term::bin(op, self.term@, other.term@)),
            literal: false,
        }
    }

    /// The formula that compares two vectors of one width.
    pub fn relate(&self, rel: Relation, other: &BitVec<'ctx>) -> (r: Cond<'ctx>)
        requires
            self.alike(other),
        ensures
            r@ == Formula::rel(rel, self@, other@),
            r.home() == self.home(),
            self.as_made() && other.as_made() ==> r.as_made(),
    {
        proof {
            use_type_invariant(self);
            use_type_invariant(other);
        }
        let a = &self.handle;
        let b = &other.handle;
        let handle = match rel {
            Relation::Eq => bv_eq(a, b),
            Relation::Ult => a.bvult(b),
            Relation::Ule => a.bvule(b),
            Relation::Ugt => a.bvugt(b),
            Relation::Uge => a.bvuge(b),
            Relation::Slt => a.bvslt(b),
            Relation::Sle => a.bvsle(b),
            Relation::Sgt => a.bvsgt(b),
            Relation::Sge => a.bvsge(b),
        };
        proof {
            lemma_means_rel(rel, bv_term(*a), self.term@, bv_term(*b), other.term@);
        }
        Cond {
            ctx: self.ctx,
            handle,
            formula: Ghost(Formula::rel(rel, self.term@, other.term@)),
        }
    }

    /// The vector of width one that holds the bit `1` exactly where the
    /// formula is true.
    pub fn from_cond(c: &Cond<'ctx>) -> (r: BitVec<'ctx>)
        ensures
            r@ == as_bit(c@),
            r.home() == c.home(),
            r.width() == 1,
            c.as_made() ==> r.as_made(),
    {
        proof {
            use_type_invariant(c);
        }
        let one = BitVec::from_bool(c.ctx, true);
        let zero = BitVec::from_bool(c.ctx, false);
        proof {
            use_type_invariant(&one);
            use_type_invariant(&zero);
            lemma_stands_ite(bool_formula(c.handle), c.formula@, bit_true(), bit_false());
        }
        BitVec {
            ctx: c.ctx,
            handle: bool_ite(&c.handle, &one.handle, &zero.handle),
            term: Ghost(as_bit(c.formula@)),
            literal: false,
        }
    }

    /// The formula that this vector, of width one, holds the bit `1`.
    pub fn holds(&self) -> (r: Cond<'ctx>)
        requires
            self.width() == 1,
        ensures
            r@ == crate::term::holds(self@),
            r.home() == self.home(),
            self.as_made() ==> r.as_made(),
    {
        let one = BitVec::from_bool(self.ctx, true);
        proof {
            use_type_invariant(self);
        }
        self.relate(Relation::Eq, &one)
    }

    /// The comparison as a vector of width one.
    pub fn compare(&self, rel: Relation, other: &BitVec<'ctx>) -> (r: BitVec<'ctx>)
        requires
            self.alike(other),
        ensures
            r@ == as_bit(Formula::rel(rel, self@, other@)),
            r.home() == self.home(),
            r.width() == 1,
            self.as_made() && other.as_made() ==> r.as_made(),
    {
        let c = self.relate(rel, other);
        BitVec::from_cond(&c)
    }

    /// Bits `low` to `high`, both included.
    pub fn slice(&self, high: u32, low: u32) -> (r: BitVec<'ctx>)
        requires
            low <= high < self.width(),
        ensures
            r@ == Term::extract(high as nat, low as nat, self@),
            r.home() == self.home(),
            r.width() == high - low + 1,
            self.as_made() ==> r.as_made(),
    {
        proof {
            use_type_invariant(self);
            lemma_stands_extract(high as nat, low as nat, bv_term(self.handle), self.term@);
        }
        BitVec {
            ctx: self.ctx,
            handle: self.handle.extract(high, low),
            term: Ghost(Term::extract(high as nat, low as nat, self.term@)),
            literal: false,
        }
    }

    /// `self` above `low`.
    pub fn concat(&self, low: &BitVec<'ctx>) -> (r: BitVec<'ctx>)
        requires
            self.home() == low.home(),
            self.width() + low.width() <= u32::MAX,
        ensures
            r@ == Term::concat(self@, low@),
            r.home() == self.home(),
            r.width() == self.width() + low.width(),
            self.as_made() && low.as_made() ==> r.as_made(),
    {
        proof {
            use_type_invariant(self);
            use_type_invariant(low);
            lemma_stands_concat(bv_term(self.handle), self.term@, bv_term(low.handle), low.term@);
        }
        BitVec {
            ctx: self.ctx,
            handle: self.handle.concat(&low.handle),
            term: Ghost(Term::concat(self.term@, low.term@)),
            literal: false,
        }
    }

    /// `self` with `extra` zero bits above it.
    pub fn zext(&self, extra: u32) -> (r: BitVec<'ctx>)
        requires
            self.width() + extra <= u32::MAX,
        ensures
            r@ == Term::zero_ext(extra as nat, self@),
            r.home() == self.home(),
            r.width() == self.width() + extra,
            self.as_made() ==> r.as_made(),
    {
        proof {
            use_type_invariant(self);
            lemma_stands_zero_ext(extra as nat, bv_term(self.handle), self.term@);
        }
        BitVec {
            ctx: self.ctx,
            handle: self.handle.zero_ext(extra),
            term: Ghost(Term::zero_ext(extra as nat, self.term@)),
            literal: false,
        }
    }

    /// `self` with `extra` copies of its top bit above it.
    pub fn sext(&self, extra: u32) -> (r: BitVec<'ctx>)
        requires
            self.width() + extra <= u32::MAX,
        ensures
            r@ == Term::sign_ext(extra as nat, self@),
            r.home() == self.home(),
            r.width() == self.width() + extra,
            self.as_made() ==> r.as_made(),
    {
        proof {
            use_type_invariant(self);
            lemma_stands_sign_ext(extra as nat, bv_term(self.handle), self.term@);
        }
        BitVec {
            ctx: self.ctx,
            handle: self.handle.sign_ext(extra),
            term: Ghost(Term::sign_ext(extra as nat, self.term@)),
            literal: false,
        }
    }

    /// The sum, modulo two to the width.
    pub fn add(&self, other: &BitVec<'ctx>) -> (r: BitVec<'ctx>)
        requires
            self.alike(other),
        ensures
            self.as_made() && other.as_made() ==> r.as_made(),
            r@ == Term::bin(BinOp::Add, self@, other@),
            r.home() == self.home(),
            r.width() == self.width(),
    {
        self.binary(BinOp::Add, other)
    }

    /// The difference, modulo two to the width.
    pub fn sub(&self, other: &BitVec<'ctx>) -> (r: BitVec<'ctx>)
        requires
            self.alike(other),
        ensures
            self.as_made() && other.as_made() ==> r.as_made(),
            r@ == Term::bin(BinOp::Sub, self@, other@),
            r.home() == self.home(),
            r.width() == self.width(),
    {
        self.binary(BinOp::Sub, other)
    }

    /// The product, modulo two to the width.
    pub fn mul(&self, other: &BitVec<'ctx>) -> (r: BitVec<'ctx>)
        requires
            self.alike(other),
        ensures
            self.as_made() && other.as_made() ==> r.as_made(),
            r@ == Term::bin(BinOp::Mul, self@, other@),
            r.home() == self.home(),
            r.width() == self.width(),
    {
        self.binary(BinOp::Mul, other)
    }

    /// The bitwise and.
    pub fn and(&self, other: &BitVec<'ctx>) -> (r: BitVec<'ctx>)
        requires
            self.alike(other),
        ensures
            self.as_made() && other.as_made() ==> r.as_made(),
            r@ == Term::bin(BinOp::And, self@, other@),
            r.home() == self.home(),
            r.width() == self.width(),
    {
        self.binary(BinOp::And, other)
    }

    /// The bitwise or.
    pub fn or(&self, other: &BitVec<'ctx>) -> (r: BitVec<'ctx>)
        requires
            self.alike(other),
        ensures
            self.as_made() && other.as_made() ==> r.as_made(),
            r@ == Term::bin(BinOp::Or, self@, other@),
            r.home() == self.home(),
            r.width() == self.width(),
    {
        self.binary(BinOp::Or, other)
    }

    /// Bitwise exclusive or.
    pub fn xor(&self, other: &BitVec<'ctx>) -> (r: BitVec<'ctx>)
        requires
            self.alike(other),
        ensures
            self.as_made() && other.as_made() ==> r.as_made(),
            r@ == Term::bin(BinOp::Xor, self@, other@),
            r.home() == self.home(),
            r.width() == self.width(),
    {
        self.binary(BinOp::Xor, other)
    }

    /// Unsigned division.
    pub fn udiv(&self, other: &BitVec<'ctx>) -> (r: BitVec<'ctx>)
        requires
            self.alike(other),
        ensures
            self.as_made() && other.as_made() ==> r.as_made(),
            r@ == Term::bin(BinOp::UDiv, self@, other@),
            r.home() == self.home(),
            r.width() == self.width(),
    {
        self.binary(BinOp::UDiv, other)
    }

    /// Signed division, towards zero.
    pub fn sdiv(&self, other: &BitVec<'ctx>) -> (r: BitVec<'ctx>)
        requires
            self.alike(other),
        ensures
            self.as_made() && other.as_made() ==> r.as_made(),
            r@ == Term::bin(BinOp::SDiv, self@, other@),
            r.home() == self.home(),
            r.width() == self.width(),
    {
        self.binary(BinOp::SDiv, other)
    }

    /// Unsigned remainder.
    pub fn urem(&self, other: &BitVec<'ctx>) -> (r: BitVec<'ctx>)
        requires
            self.alike(other),
        ensures
            self.as_made() && other.as_made() ==> r.as_made(),
            r@ == Term::bin(BinOp::URem, self@, other@),
            r.home() == self.home(),
            r.width() == self.width(),
    {
        self.binary(BinOp::URem, other)
    }

    /// Signed remainder, with the sign of the dividend.
    pub fn srem(&self, other: &BitVec<'ctx>) -> (r: BitVec<'ctx>)
        requires
            self.alike(other),
        ensures
            self.as_made() && other.as_made() ==> r.as_made(),
            r@ == Term::bin(BinOp::SRem, self@, other@),
            r.home() == self.home(),
            r.width() == self.width(),
    {
        self.binary(BinOp::SRem, other)
    }

    /// Shift right, with copies of the top bit coming in, by the number that
    /// `other` stands for.
    pub fn sra(&self, other: &BitVec<'ctx>) -> (r: BitVec<'ctx>)
        requires
            self.alike(other),
        ensures
            self.as_made() && other.as_made() ==> r.as_made(),
            r@ == Term::bin(BinOp::AShr, self@, other@),
            r.home() == self.home(),
            r.width() == self.width(),
    {
        self.binary(BinOp::AShr, other)
    }

    /// Shift left by the number that `other` stands for.
    pub fn sll(&self, other: &BitVec<'ctx>) -> (r: BitVec<'ctx>)
        requires
            self.alike(other),
        ensures
            self.as_made() && other.as_made() ==> r.as_made(),
            r@ == Term::bin(BinOp::Shl, self@, other@),
            r.home() == self.home(),
            r.width() == self.width(),
    {
        self.binary(BinOp::Shl, other)
    }

    /// Shift right, with zero bits coming in, by the number that `other` stands for.
    pub fn srl(&self, other: &BitVec<'ctx>) -> (r: BitVec<'ctx>)
        requires
            self.alike(other),
        ensures
            self.as_made() && other.as_made() ==> r.as_made(),
            r@ == Term::bin(BinOp::LShr, self@, other@),
            r.home() == self.home(),
            r.width() == self.width(),
    {
        self.binary(BinOp::LShr, other)
    }

    /// The vector of width one that says whether the two are equal.
    pub fn _eq(&self, other: &BitVec<'ctx>) -> (r: BitVec<'ctx>)
        requires
            self.alike(other),
        ensures
            self.as_made() && other.as_made() ==> r.as_made(),
            r@ == as_bit(Formula::rel(Relation::Eq, self@, other@)),
            r.home() == self.home(),
            r.width() == 1,
    {
        self.compare(Relation::Eq, other)
    }

    /// The vector of width one that says whether the two differ.
    pub fn _ne(&self, other: &BitVec<'ctx>) -> (r: BitVec<'ctx>)
        requires
            self.alike(other),
        ensures
            self.as_made() && other.as_made() ==> r.as_made(),
            r@ == as_bit(Formula::not(Formula::rel(Relation::Eq, self@, other@))),
            r.home() == self.home(),
            r.width() == 1,
    {
        let c = self.relate(Relation::Eq, other).not();
        BitVec::from_cond(&c)
    }

    /// One bit: whether `self` is less than `other`, both unsigned.
    pub fn ult(&self, other: &BitVec<'ctx>) -> (r: BitVec<'ctx>)
        requires
            self.alike(other),
        ensures
            self.as_made() && other.as_made() ==> r.as_made(),
            r@ == as_bit(Formula::rel(Relation::Ult, self@, other@)),
            r.home() == self.home(),
            r.width() == 1,
    {
        self.compare(Relation::Ult, other)
    }

    /// One bit: whether `self` is at most `other`, both unsigned.
    pub fn ulte(&self, other: &BitVec<'ctx>) -> (r: BitVec<'ctx>)
        requires
            self.alike(other),
        ensures
            self.as_made() && other.as_made() ==> r.as_made(),
            r@ == as_bit(Formula::rel(Relation::Ule, self@, other@)),
            r.home() == self.home(),
            r.width() == 1,
    {
        self.compare(Relation::Ule, other)
    }

    /// One bit: whether `self` is greater than `other`, both unsigned.
    pub fn ugt(&self, other: &BitVec<'ctx>) -> (r: BitVec<'ctx>)
        requires
            self.alike(other),
        ensures
            self.as_made() && other.as_made() ==> r.as_made(),
            r@ == as_bit(Formula::rel(Relation::Ugt, self@, other@)),
            r.home() == self.home(),
            r.width() == 1,
    {
        self.compare(Relation::Ugt, other)
    }

    /// One bit: whether `self` is at least `other`, both unsigned.
    pub fn ugte(&self, other: &BitVec<'ctx>) -> (r: BitVec<'ctx>)
        requires
            self.alike(other),
        ensures
            self.as_made() && other.as_made() ==> r.as_made(),
            r@ == as_bit(Formula::rel(Relation::Uge, self@, other@)),
            r.home() == self.home(),
            r.width() == 1,
    {
        self.compare(Relation::Uge, other)
    }

    /// One bit: whether `self` is less than `other`, both signed.
    pub fn slt(&self, other: &BitVec<'ctx>) -> (r: BitVec<'ctx>)
        requires
            self.alike(other),
        ensures
            self.as_made() && other.as_made() ==> r.as_made(),
            r@ == as_bit(Formula::rel(Relation::Slt, self@, other@)),
            r.home() == self.home(),
            r.width() == 1,
    {
        self.compare(Relation::Slt, other)
    }

    /// One bit: whether `self` is at most `other`, both signed.
    pub fn slte(&self, other: &BitVec<'ctx>) -> (r: BitVec<'ctx>)
        requires
            self.alike(other),
        ensures
            self.as_made() && other.as_made() ==> r.as_made(),
            r@ == as_bit(Formula::rel(Relation::Sle, self@, other@)),
            r.home() == self.home(),
            r.width() == 1,
    {
        self.compare(Relation::Sle, other)
    }

    /// One bit: whether `self` is greater than `other`, both signed.
    pub fn sgt(&self, other: &BitVec<'ctx>) -> (r: BitVec<'ctx>)
        requires
            self.alike(other),
        ensures
            self.as_made() && other.as_made() ==> r.as_made(),
            r@ == as_bit(Formula::rel(Relation::Sgt, self@, other@)),
            r.home() == self.home(),
            r.width() == 1,
    {
        self.compare(Relation::Sgt, other)
    }

    /// One bit: whether `self` is at least `other`, both signed.
    pub fn sgte(&self, other: &BitVec<'ctx>) -> (r: BitVec<'ctx>)
        requires
            self.alike(other),
        ensures
            self.as_made() && other.as_made() ==> r.as_made(),
            r@ == as_bit(Formula::rel(Relation::Sge, self@, other@)),
            r.home() == self.home(),
            r.width() == 1,
    {
        self.compare(Relation::Sge, other)
    }
}

impl<'ctx> Clone for BitVec<'ctx> {
    /// Another vector for the same term, held as the same term.
    fn clone(&self) -> (r: Self)
        ensures
            r@ == self@,
            r.held() == self.held(),
            r.home() == self.home(),
            r.width() == self.width(),
    {
        proof {
            use_type_invariant(self);
        }
        BitVec {
            ctx: self.ctx,
            handle: bv_clone(&self.handle),
            term: Ghost(self.term@),
            literal: self.literal,
        }
    }
}

/// `bv` with zero bits above it up to `bits` bits; `bv` itself where it is
/// already that wide.
pub fn zero_extend_to_bits<'ctx>(bv: BitVec<'ctx>, bits: u32) -> (r: BitVec<'ctx>)
    requires
        bv.width() <= bits,
    ensures
        r.home() == bv.home(),
        r.width() == bits,
        bv.as_made() ==> r.as_made(),
        r@ == if bv.width() == bits {
            bv@
        } else {
            Term::zero_ext((bits - bv.width()) as nat, bv@)
        },
{
    let w = bv.get_width();
    if w == bits {
        bv
    } else {
        bv.zext(bits - w)
    }
}

/// `bv` with copies of its top bit above it up to `bits` bits; `bv` itself
/// where it is already that wide.
pub fn sign_extend_to_bits<'ctx>(bv: BitVec<'ctx>, bits: u32) -> (r: BitVec<'ctx>)
    requires
        bv.width() <= bits,
    ensures
        r.home() == bv.home(),
        r.width() == bits,
        bv.as_made() ==> r.as_made(),
        r@ == if bv.width() == bits {
            bv@
        } else {
            Term::sign_ext((bits - bv.width()) as nat, bv@)
        },
{
    let w = bv.get_width();
    if w == bits {
        bv
    } else {
        bv.sext(bits - w)
    }
}

} // verus!
