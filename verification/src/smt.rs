//! The solver's side of the library: the handles of the `z3` crate and what
//! is taken on trust about them.
//!
//! A handle stands for a term of [`crate::term`]; every operation below says
//! which term its result stands for. What a term means is defined in
//! [`crate::term`] and is not part of what is trusted here, except where the
//! solver itself decides: in `simplify`, in `check` and in a model. The
//! value of a division by zero is left to the interpretation, and the
//! solver speaks only of interpretations that divide by zero as it does.
//! All handles that meet in one call must come from one context: the
//! context of a handle is its home.

use crate::term::{numeral_of, ArrayTerm, BinOp, Formula, Interp, Relation, Term};
use vstd::arithmetic::power2::pow2;
use vstd::prelude::*;

verus! {

/// `z3::Context`: the store in which the solver keeps its terms. Nothing is
/// seen inside it.
#[verifier::external_type_specification]
#[verifier::external_body]
pub struct ExContext(z3::Context);

/// `z3::ast::BV`: a handle on a bit-vector term of a context.
#[verifier::external_type_specification]
#[verifier::external_body]
pub struct ExBV<'ctx>(z3::ast::BV<'ctx>);

/// `z3::ast::Bool`: a handle on a formula of a context.
#[verifier::external_type_specification]
#[verifier::external_body]
pub struct ExBool<'ctx>(z3::ast::Bool<'ctx>);

/// `z3::ast::Array`: a handle on an array term of a context.
#[verifier::external_type_specification]
#[verifier::external_body]
pub struct ExArray<'ctx>(z3::ast::Array<'ctx>);

/// `z3::Solver`: a stack of asserted formulas with a satisfiability check.
#[verifier::external_type_specification]
#[verifier::external_body]
pub struct ExSolver<'ctx>(z3::Solver<'ctx>);

/// `z3::Model`: what a solver found to satisfy its formulas.
#[verifier::external_type_specification]
#[verifier::external_body]
pub struct ExModel<'ctx>(z3::Model<'ctx>);

/// Which context this is.
pub uninterp spec fn context_id(c: z3::Context) -> int;

/// Whether the context was made with the construction of models enabled.
pub uninterp spec fn context_makes_models(c: z3::Context) -> bool;

/// `z3::Config::new`, `Config::set_model_generation` and
/// `z3::Context::new`: a new context whose configuration has the
/// construction of models enabled.
#[verifier::external_body]
pub(crate) fn context_with_models() -> (r: z3::Context)
    ensures
        context_makes_models(r),
{
    let mut config = z3::Config::new();
    config.set_model_generation(true);
    z3::Context::new(&config)
}

/// The term that a bit-vector handle stands for.
pub uninterp spec fn bv_term(t: z3::ast::BV<'_>) -> Term;

/// The context that a bit-vector handle belongs to.
pub uninterp spec fn bv_home(t: z3::ast::BV<'_>) -> int;

/// The formula that a boolean handle stands for.
pub uninterp spec fn bool_formula(b: z3::ast::Bool<'_>) -> Formula;

/// The context that a boolean handle belongs to.
pub uninterp spec fn bool_home(b: z3::ast::Bool<'_>) -> int;

/// The array term that an array handle stands for.
pub uninterp spec fn array_term(a: z3::ast::Array<'_>) -> ArrayTerm;

/// The context that an array handle belongs to.
pub uninterp spec fn array_home(a: z3::ast::Array<'_>) -> int;

/// The formulas asserted in a solver: one sequence for each level of its
/// stack, the base level first.
pub uninterp spec fn solver_frames(s: z3::Solver<'_>) -> Seq<Seq<Formula>>;

/// The context that a solver belongs to.
pub uninterp spec fn solver_home(s: z3::Solver<'_>) -> int;

/// Whether the solver has a model to give: its last check found its
/// formulas satisfiable, its context makes models, and nothing was
/// asserted, pushed or popped since.
pub uninterp spec fn solver_has_model(s: z3::Solver<'_>) -> bool;

/// The interpretation that a model gives: a value for every unknown, and
/// for every division by zero.
pub uninterp spec fn model_interp(m: z3::Model<'_>) -> Interp;

/// The context that a model belongs to.
pub uninterp spec fn model_home(m: z3::Model<'_>) -> int;

/// Two handles that may meet in a binary operation: of one context and one width.
pub open spec fn alike(a: z3::ast::BV<'_>, b: z3::ast::BV<'_>) -> bool {
    bv_home(a) == bv_home(b) && bv_term(a).width() == bv_term(b).width()
}

/// Every formula of `fs` holds under `i`.
pub open spec fn all_hold(fs: Seq<Formula>, i: Interp) -> bool {
    forall|k: int| 0 <= k < fs.len() ==> (#[trigger] fs[k]).eval(i)
}

/// Whether the interpretation gives every division and remainder by zero
/// the value that the solver gives it. Which value that is, the solver's
/// documentation leaves open. A solver may also leave it to each model:
/// then every interpretation divides as the solver does.
pub uninterp spec fn solver_divides(i: Interp) -> bool;

/// Every formula of every level holds under `i`, which divides by zero as
/// the solver does.
pub open spec fn satisfies(frames: Seq<Seq<Formula>>, i: Interp) -> bool {
    &&& solver_divides(i)
    &&& forall|l: int| 0 <= l < frames.len() ==> all_hold(#[trigger] frames[l], i)
}

/// What a satisfiability check found.
#[derive(Clone, Copy, PartialEq, Eq, Structural, Debug)]
pub enum Verdict {
    Sat,
    Unsat,
    /// The solver gave up: it was interrupted, ran out of time or failed.
    Unknown,
}

// ---------------------------------------------------------------------------
// Bit vectors
// ---------------------------------------------------------------------------

/// `z3::ast::BV::new_const`: the unknown of that name and width. The name
/// goes through a C string, so it holds no NUL.
#[verifier::external_body]
pub(crate) fn bv_new_const<'ctx>(ctx: &'ctx z3::Context, name: &str, sz: u32) -> (r: z3::ast::BV<'ctx>)
    requires
        sz > 0,
        !name@.contains('\0'),
    ensures
        bv_home(r) == context_id(*ctx),
        bv_term(r) == (Term::Var { name: name@, width: sz as nat }),
{
    z3::ast::BV::new_const(ctx, name, sz)
}

/// `from_u64` makes the numeral `u`, reduced to `sz` bits.
pub assume_specification<'ctx>[ z3::ast::BV::<'ctx>::from_u64 ](
    ctx: &'ctx z3::Context,
    u: u64,
    sz: u32,
) -> (r: z3::ast::BV<'ctx>)
    requires
        sz > 0,
    ensures
        bv_home(r) == context_id(*ctx),
        bv_term(r) == (Term::Const { value: (u as nat) % pow2(sz as nat), width: sz as nat }),
;

/// `from_i64` makes the numeral `i` in two's complement, reduced to `sz` bits.
pub assume_specification<'ctx>[ z3::ast::BV::<'ctx>::from_i64 ](
    ctx: &'ctx z3::Context,
    i: i64,
    sz: u32,
) -> (r: z3::ast::BV<'ctx>)
    requires
        sz > 0,
    ensures
        bv_home(r) == context_id(*ctx),
        bv_term(r) == (Term::Const {
            value: ((i as int) % (pow2(sz as nat) as int)) as nat,
            width: sz as nat,
        }),
;

/// `as_u64` on a numeral gives its value where that fits 64 bits, and
/// nothing where it does not. It is asked of numerals only.
pub assume_specification<'ctx>[ z3::ast::BV::<'ctx>::as_u64 ](t: &z3::ast::BV<'ctx>) -> (r: Option<
    u64,
>)
    requires
        bv_term(*t) is Const,
    ensures
        r == numeral_of(bv_term(*t)),
;

/// `get_size` gives the width in bits.
pub assume_specification<'ctx>[ z3::ast::BV::<'ctx>::get_size ](t: &z3::ast::BV<'ctx>) -> (r: u32)
    ensures
        r == bv_term(*t).width(),
;

/// `bvnot` is the bitwise complement.
pub assume_specification<'ctx>[ z3::ast::BV::<'ctx>::bvnot ](a: &z3::ast::BV<'ctx>) -> (r:
    z3::ast::BV<'ctx>)
    ensures
        bv_home(r) == bv_home(*a),
        bv_term(r) == Term::not(bv_term(*a)),
;

/// `bvand` is the bitwise and of two vectors of one width.
pub assume_specification<'ctx>[ z3::ast::BV::<'ctx>::bvand ](
    a: &z3::ast::BV<'ctx>,
    b: &z3::ast::BV<'ctx>,
) -> (r: z3::ast::BV<'ctx>)
    requires
        alike(*a, *b),
    ensures
        bv_home(r) == bv_home(*a),
        bv_term(r) == Term::bin(BinOp::And, bv_term(*a), bv_term(*b)),
;

/// `bvor` is the bitwise or of two vectors of one width.
pub assume_specification<'ctx>[ z3::ast::BV::<'ctx>::bvor ](
    a: &z3::ast::BV<'ctx>,
    b: &z3::ast::BV<'ctx>,
) -> (r: z3::ast::BV<'ctx>)
    requires
        alike(*a, *b),
    ensures
        bv_home(r) == bv_home(*a),
        bv_term(r) == Term::bin(BinOp::Or, bv_term(*a), bv_term(*b)),
;

/// `bvxor` is the bitwise exclusive or of two vectors of one width.
pub assume_specification<'ctx>[ z3::ast::BV::<'ctx>::bvxor ](
    a: &z3::ast::BV<'ctx>,
    b: &z3::ast::BV<'ctx>,
) -> (r: z3::ast::BV<'ctx>)
    requires
        alike(*a, *b),
    ensures
        bv_home(r) == bv_home(*a),
        bv_term(r) == Term::bin(BinOp::Xor, bv_term(*a), bv_term(*b)),
;

/// `bvadd` is the sum of two vectors of one width.
pub assume_specification<'ctx>[ z3::ast::BV::<'ctx>::bvadd ](
    a: &z3::ast::BV<'ctx>,
    b: &z3::ast::BV<'ctx>,
) -> (r: z3::ast::BV<'ctx>)
    requires
        alike(*a, *b),
    ensures
        bv_home(r) == bv_home(*a),
        bv_term(r) == Term::bin(BinOp::Add, bv_term(*a), bv_term(*b)),
;

/// `bvsub` is the difference of two vectors of one width.
pub assume_specification<'ctx>[ z3::ast::BV::<'ctx>::bvsub ](
    a: &z3::ast::BV<'ctx>,
    b: &z3::ast::BV<'ctx>,
) -> (r: z3::ast::BV<'ctx>)
    requires
        alike(*a, *b),
    ensures
        bv_home(r) == bv_home(*a),
        bv_term(r) == Term::bin(BinOp::Sub, bv_term(*a), bv_term(*b)),
;

/// `bvmul` is the product of two vectors of one width.
pub assume_specification<'ctx>[ z3::ast::BV::<'ctx>::bvmul ](
    a: &z3::ast::BV<'ctx>,
    b: &z3::ast::BV<'ctx>,
) -> (r: z3::ast::BV<'ctx>)
    requires
        alike(*a, *b),
    ensures
        bv_home(r) == bv_home(*a),
        bv_term(r) == Term::bin(BinOp::Mul, bv_term(*a), bv_term(*b)),
;

/// `bvudiv` is the unsigned quotient of two vectors of one width.
pub assume_specification<'ctx>[ z3::ast::BV::<'ctx>::bvudiv ](
    a: &z3::ast::BV<'ctx>,
    b: &z3::ast::BV<'ctx>,
) -> (r: z3::ast::BV<'ctx>)
    requires
        alike(*a, *b),
    ensures
        bv_home(r) == bv_home(*a),
        bv_term(r) == Term::bin(BinOp::UDiv, bv_term(*a), bv_term(*b)),
;

/// `bvsdiv` is the signed quotient of two vectors of one width.
pub assume_specification<'ctx>[ z3::ast::BV::<'ctx>::bvsdiv ](
    a: &z3::ast::BV<'ctx>,
    b: &z3::ast::BV<'ctx>,
) -> (r: z3::ast::BV<'ctx>)
    requires
        alike(*a, *b),
    ensures
        bv_home(r) == bv_home(*a),
        bv_term(r) == Term::bin(BinOp::SDiv, bv_term(*a), bv_term(*b)),
;

/// `bvurem` is the unsigned remainder of two vectors of one width.
pub assume_specification<'ctx>[ z3::ast::BV::<'ctx>::bvurem ](
    a: &z3::ast::BV<'ctx>,
    b: &z3::ast::BV<'ctx>,
) -> (r: z3::ast::BV<'ctx>)
    requires
        alike(*a, *b),
    ensures
        bv_home(r) == bv_home(*a),
        bv_term(r) == Term::bin(BinOp::URem, bv_term(*a), bv_term(*b)),
;

/// `bvsrem` is the signed remainder whose sign follows the dividend.
pub assume_specification<'ctx>[ z3::ast::BV::<'ctx>::bvsrem ](
    a: &z3::ast::BV<'ctx>,
    b: &z3::ast::BV<'ctx>,
) -> (r: z3::ast::BV<'ctx>)
    requires
        alike(*a, *b),
    ensures
        bv_home(r) == bv_home(*a),
        bv_term(r) == Term::bin(BinOp::SRem, bv_term(*a), bv_term(*b)),
;

/// `bvshl` shifts the receiver left by the amount that the argument
/// stands for.
pub assume_specification<'ctx>[ z3::ast::BV::<'ctx>::bvshl ](
    a: &z3::ast::BV<'ctx>,
    b: &z3::ast::BV<'ctx>,
) -> (r: z3::ast::BV<'ctx>)
    requires
        alike(*a, *b),
    ensures
        bv_home(r) == bv_home(*a),
        bv_term(r) == Term::bin(BinOp::Shl, bv_term(*a), bv_term(*b)),
;

/// `bvlshr` shifts the receiver right by the amount that the argument
/// stands for, with zero bits coming in.
pub assume_specification<'ctx>[ z3::ast::BV::<'ctx>::bvlshr ](
    a: &z3::ast::BV<'ctx>,
    b: &z3::ast::BV<'ctx>,
) -> (r: z3::ast::BV<'ctx>)
    requires
        alike(*a, *b),
    ensures
        bv_home(r) == bv_home(*a),
        bv_term(r) == Term::bin(BinOp::LShr, bv_term(*a), bv_term(*b)),
;

/// `bvashr` shifts the receiver right by the amount that the argument
/// stands for, with copies of its top bit coming in.
pub assume_specification<'ctx>[ z3::ast::BV::<'ctx>::bvashr ](
    a: &z3::ast::BV<'ctx>,
    b: &z3::ast::BV<'ctx>,
) -> (r: z3::ast::BV<'ctx>)
    requires
        alike(*a, *b),
    ensures
        bv_home(r) == bv_home(*a),
        bv_term(r) == Term::bin(BinOp::AShr, bv_term(*a), bv_term(*b)),
;

/// `concat` puts the receiver above the argument.
pub assume_specification<'ctx>[ z3::ast::BV::<'ctx>::concat ](
    a: &z3::ast::BV<'ctx>,
    b: &z3::ast::BV<'ctx>,
) -> (r: z3::ast::BV<'ctx>)
    requires
        bv_home(*a) == bv_home(*b),
        bv_term(*a).width() + bv_term(*b).width() <= u32::MAX,
    ensures
        bv_home(r) == bv_home(*a),
        bv_term(r) == Term::concat(bv_term(*a), bv_term(*b)),
;

/// `extract` gives the bits `low` to `high` of the receiver, both included.
pub assume_specification<'ctx>[ z3::ast::BV::<'ctx>::extract ](
    a: &z3::ast::BV<'ctx>,
    high: u32,
    low: u32,
) -> (r: z3::ast::BV<'ctx>)
    requires
        low <= high < bv_term(*a).width(),
    ensures
        bv_home(r) == bv_home(*a),
        bv_term(r) == Term::extract(high as nat, low as nat, bv_term(*a)),
;

/// `zero_ext` puts `i` zero bits above the receiver.
pub assume_specification<'ctx>[ z3::ast::BV::<'ctx>::zero_ext ](a: &z3::ast::BV<'ctx>, i: u32) -> (r:
    z3::ast::BV<'ctx>)
    requires
        bv_term(*a).width() + i <= u32::MAX,
    ensures
        bv_home(r) == bv_home(*a),
        bv_term(r) == Term::zero_ext(i as nat, bv_term(*a)),
;

/// `sign_ext` puts `i` copies of the receiver's top bit above it.
pub assume_specification<'ctx>[ z3::ast::BV::<'ctx>::sign_ext ](a: &z3::ast::BV<'ctx>, i: u32) -> (r:
    z3::ast::BV<'ctx>)
    requires
        bv_term(*a).width() + i <= u32::MAX,
    ensures
        bv_home(r) == bv_home(*a),
        bv_term(r) == Term::sign_ext(i as nat, bv_term(*a)),
;

/// `bvult` is the formula that the receiver is less than the argument, as
/// unsigned numbers.
pub assume_specification<'ctx>[ z3::ast::BV::<'ctx>::bvult ](
    a: &z3::ast::BV<'ctx>,
    b: &z3::ast::BV<'ctx>,
) -> (r: z3::ast::Bool<'ctx>)
    requires
        alike(*a, *b),
    ensures
        bool_home(r) == bv_home(*a),
        bool_formula(r) == Formula::rel(Relation::Ult, bv_term(*a), bv_term(*b)),
;

/// `bvule` is the formula that the receiver is at most the argument, as
/// unsigned numbers.
pub assume_specification<'ctx>[ z3::ast::BV::<'ctx>::bvule ](
    a: &z3::ast::BV<'ctx>,
    b: &z3::ast::BV<'ctx>,
) -> (r: z3::ast::Bool<'ctx>)
    requires
        alike(*a, *b),
    ensures
        bool_home(r) == bv_home(*a),
        bool_formula(r) == Formula::rel(Relation::Ule, bv_term(*a), bv_term(*b)),
;

/// `bvugt` is the formula that the receiver is greater than the argument,
/// as unsigned numbers.
pub assume_specification<'ctx>[ z3::ast::BV::<'ctx>::bvugt ](
    a: &z3::ast::BV<'ctx>,
    b: &z3::ast::BV<'ctx>,
) -> (r: z3::ast::Bool<'ctx>)
    requires
        alike(*a, *b),
    ensures
        bool_home(r) == bv_home(*a),
        bool_formula(r) == Formula::rel(Relation::Ugt, bv_term(*a), bv_term(*b)),
;

/// `bvuge` is the formula that the receiver is at least the argument, as
/// unsigned numbers.
pub assume_specification<'ctx>[ z3::ast::BV::<'ctx>::bvuge ](
    a: &z3::ast::BV<'ctx>,
    b: &z3::ast::BV<'ctx>,
) -> (r: z3::ast::Bool<'ctx>)
    requires
        alike(*a, *b),
    ensures
        bool_home(r) == bv_home(*a),
        bool_formula(r) == Formula::rel(Relation::Uge, bv_term(*a), bv_term(*b)),
;

/// `bvslt` is the formula that the receiver is less than the argument, as
/// signed numbers.
pub assume_specification<'ctx>[ z3::ast::BV::<'ctx>::bvslt ](
    a: &z3::ast::BV<'ctx>,
    b: &z3::ast::BV<'ctx>,
) -> (r: z3::ast::Bool<'ctx>)
    requires
        alike(*a, *b),
    ensures
        bool_home(r) == bv_home(*a),
        bool_formula(r) == Formula::rel(Relation::Slt, bv_term(*a), bv_term(*b)),
;

/// `bvsle` is the formula that the receiver is at most the argument, as
/// signed numbers.
pub assume_specification<'ctx>[ z3::ast::BV::<'ctx>::bvsle ](
    a: &z3::ast::BV<'ctx>,
    b: &z3::ast::BV<'ctx>,
) -> (r: z3::ast::Bool<'ctx>)
    requires
        alike(*a, *b),
    ensures
        bool_home(r) == bv_home(*a),
        bool_formula(r) == Formula::rel(Relation::Sle, bv_term(*a), bv_term(*b)),
;

/// `bvsgt` is the formula that the receiver is greater than the argument,
/// as signed numbers.
pub assume_specification<'ctx>[ z3::ast::BV::<'ctx>::bvsgt ](
    a: &z3::ast::BV<'ctx>,
    b: &z3::ast::BV<'ctx>,
) -> (r: z3::ast::Bool<'ctx>)
    requires
        alike(*a, *b),
    ensures
        bool_home(r) == bv_home(*a),
        bool_formula(r) == Formula::rel(Relation::Sgt, bv_term(*a), bv_term(*b)),
;

/// `bvsge` is the formula that the receiver is at least the argument, as
/// signed numbers.
pub assume_specification<'ctx>[ z3::ast::BV::<'ctx>::bvsge ](
    a: &z3::ast::BV<'ctx>,
    b: &z3::ast::BV<'ctx>,
) -> (r: z3::ast::Bool<'ctx>)
    requires
        alike(*a, *b),
    ensures
        bool_home(r) == bv_home(*a),
        bool_formula(r) == Formula::rel(Relation::Sge, bv_term(*a), bv_term(*b)),
;

/// `Ast::_eq` on two bit vectors: the formula that they are equal.
#[verifier::external_body]
pub(crate) fn bv_eq<'ctx>(a: &z3::ast::BV<'ctx>, b: &z3::ast::BV<'ctx>) -> (r: z3::ast::Bool<'ctx>)
    requires
        alike(*a, *b),
    ensures
        bool_home(r) == bv_home(*a),
        bool_formula(r) == Formula::rel(Relation::Eq, bv_term(*a), bv_term(*b)),
{
    z3::ast::Ast::_eq(a, b)
}

/// `Ast::simplify` on a bit vector: a term of the same width that has the
/// same value under every interpretation that divides by zero as the
/// solver does.
#[verifier::external_body]
pub(crate) fn bv_simplify<'ctx>(a: &z3::ast::BV<'ctx>) -> (r: z3::ast::BV<'ctx>)
    ensures
        bv_home(r) == bv_home(*a),
        bv_term(r).width() == bv_term(*a).width(),
        forall|i: Interp| solver_divides(i) ==> #[trigger] bv_term(r).eval(i) == bv_term(*a).eval(i),
{
    z3::ast::Ast::simplify(a)
}

/// `PartialEq::eq` on two bit-vector handles of one context, which asks
/// the solver whether the two hold one term. The solver keeps every term
/// once: a term that is made twice is the same term to it. So the answer
/// is whether the two handles stand for the same term, as it is written.
#[verifier::external_body]
pub(crate) fn bv_same<'ctx>(a: &z3::ast::BV<'ctx>, b: &z3::ast::BV<'ctx>) -> (r: bool)
    requires
        bv_home(*a) == bv_home(*b),
    ensures
        r == (bv_term(*a) == bv_term(*b)),
{
    a == b
}

/// `Clone::clone` on a bit-vector handle: another handle for the same term.
#[verifier::external_body]
pub(crate) fn bv_clone<'ctx>(a: &z3::ast::BV<'ctx>) -> (r: z3::ast::BV<'ctx>)
    ensures
        bv_home(r) == bv_home(*a),
        bv_term(r) == bv_term(*a),
{
    a.clone()
}

// ---------------------------------------------------------------------------
// Formulas
// ---------------------------------------------------------------------------

/// `Bool::not` is the negation of a formula.
pub assume_specification<'ctx>[ z3::ast::Bool::<'ctx>::not ](a: &z3::ast::Bool<'ctx>) -> (r:
    z3::ast::Bool<'ctx>)
    ensures
        bool_home(r) == bool_home(*a),
        bool_formula(r) == Formula::not(bool_formula(*a)),
;

/// `Bool::ite` on two bit vectors: the first where the formula holds, else
/// the second.
#[verifier::external_body]
pub(crate) fn bool_ite<'ctx>(
    c: &z3::ast::Bool<'ctx>,
    a: &z3::ast::BV<'ctx>,
    b: &z3::ast::BV<'ctx>,
) -> (r: z3::ast::BV<'ctx>)
    requires
        bool_home(*c) == bv_home(*a),
        alike(*a, *b),
    ensures
        bv_home(r) == bv_home(*a),
        bv_term(r) == Term::ite(bool_formula(*c), bv_term(*a), bv_term(*b)),
{
    c.ite(a, b)
}

/// `Clone::clone` on a boolean handle: another handle for the same formula.
#[verifier::external_body]
pub(crate) fn bool_clone<'ctx>(a: &z3::ast::Bool<'ctx>) -> (r: z3::ast::Bool<'ctx>)
    ensures
        bool_home(r) == bool_home(*a),
        bool_formula(r) == bool_formula(*a),
{
    a.clone()
}

// ---------------------------------------------------------------------------
// Arrays
// ---------------------------------------------------------------------------

/// `z3::ast::Array::new_const` between two bit-vector sorts: the unknown
/// array of that name.
#[verifier::external_body]
pub(crate) fn array_new_const<'ctx>(
    ctx: &'ctx z3::Context,
    name: &str,
    index_bits: u32,
    cell_bits: u32,
) -> (r: z3::ast::Array<'ctx>)
    requires
        index_bits > 0,
        cell_bits > 0,
        !name@.contains('\0'),
    ensures
        array_home(r) == context_id(*ctx),
        array_term(r) == (ArrayTerm::Var {
            name: name@,
            index_bits: index_bits as nat,
            cell_bits: cell_bits as nat,
        }),
{
    let domain = z3::Sort::bitvector(ctx, index_bits);
    let range = z3::Sort::bitvector(ctx, cell_bits);
    z3::ast::Array::new_const(ctx, name, &domain, &range)
}

/// `z3::ast::Array::const_array` over a bit-vector sort: the array that
/// holds one value in every cell.
#[verifier::external_body]
pub(crate) fn array_fill<'ctx>(ctx: &'ctx z3::Context, index_bits: u32, value: &z3::ast::BV<'ctx>) -> (r:
    z3::ast::Array<'ctx>)
    requires
        index_bits > 0,
        bv_home(*value) == context_id(*ctx),
    ensures
        array_home(r) == context_id(*ctx),
        array_term(r) == ArrayTerm::fill(index_bits as nat, bv_term(*value)),
{
    let domain = z3::Sort::bitvector(ctx, index_bits);
    z3::ast::Array::const_array(ctx, &domain, &z3::ast::Dynamic::from_ast(value))
}

/// `z3::ast::Array::select`: the cell at an index of the array's index width.
#[verifier::external_body]
pub(crate) fn array_select<'ctx>(a: &z3::ast::Array<'ctx>, index: &z3::ast::BV<'ctx>) -> (r:
    z3::ast::BV<'ctx>)
    requires
        array_home(*a) == bv_home(*index),
        array_term(*a).index_bits() == bv_term(*index).width(),
    ensures
        bv_home(r) == array_home(*a),
        bv_term(r) == Term::select(array_term(*a), bv_term(*index)),
{
    a.select(&z3::ast::Dynamic::from_ast(index)).as_bv().unwrap()
}

/// `z3::ast::Array::store`: the array with one cell replaced, for an index
/// and a value of the array's widths.
#[verifier::external_body]
pub(crate) fn array_store<'ctx>(
    a: &z3::ast::Array<'ctx>,
    index: &z3::ast::BV<'ctx>,
    value: &z3::ast::BV<'ctx>,
) -> (r: z3::ast::Array<'ctx>)
    requires
        array_home(*a) == bv_home(*index),
        array_home(*a) == bv_home(*value),
        array_term(*a).index_bits() == bv_term(*index).width(),
        array_term(*a).cell_bits() == bv_term(*value).width(),
    ensures
        array_home(r) == array_home(*a),
        array_term(r) == ArrayTerm::store(array_term(*a), bv_term(*index), bv_term(*value)),
{
    a.store(&z3::ast::Dynamic::from_ast(index), &z3::ast::Dynamic::from_ast(value))
}

/// `Clone::clone` on an array handle: another handle for the same array term.
#[verifier::external_body]
pub(crate) fn array_clone<'ctx>(a: &z3::ast::Array<'ctx>) -> (r: z3::ast::Array<'ctx>)
    ensures
        array_home(r) == array_home(*a),
        array_term(r) == array_term(*a),
{
    a.clone()
}

// ---------------------------------------------------------------------------
// The solver
// ---------------------------------------------------------------------------

/// `z3::Solver::new`: a solver with one level and nothing asserted.
#[verifier::external_body]
pub(crate) fn solver_new<'ctx>(ctx: &'ctx z3::Context) -> (r: z3::Solver<'ctx>)
    ensures
        solver_home(r) == context_id(*ctx),
        solver_frames(r) == seq![Seq::<Formula>::empty()],
        !solver_has_model(r),
{
    z3::Solver::new(ctx)
}

/// `z3::Solver::assert`: the formula joins the top level.
#[verifier::external_body]
pub(crate) fn solver_assert<'ctx>(s: &mut z3::Solver<'ctx>, f: &z3::ast::Bool<'ctx>)
    requires
        solver_home(*old(s)) == bool_home(*f),
        solver_frames(*old(s)).len() > 0,
    ensures
        solver_home(*final(s)) == solver_home(*old(s)),
        solver_frames(*final(s)) == solver_frames(*old(s)).update(
            solver_frames(*old(s)).len() - 1,
            solver_frames(*old(s)).last().push(bool_formula(*f)),
        ),
        !solver_has_model(*final(s)),
{
    s.assert(f)
}

/// `z3::Solver::push`: a new, empty level on top.
#[verifier::external_body]
pub(crate) fn solver_push<'ctx>(s: &mut z3::Solver<'ctx>)
    ensures
        solver_home(*final(s)) == solver_home(*old(s)),
        solver_frames(*final(s)) == solver_frames(*old(s)).push(Seq::<Formula>::empty()),
        !solver_has_model(*final(s)),
{
    s.push()
}

/// `z3::Solver::pop`: the top `n` levels leave with all they hold. The base
/// level cannot leave.
#[verifier::external_body]
pub(crate) fn solver_pop<'ctx>(s: &mut z3::Solver<'ctx>, n: u32)
    requires
        n < solver_frames(*old(s)).len(),
    ensures
        solver_home(*final(s)) == solver_home(*old(s)),
        solver_frames(*final(s)) == solver_frames(*old(s)).subrange(
            0,
            solver_frames(*old(s)).len() - n,
        ),
        !solver_has_model(*final(s)),
{
    s.pop(n)
}

/// `z3::Solver::check`: `Sat` only if some interpretation that divides by
/// zero as the solver does makes every asserted formula true, `Unsat` only
/// if none does. What is asserted stays.
/// After `Sat` there is a model, where the context of the solver makes
/// models. The context is taken to say so, and is not used.
#[verifier::external_body]
pub(crate) fn solver_check<'ctx>(ctx: &'ctx z3::Context, s: &mut z3::Solver<'ctx>) -> (r: Verdict)
    requires
        solver_home(*old(s)) == context_id(*ctx),
    ensures
        solver_home(*final(s)) == solver_home(*old(s)),
        solver_frames(*final(s)) == solver_frames(*old(s)),
        solver_has_model(*final(s)) == (r == Verdict::Sat && context_makes_models(*ctx)),
        r == Verdict::Sat ==> exists|i: Interp| satisfies(solver_frames(*old(s)), i),
        r == Verdict::Unsat ==> forall|i: Interp| !satisfies(solver_frames(*old(s)), i),
{
    match s.check() {
        z3::SatResult::Sat => Verdict::Sat,
        z3::SatResult::Unsat => Verdict::Unsat,
        z3::SatResult::Unknown => Verdict::Unknown,
    }
}

/// `z3::Solver::get_model` after a check that said `Sat`: a model whose
/// interpretation divides by zero as the solver does and makes every
/// asserted formula true.
#[verifier::external_body]
pub(crate) fn solver_get_model<'ctx>(s: &z3::Solver<'ctx>) -> (r: z3::Model<'ctx>)
    requires
        solver_has_model(*s),
    ensures
        model_home(r) == solver_home(*s),
        satisfies(solver_frames(*s), model_interp(r)),
{
    s.get_model()
}

/// `Display` for `z3::Model`, through `format!`: the model as text.
#[verifier::external_body]
pub(crate) fn model_text<'ctx>(m: &z3::Model<'ctx>) -> (r: String) {
    format!("{}", m)
}

/// `z3::Model::eval` on a bit vector: where it gives a term, that term is
/// the numeral of the value under the model's interpretation.
#[verifier::external_body]
pub(crate) fn model_eval<'ctx>(m: &z3::Model<'ctx>, t: &z3::ast::BV<'ctx>) -> (r: Option<
    z3::ast::BV<'ctx>,
>)
    requires
        model_home(*m) == bv_home(*t),
    ensures
        r matches Some(v) ==> bv_home(v) == bv_home(*t) && bv_term(v) == (Term::Const {
            value: bv_term(*t).number(model_interp(*m)),
            width: bv_term(*t).width(),
        }),
{
    m.eval(t)
}

} // verus!
