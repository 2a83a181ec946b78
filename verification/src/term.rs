//! Symbolic bit-vector terms and what they mean.
//!
//! Terms are finite trees over constants, named unknowns and the usual
//! bit-vector operators. An interpretation gives every unknown a value; the
//! meaning of a term under an interpretation is a bit sequence, least
//! significant bit first.

use crate::bits::{fill, fit, from_int, from_nat, to_int, to_nat};
use vstd::arithmetic::power2::pow2;
use vstd::prelude::*;

verus! {

/// Binary operators on two bit vectors of one width, giving that width.
#[derive(Clone, Copy, PartialEq, Eq, Structural, Debug)]
pub enum BinOp {
    Add,
    Sub,
    Mul,
    UDiv,
    SDiv,
    URem,
    SRem,
    And,
    Or,
    Xor,
    Shl,
    LShr,
    AShr,
}

/// Comparisons of two bit vectors of one width.
#[derive(Clone, Copy, PartialEq, Eq, Structural, Debug)]
pub enum Relation {
    Eq,
    Ult,
    Ule,
    Ugt,
    Uge,
    Slt,
    Sle,
    Sgt,
    Sge,
}

/// A bit-vector term.
pub enum Term {
    /// The constant `value`, of `width` bits.
    Const { value: nat, width: nat },
    /// The unknown called `name`, of `width` bits.
    Var { name: Seq<char>, width: nat },
    /// Bitwise complement.
    Not(Box<Term>),
    Bin(BinOp, Box<Term>, Box<Term>),
    /// Bits `low` to `high` of the argument, both included.
    Extract { high: nat, low: nat, arg: Box<Term> },
    /// The argument with `extra` zero bits above it.
    ZeroExt { extra: nat, arg: Box<Term> },
    /// The argument with `extra` copies of its top bit above it.
    SignExt { extra: nat, arg: Box<Term> },
    /// The first term above the second.
    Concat(Box<Term>, Box<Term>),
    /// The second term where the formula holds, else the third.
    Ite(Box<Formula>, Box<Term>, Box<Term>),
    /// The cell of an array at an index.
    Select(Box<ArrayTerm>, Box<Term>),
}

/// A formula over bit-vector terms.
pub enum Formula {
    Rel(Relation, Box<Term>, Box<Term>),
    Not(Box<Formula>),
}

/// An array term: a total map from indices of `index_bits` bits to cells
/// of `cell_bits` bits.
pub enum ArrayTerm {
    /// The unknown array called `name`.
    Var { name: Seq<char>, index_bits: nat, cell_bits: nat },
    /// The array that holds `value` in every cell.
    Fill { index_bits: nat, value: Box<Term> },
    /// The array with the cell at an index replaced.
    Store(Box<ArrayTerm>, Box<Term>, Box<Term>),
}

/// A value for every unknown: for a bit vector by name and width, for an
/// array by name, index width, cell width and index. The value of a
/// division by zero is an unknown too: the solver is free in it.
pub struct Interp {
    pub vector: spec_fn(Seq<char>, nat) -> Seq<bool>,
    pub array: spec_fn(Seq<char>, nat, nat, nat) -> Seq<bool>,
    /// What a division or a remainder by zero gives, by the operator and
    /// the dividend.
    pub by_zero: spec_fn(BinOp, Seq<bool>) -> Seq<bool>,
}

impl BinOp {
    /// Whether the operator is a division or a remainder.
    pub open spec fn divides(self) -> bool {
        self == BinOp::UDiv || self == BinOp::SDiv || self == BinOp::URem || self == BinOp::SRem
    }
}

/// The bit `1` as a term of width one.
pub open spec fn bit_true() -> Term {
    Term::Const { value: 1, width: 1 }
}

/// The bit `0` as a term of width one.
pub open spec fn bit_false() -> Term {
    Term::Const { value: 0, width: 1 }
}

/// The formula that a term of width one holds the bit `1`.
pub open spec fn holds(t: Term) -> Formula {
    Formula::rel(Relation::Eq, t, bit_true())
}

/// The term of width one that holds the bit `1` exactly where `f` is true.
pub open spec fn as_bit(f: Formula) -> Term {
    Term::ite(f, bit_true(), bit_false())
}

impl Term {
    /// The bitwise complement of `a`.
    pub open spec fn not(a: Term) -> Term {
        Term::Not(Box::new(a))
    }

    /// `a` and `b` under `op`.
    pub open spec fn bin(op: BinOp, a: Term, b: Term) -> Term {
        Term::Bin(op, Box::new(a), Box::new(b))
    }

    /// The bits `low` to `high` of `a`, both included.
    pub open spec fn extract(high: nat, low: nat, a: Term) -> Term {
        Term::Extract { high, low, arg: Box::new(a) }
    }

    /// `a` with `extra` zero bits above it.
    pub open spec fn zero_ext(extra: nat, a: Term) -> Term {
        Term::ZeroExt { extra, arg: Box::new(a) }
    }

    /// `a` with `extra` copies of its top bit above it.
    pub open spec fn sign_ext(extra: nat, a: Term) -> Term {
        Term::SignExt { extra, arg: Box::new(a) }
    }

    /// `low` with `high` above it.
    pub open spec fn concat(high: Term, low: Term) -> Term {
        Term::Concat(Box::new(high), Box::new(low))
    }

    /// `a` where `c` holds, `b` where it does not.
    pub open spec fn ite(c: Formula, a: Term, b: Term) -> Term {
        Term::Ite(Box::new(c), Box::new(a), Box::new(b))
    }

    /// The cell of `array` at `index`.
    pub open spec fn select(array: ArrayTerm, index: Term) -> Term {
        Term::Select(Box::new(array), Box::new(index))
    }

    /// The number of bits of the term.
    pub open spec fn width(self) -> nat
        decreases self,
    {
        match self {
            Term::Const { width, .. } => width,
            Term::Var { width, .. } => width,
            Term::Not(a) => a.width(),
            Term::Bin(_, a, _) => a.width(),
            Term::Extract { high, low, .. } => (high - low + 1) as nat,
            Term::ZeroExt { extra, arg } => arg.width() + extra,
            Term::SignExt { extra, arg } => arg.width() + extra,
            Term::Concat(high, low) => high.width() + low.width(),
            Term::Ite(_, a, _) => a.width(),
            Term::Select(array, _) => array.cell_bits(),
        }
    }

    /// The value of the term under an interpretation.
    pub open spec fn eval(self, i: Interp) -> Seq<bool>
        decreases self,
    {
        match self {
            Term::Const { value, width } => from_nat(value, width),
            Term::Var { name, width } => fit((i.vector)(name, width), width),
            Term::Not(a) => Seq::new(a.width(), |k: int| !a.eval(i)[k]),
            Term::Bin(op, a, b) => if op.divides() && to_nat(b.eval(i)) == 0 {
                fit((i.by_zero)(op, a.eval(i)), a.width())
            } else {
                bin_value(op, a.eval(i), b.eval(i), a.width())
            },
            Term::Extract { high, low, arg } => Seq::new(
                (high - low + 1) as nat,
                |k: int| arg.eval(i)[low + k],
            ),
            Term::ZeroExt { extra, arg } => fit(arg.eval(i), arg.width() + extra),
            Term::SignExt { extra, arg } => Seq::new(
                arg.width() + extra,
                |k: int|
                    if k < arg.width() {
                        arg.eval(i)[k]
                    } else {
                        arg.eval(i)[arg.width() - 1]
                    },
            ),
            Term::Concat(high, low) => Seq::new(
                high.width() + low.width(),
                |k: int|
                    if k < low.width() {
                        low.eval(i)[k]
                    } else {
                        high.eval(i)[k - low.width()]
                    },
            ),
            Term::Ite(c, a, b) => if c.eval(i) {
                fit(a.eval(i), a.width())
            } else {
                fit(b.eval(i), a.width())
            },
            Term::Select(array, index) => array.cell(i, to_nat(index.eval(i))),
        }
    }

    /// The unsigned number that the term stands for under an interpretation.
    pub open spec fn number(self, i: Interp) -> nat {
        to_nat(self.eval(i))
    }
}

impl Formula {
    /// `a` and `b` compared by `op`.
    pub open spec fn rel(op: Relation, a: Term, b: Term) -> Formula {
        Formula::Rel(op, Box::new(a), Box::new(b))
    }

    /// The negation of `f`.
    pub open spec fn not(f: Formula) -> Formula {
        Formula::Not(Box::new(f))
    }

    /// Whether the formula is true under an interpretation.
    pub open spec fn eval(self, i: Interp) -> bool
        decreases self,
    {
        match self {
            Formula::Rel(op, a, b) => relation_value(op, a.eval(i), b.eval(i)),
            Formula::Not(f) => !f.eval(i),
        }
    }
}

impl ArrayTerm {
    /// The array whose every cell is `value`.
    pub open spec fn fill(index_bits: nat, value: Term) -> ArrayTerm {
        ArrayTerm::Fill { index_bits, value: Box::new(value) }
    }

    /// `array` with `value` in the cell at `at`.
    pub open spec fn store(array: ArrayTerm, at: Term, value: Term) -> ArrayTerm {
        ArrayTerm::Store(Box::new(array), Box::new(at), Box::new(value))
    }

    /// The number of bits of an index.
    pub open spec fn index_bits(self) -> nat
        decreases self,
    {
        match self {
            ArrayTerm::Var { index_bits, .. } => index_bits,
            ArrayTerm::Fill { index_bits, .. } => index_bits,
            ArrayTerm::Store(array, _, _) => array.index_bits(),
        }
    }

    /// The number of bits of a cell.
    pub open spec fn cell_bits(self) -> nat
        decreases self,
    {
        match self {
            ArrayTerm::Var { cell_bits, .. } => cell_bits,
            ArrayTerm::Fill { value, .. } => value.width(),
            ArrayTerm::Store(array, _, _) => array.cell_bits(),
        }
    }

    /// The value of the cell at `index` under an interpretation.
    pub open spec fn cell(self, i: Interp, index: nat) -> Seq<bool>
        decreases self,
    {
        match self {
            ArrayTerm::Var { name, index_bits, cell_bits } => fit(
                (i.array)(name, index_bits, cell_bits, index),
                cell_bits,
            ),
            ArrayTerm::Fill { value, .. } => fit(value.eval(i), value.width()),
            ArrayTerm::Store(array, at, value) => if to_nat(at.eval(i)) == index {
                fit(value.eval(i), array.cell_bits())
            } else {
                array.cell(i, index)
            },
        }
    }
}

/// Division of integers that rounds towards zero.
pub open spec fn div_towards_zero(a: int, b: int) -> int {
    if (a >= 0) == (b >= 0) {
        abs(a) / abs(b)
    } else {
        -(abs(a) / abs(b))
    }
}

/// The distance of `a` from zero.
pub open spec fn abs(a: int) -> int {
    if a >= 0 {
        a
    } else {
        -a
    }
}

/// The value of a binary operator on two values of `w` bits; of a
/// division or a remainder, for a divisor that is not zero.
pub open spec fn bin_value(op: BinOp, x: Seq<bool>, y: Seq<bool>, w: nat) -> Seq<bool> {
    match op {
        BinOp::Add => from_nat(to_nat(x) + to_nat(y), w),
        BinOp::Sub => from_int(to_nat(x) - to_nat(y), w),
        BinOp::Mul => from_nat(to_nat(x) * to_nat(y), w),
        BinOp::UDiv => from_nat(to_nat(x) / to_nat(y), w),
        BinOp::URem => from_nat(to_nat(x) % to_nat(y), w),
        BinOp::SDiv => from_int(div_towards_zero(to_int(x), to_int(y)), w),
        BinOp::SRem => from_int(
            to_int(x) - div_towards_zero(to_int(x), to_int(y)) * to_int(y),
            w,
        ),
        BinOp::And => Seq::new(w, |k: int| x[k] && y[k]),
        BinOp::Or => Seq::new(w, |k: int| x[k] || y[k]),
        BinOp::Xor => Seq::new(w, |k: int| x[k] != y[k]),
        BinOp::Shl => Seq::new(w, |k: int| k >= to_nat(y) && x[k - to_nat(y)]),
        BinOp::LShr => Seq::new(w, |k: int| k + to_nat(y) < w && x[k + to_nat(y)]),
        BinOp::AShr => Seq::new(
            w,
            |k: int|
                if k + to_nat(y) < w {
                    x[k + to_nat(y)]
                } else {
                    x[w - 1]
                },
        ),
    }
}

/// The value of a comparison of two values of one width.
pub open spec fn relation_value(op: Relation, x: Seq<bool>, y: Seq<bool>) -> bool {
    match op {
        Relation::Eq => to_nat(x) == to_nat(y),
        Relation::Ult => to_nat(x) < to_nat(y),
        Relation::Ule => to_nat(x) <= to_nat(y),
        Relation::Ugt => to_nat(x) > to_nat(y),
        Relation::Uge => to_nat(x) >= to_nat(y),
        Relation::Slt => to_int(x) < to_int(y),
        Relation::Sle => to_int(x) <= to_int(y),
        Relation::Sgt => to_int(x) > to_int(y),
        Relation::Sge => to_int(x) >= to_int(y),
    }
}

/// The value of a term has as many bits as the term is wide.
pub proof fn lemma_eval_len(t: Term, i: Interp)
    ensures
        t.eval(i).len() == t.width(),
    decreases t,
{
    match t {
        Term::Const { value, width } => {
            crate::bits::lemma_from_nat_len(value, width);
        },
        Term::Not(a) => {},
        Term::Bin(op, a, b) => {
            lemma_bin_value_len(op, a.eval(i), b.eval(i), a.width());
        },
        Term::Select(array, index) => {
            lemma_cell_len(*array, i, to_nat(index.eval(i)));
        },
        _ => {},
    }
}

/// A binary operation on two vectors of `w` bits gives `w` bits.
pub proof fn lemma_bin_value_len(op: BinOp, x: Seq<bool>, y: Seq<bool>, w: nat)
    ensures
        bin_value(op, x, y, w).len() == w,
{
    crate::bits::lemma_from_nat_len(to_nat(x) + to_nat(y), w);
    crate::bits::lemma_from_nat_len(((to_nat(x) - to_nat(y)) % (pow2(w) as int)) as nat, w);
    crate::bits::lemma_from_nat_len(to_nat(x) * to_nat(y), w);
    crate::bits::lemma_from_nat_len(to_nat(x) / to_nat(y), w);
    crate::bits::lemma_from_nat_len(to_nat(x) % to_nat(y), w);
    let q = div_towards_zero(to_int(x), to_int(y));
    crate::bits::lemma_from_nat_len((q % (pow2(w) as int)) as nat, w);
    let r = to_int(x) - q * to_int(y);
    crate::bits::lemma_from_nat_len((r % (pow2(w) as int)) as nat, w);
}

/// The value of a cell has as many bits as the array's cells are wide.
pub proof fn lemma_cell_len(a: ArrayTerm, i: Interp, index: nat)
    ensures
        a.cell(i, index).len() == a.cell_bits(),
    decreases a,
{
    match a {
        ArrayTerm::Store(array, at, value) => {
            lemma_cell_len(*array, i, index);
        },
        _ => {},
    }
}

/// The number of a term lies below two to its width.
pub proof fn lemma_number_bound(t: Term, i: Interp)
    ensures
        t.number(i) < pow2(t.width()),
{
    lemma_eval_len(t, i);
    crate::bits::lemma_to_nat_bound(t.eval(i));
}

/// The number of a constant is its value, reduced to its width.
pub proof fn lemma_const_number(value: nat, width: nat, i: Interp)
    ensures
        (Term::Const { value, width }).number(i) == value % pow2(width),
{
    crate::bits::lemma_to_nat_from_nat(value, width);
}

/// The bit of a formula holds exactly where the formula is true.
pub proof fn lemma_holds_as_bit(f: Formula, i: Interp)
    ensures
        holds(as_bit(f)).eval(i) == f.eval(i),
{
    vstd::arithmetic::power2::lemma2_to64();
    lemma_const_number(1, 1, i);
    lemma_const_number(0, 1, i);
    crate::bits::lemma_from_nat_len(1, 1);
    crate::bits::lemma_from_nat_len(0, 1);
    let t = as_bit(f);
    assert(fit(bit_true().eval(i), 1) =~= bit_true().eval(i));
    assert(fit(bit_false().eval(i), 1) =~= bit_false().eval(i));
    assert(t.eval(i) == if f.eval(i) {
        bit_true().eval(i)
    } else {
        bit_false().eval(i)
    });
}

/// A vector of width one holds the bit `1` exactly where its only bit is set.
pub proof fn lemma_holds_bit(t: Term, i: Interp)
    requires
        t.width() == 1,
    ensures
        holds(t).eval(i) == t.eval(i)[0],
{
    lemma_eval_len(t, i);
    lemma_const_number(1, 1, i);
    vstd::arithmetic::power2::lemma2_to64();
    let s = t.eval(i);
    assert(s.drop_first().len() == 0);
    assert(to_nat(s) == crate::bits::bit_weight(s[0]) + 2 * to_nat(s.drop_first()));
}

/// The conjunction of two bits holds exactly where both hold.
pub proof fn lemma_holds_and(a: Term, b: Term, i: Interp)
    requires
        a.width() == 1,
        b.width() == 1,
    ensures
        holds(Term::bin(BinOp::And, a, b)).eval(i) == (holds(a).eval(i) && holds(b).eval(i)),
{
    lemma_holds_bit(a, i);
    lemma_holds_bit(b, i);
    lemma_holds_bit(Term::bin(BinOp::And, a, b), i);
}

/// The disjunction of two bits holds exactly where one of them holds.
pub proof fn lemma_holds_or(a: Term, b: Term, i: Interp)
    requires
        a.width() == 1,
        b.width() == 1,
    ensures
        holds(Term::bin(BinOp::Or, a, b)).eval(i) == (holds(a).eval(i) || holds(b).eval(i)),
{
    lemma_holds_bit(a, i);
    lemma_holds_bit(b, i);
    lemma_holds_bit(Term::bin(BinOp::Or, a, b), i);
}

/// The value of a term that is a numeral which fits 64 bits.
pub open spec fn numeral_of(t: Term) -> Option<u64> {
    match t {
        Term::Const { value, .. } => if value <= u64::MAX {
            Some(value as u64)
        } else {
            None
        },
        _ => None,
    }
}

} // verus!
