//! What a constant of the program evaluates to: the term it stands for,
//! the globals that are initialized on the way, and what is written to
//! memory for them.
//!
//! A global is initialized when it is first referred to: it is marked
//! first, then its initializer is evaluated and written to its address.
//! Evaluation jumps where it goes on with a constant that is no part of the
//! one at hand: into an initializer, through an alias, into a picked or a
//! patched element. The depth of such jumps is bounded.

use crate::error::ErrorKind;
use crate::global_allocations::GlobalView;
use crate::ir::{CastOp, Constant, GlobalAlias, IntPredicate, NameView, Type};
use crate::layout::{constant_offset, element_bytes, symbolic_offset, type_bits};
use crate::memory::write_value;
use crate::term::{as_bit, BinOp, Formula, Interp, Relation, Term};
use vstd::arithmetic::power2::pow2;
use vstd::prelude::*;

verus! {

/// The greatest depth of jumps in the evaluation of a constant.
pub const MAX_CONST_DEPTH: usize = 1000;

/// What an evaluation reads: what lies at each global name, and the aliases
/// of the current module.
pub struct Env {
    pub globals: Map<NameView, GlobalView>,
    pub aliases: Seq<GlobalAlias>,
}

/// What an evaluation has done so far: the globals it has marked as
/// initialized, and the values it has written to memory, each with its
/// address, in order.
pub struct Effects {
    pub ready: Set<NameView>,
    pub writes: Seq<(Term, Term)>,
}

/// What an evaluation gives: a term or the kind of a failure, and what it
/// has done.
pub type Evaluated = (Result<Term, ErrorKind>, Effects);

/// No effects.
pub open spec fn no_effects() -> Effects {
    Effects { ready: Set::empty(), writes: Seq::empty() }
}

/// The zero of a type: as wide as the type, where the size is known, is
/// not zero and fits.
pub open spec fn zero_of_type(ty: Type) -> Result<Term, ErrorKind> {
    match type_bits(ty) {
        Some(n) => if 0 < n <= u32::MAX {
            Ok(Term::Const { value: 0, width: n as nat })
        } else {
            Err(ErrorKind::MalformedInstruction)
        },
        None => Err(ErrorKind::MalformedInstruction),
    }
}

/// The constant that the first alias of that name stands for, searching
/// from position `from`.
pub open spec fn alias_from(aliases: Seq<GlobalAlias>, name: NameView, from: nat) -> Option<Constant>
    decreases aliases.len() - from,
{
    if from >= aliases.len() {
        None
    } else if aliases[from as int].name@ == name {
        Some(aliases[from as int].aliasee)
    } else {
        alias_from(aliases, name, from + 1)
    }
}

/// One more element above what was put together so far. A failure of the
/// new element wins over one from before; two terms that together are too
/// wide are a failure.
pub open spec fn combine(acc: Result<Term, ErrorKind>, new: Result<Term, ErrorKind>) -> Result<
    Term,
    ErrorKind,
> {
    match new {
        Err(e) => Err(e),
        Ok(b) => match acc {
            Err(e) => Err(e),
            Ok(a) => if a.width() + b.width() <= u32::MAX {
                Ok(Term::concat(b, a))
            } else {
                Err(ErrorKind::MalformedInstruction)
            },
        },
    }
}

/// The relation that a predicate compares by; `NE` is the negation of `EQ`.
pub open spec fn relation_of(p: IntPredicate) -> Relation {
    match p {
        IntPredicate::EQ => Relation::Eq,
        IntPredicate::NE => Relation::Eq,
        IntPredicate::UGT => Relation::Ugt,
        IntPredicate::UGE => Relation::Uge,
        IntPredicate::ULT => Relation::Ult,
        IntPredicate::ULE => Relation::Ule,
        IntPredicate::SGT => Relation::Sgt,
        IntPredicate::SGE => Relation::Sge,
        IntPredicate::SLT => Relation::Slt,
        IntPredicate::SLE => Relation::Sle,
    }
}

/// The term of width one for a comparison of two terms.
pub open spec fn compared(p: IntPredicate, a: Term, b: Term) -> Term {
    if p == IntPredicate::NE {
        as_bit(Formula::not(Formula::rel(Relation::Eq, a, b)))
    } else {
        as_bit(Formula::rel(relation_of(p), a, b))
    }
}

/// A term converted to a type of `n` bits: cut to its low bits, widened
/// with zero bits or with copies of its top bit, or left as it is where
/// the conversion keeps the bits and the widths agree.
pub open spec fn converted(op: CastOp, t: Term, n: nat) -> Result<Term, ErrorKind> {
    match op {
        CastOp::Trunc => if 0 < n <= t.width() {
            Ok(Term::extract((n - 1) as nat, 0, t))
        } else {
            Err(ErrorKind::MalformedInstruction)
        },
        CastOp::ZExt => if t.width() <= n <= u32::MAX {
            if t.width() == n {
                Ok(t)
            } else {
                Ok(Term::zero_ext((n - t.width()) as nat, t))
            }
        } else {
            Err(ErrorKind::MalformedInstruction)
        },
        CastOp::SExt => if t.width() <= n <= u32::MAX {
            if t.width() == n {
                Ok(t)
            } else {
                Ok(Term::sign_ext((n - t.width()) as nat, t))
            }
        } else {
            Err(ErrorKind::MalformedInstruction)
        },
        _ => if t.width() == n {
            Ok(t)
        } else {
            Err(ErrorKind::MalformedInstruction)
        },
    }
}

/// Whether the indices lead through structs to an element of `aggregate`.
pub open spec fn path_exists(aggregate: Constant, path: Seq<u32>) -> bool
    decreases path.len(),
{
    if path.len() == 0 {
        true
    } else {
        match aggregate {
            Constant::Struct { values, .. } => path[0] < values@.len() && path_exists(
                values@[path[0] as int],
                path.drop_first(),
            ),
            _ => false,
        }
    }
}

/// The element of `aggregate` that the indices lead to through structs.
pub open spec fn element_at(aggregate: Constant, path: Seq<u32>) -> Constant
    decreases path.len(),
{
    if path.len() == 0 {
        aggregate
    } else {
        match aggregate {
            Constant::Struct { values, .. } => element_at(
                values@[path[0] as int],
                path.drop_first(),
            ),
            _ => aggregate,
        }
    }
}

/// The value of the constant, and the effects of its evaluation after
/// those of `done`, with `fuel` jumps left.
pub open spec fn eval_const(c: Constant, env: Env, done: Effects, fuel: nat) -> Evaluated
    decreases fuel, 0nat, c, 0nat,
{
    match c {
        Constant::Int { bits, value } => if bits == 0 {
            (Err(ErrorKind::MalformedInstruction), done)
        } else {
            (Ok(Term::Const { value: (value as nat) % pow2(bits as nat), width: bits as nat }), done)
        },
        Constant::Null(ty) => (zero_of_type(ty), done),
        Constant::AggregateZero(ty) => (zero_of_type(ty), done),
        Constant::Undef(ty) => (zero_of_type(ty), done),
        Constant::Struct { values, .. } => eval_elems(values@, values@.len(), env, done, fuel),
        Constant::Array { elements, .. } => eval_elems(
            elements@,
            elements@.len(),
            env,
            done,
            fuel,
        ),
        Constant::Vector(elements) => eval_elems(elements@, elements@.len(), env, done, fuel),
        Constant::GlobalReference { name, .. } => if env.globals.contains_key(name@) {
            match env.globals[name@] {
                GlobalView::Function { addr, .. } => (Ok(addr), done),
                GlobalView::Variable { addr, initializer, initialized } => if initialized
                    || done.ready.contains(name@) {
                    (Ok(addr), done)
                } else if fuel == 0 {
                    (Err(ErrorKind::MalformedInstruction), done)
                } else {
                    let marked = Effects { ready: done.ready.insert(name@), writes: done.writes };
                    let (value, after) = eval_const(initializer, env, marked, (fuel - 1) as nat);
                    match value {
                        Err(e) => (Err(e), after),
                        Ok(v) => (
                            Ok(addr),
                            Effects { ready: after.ready, writes: after.writes.push((addr, v)) },
                        ),
                    }
                },
            }
        } else {
            match alias_from(env.aliases, name@, 0) {
                Some(aliasee) => if fuel == 0 {
                    (Err(ErrorKind::MalformedInstruction), done)
                } else {
                    eval_const(aliasee, env, done, (fuel - 1) as nat)
                },
                None => (Err(ErrorKind::OtherError), done),
            }
        },
        Constant::Binary { op, operand0, operand1 } => {
            let (a, after_a) = eval_const(*operand0, env, done, fuel);
            match a {
                Err(e) => (Err(e), after_a),
                Ok(ta) => {
                    let (b, after_b) = eval_const(*operand1, env, after_a, fuel);
                    match b {
                        Err(e) => (Err(e), after_b),
                        Ok(tb) => if ta.width() == tb.width() {
                            (Ok(Term::bin(op, ta, tb)), after_b)
                        } else {
                            (Err(ErrorKind::MalformedInstruction), after_b)
                        },
                    }
                },
            }
        },
        Constant::ExtractElement { vector, index } => match (*index, *vector) {
            (Constant::Int { value, .. }, Constant::Vector(elements)) => if value < elements@.len()
                && fuel > 0 {
                eval_const(elements@[value as int], env, done, (fuel - 1) as nat)
            } else {
                (Err(ErrorKind::MalformedInstruction), done)
            },
            _ => (Err(ErrorKind::MalformedInstruction), done),
        },
        Constant::InsertElement { vector, element, index } => match (*index, *vector) {
            (Constant::Int { value, .. }, Constant::Vector(elements)) => if value < elements@.len()
                && fuel > 0 {
                eval_patched_elems(
                    elements@,
                    elements@.len(),
                    value as nat,
                    *element,
                    Seq::empty(),
                    env,
                    done,
                    (fuel - 1) as nat,
                )
            } else {
                (Err(ErrorKind::MalformedInstruction), done)
            },
            _ => (Err(ErrorKind::MalformedInstruction), done),
        },
        Constant::ExtractValue { aggregate, indices } => if path_exists(*aggregate, indices@) && fuel
            > 0 {
            eval_const(element_at(*aggregate, indices@), env, done, (fuel - 1) as nat)
        } else {
            (Err(ErrorKind::MalformedInstruction), done)
        },
        Constant::InsertValue { aggregate, element, indices } => if path_exists(
            *aggregate,
            indices@,
        ) && fuel > 0 {
            eval_patched(*aggregate, *element, indices@, env, done, (fuel - 1) as nat)
        } else {
            (Err(ErrorKind::MalformedInstruction), done)
        },
        Constant::GetElementPtr { address, address_type, indices, .. } => {
            let (base, after_base) = eval_const(*address, env, done, fuel);
            match base {
                Err(e) => (Err(e), after_base),
                Ok(tb) => {
                    let (offset, after) = eval_offset(
                        indices@,
                        0,
                        address_type,
                        tb.width(),
                        env,
                        after_base,
                        fuel,
                    );
                    match offset {
                        Err(e) => (Err(e), after),
                        Ok(to) => (Ok(Term::bin(BinOp::Add, tb, to)), after),
                    }
                },
            }
        },
        Constant::Cast { op, operand, to_type } => {
            let (value, after) = eval_const(*operand, env, done, fuel);
            match value {
                Err(e) => (Err(e), after),
                Ok(t) => match type_bits(to_type) {
                    Some(n) => (converted(op, t, n as nat), after),
                    None => (Err(ErrorKind::MalformedInstruction), after),
                },
            }
        },
        Constant::ICmp { predicate, operand0, operand1 } => {
            let (a, after_a) = eval_const(*operand0, env, done, fuel);
            match a {
                Err(e) => (Err(e), after_a),
                Ok(ta) => {
                    let (b, after_b) = eval_const(*operand1, env, after_a, fuel);
                    match b {
                        Err(e) => (Err(e), after_b),
                        Ok(tb) => if ta.width() == tb.width() {
                            (Ok(compared(predicate, ta, tb)), after_b)
                        } else {
                            (Err(ErrorKind::MalformedInstruction), after_b)
                        },
                    }
                },
            }
        },
        Constant::Select { condition, true_value, false_value } => {
            let (cond, after) = eval_const(*condition, env, done, fuel);
            match cond {
                Err(e) => (Err(e), after),
                Ok(Term::Const { value, width }) => if width == 1 && value <= u64::MAX {
                    if value != 0 {
                        eval_const(*true_value, env, after, fuel)
                    } else {
                        eval_const(*false_value, env, after, fuel)
                    }
                } else {
                    (Err(ErrorKind::MalformedInstruction), after)
                },
                Ok(_) => (Err(ErrorKind::MalformedInstruction), after),
            }
        },
    }
}

/// The first `upto` elements put together, the first lowest. All are
/// evaluated, also after one has failed. No elements are a failure.
pub open spec fn eval_elems(
    elems: Seq<Constant>,
    upto: nat,
    env: Env,
    done: Effects,
    fuel: nat,
) -> Evaluated
    decreases fuel, 0nat, elems, upto,
{
    if upto == 0 || upto > elems.len() {
        (Err(ErrorKind::MalformedInstruction), done)
    } else if upto == 1 {
        eval_const(elems[0], env, done, fuel)
    } else {
        let (acc, after_acc) = eval_elems(elems, (upto - 1) as nat, env, done, fuel);
        let (new, after) = eval_const(elems[upto - 1], env, after_acc, fuel);
        (combine(acc, new), after)
    }
}

/// The aggregate with the element that the indices lead to replaced by
/// `element`.
pub open spec fn eval_patched(
    aggregate: Constant,
    element: Constant,
    path: Seq<u32>,
    env: Env,
    done: Effects,
    fuel: nat,
) -> Evaluated
    decreases fuel, 3 * path.len() + 3, aggregate, 0nat,
{
    if path.len() == 0 {
        eval_const(element, env, done, fuel)
    } else {
        match aggregate {
            Constant::Struct { values, .. } => if path[0] < values@.len() {
                eval_patched_elems(
                    values@,
                    values@.len(),
                    path[0] as nat,
                    element,
                    path.drop_first(),
                    env,
                    done,
                    fuel,
                )
            } else {
                (Err(ErrorKind::MalformedInstruction), done)
            },
            _ => (Err(ErrorKind::MalformedInstruction), done),
        }
    }
}

/// The element at position `k`, or where `k` is `at` that element with
/// what `rest` leads to replaced by `element`.
pub open spec fn eval_patched_elem(
    elems: Seq<Constant>,
    k: nat,
    at: nat,
    element: Constant,
    rest: Seq<u32>,
    env: Env,
    done: Effects,
    fuel: nat,
) -> Evaluated
    decreases fuel, 3 * rest.len() + 4, elems, 0nat,
{
    if k == at {
        eval_patched(elems[k as int], element, rest, env, done, fuel)
    } else {
        eval_const(elems[k as int], env, done, fuel)
    }
}

/// The first `upto` elements put together, with the one at `at` patched.
pub open spec fn eval_patched_elems(
    elems: Seq<Constant>,
    upto: nat,
    at: nat,
    element: Constant,
    rest: Seq<u32>,
    env: Env,
    done: Effects,
    fuel: nat,
) -> Evaluated
    decreases fuel, 3 * rest.len() + 5, elems, upto,
{
    if upto == 0 || upto > elems.len() {
        (Err(ErrorKind::MalformedInstruction), done)
    } else if upto == 1 {
        eval_patched_elem(elems, 0, at, element, rest, env, done, fuel)
    } else {
        let (acc, after_acc) = eval_patched_elems(
            elems,
            (upto - 1) as nat,
            at,
            element,
            rest,
            env,
            done,
            fuel,
        );
        let (new, after) = eval_patched_elem(
            elems,
            (upto - 1) as nat,
            at,
            element,
            rest,
            env,
            after_acc,
            fuel,
        );
        (combine(acc, new), after)
    }
}

/// The offset in bytes, as a term of `bits` bits, that the indices from
/// position `from` on lead to within a value of type `ty`.
pub open spec fn eval_offset(
    indices: Seq<Constant>,
    from: nat,
    ty: Type,
    bits: nat,
    env: Env,
    done: Effects,
    fuel: nat,
) -> Evaluated
    decreases fuel, 0nat, indices, 2 * (indices.len() - from) + 1,
{
    if from >= indices.len() {
        (Ok(Term::Const { value: 0, width: bits }), done)
    } else {
        let index = indices[from as int];
        match ty {
            Type::Pointer { pointee } => eval_indexed(
                indices,
                from,
                *pointee,
                bits,
                env,
                done,
                fuel,
            ),
            Type::Array { element, .. } => eval_indexed(
                indices,
                from,
                *element,
                bits,
                env,
                done,
                fuel,
            ),
            Type::Vector { element, .. } => eval_indexed(
                indices,
                from,
                *element,
                bits,
                env,
                done,
                fuel,
            ),
            Type::Struct { .. } => eval_field(indices, from, ty, bits, env, done, fuel),
            Type::NamedStruct { ty: Some(inner), .. } => match *inner {
                Type::Struct { .. } => eval_field(indices, from, ty, bits, env, done, fuel),
                _ => (Err(ErrorKind::MalformedInstruction), done),
            },
            _ => (Err(ErrorKind::MalformedInstruction), done),
        }
    }
}

/// The offset for an index into a pointer, an array or a vector with
/// elements of type `element`, and what follows.
pub open spec fn eval_indexed(
    indices: Seq<Constant>,
    from: nat,
    element: Type,
    bits: nat,
    env: Env,
    done: Effects,
    fuel: nat,
) -> Evaluated
    decreases fuel, 0nat, indices, 2 * (indices.len() - from),
    when from < indices.len()
{
    let (index, after_index) = eval_const(indices[from as int], env, done, fuel);
    match index {
        Err(e) => (Err(e), after_index),
        Ok(it) => if it.width() > bits {
            (Err(ErrorKind::MalformedInstruction), after_index)
        } else {
            let wide = if it.width() == bits {
                it
            } else {
                Term::zero_ext((bits - it.width()) as nat, it)
            };
            match element_bytes(element) {
                None => (Err(ErrorKind::MalformedInstruction), after_index),
                Some(bytes) => {
                    let (rest, after) = eval_offset(
                        indices,
                        from + 1,
                        element,
                        bits,
                        env,
                        after_index,
                        fuel,
                    );
                    match rest {
                        Err(e) => (Err(e), after),
                        Ok(rt) => (
                            Ok(Term::bin(BinOp::Add, rt, symbolic_offset(wide, bytes))),
                            after,
                        ),
                    }
                },
            }
        },
    }
}

/// The offset for an index into a struct, which is a constant integer, and
/// what follows.
pub open spec fn eval_field(
    indices: Seq<Constant>,
    from: nat,
    ty: Type,
    bits: nat,
    env: Env,
    done: Effects,
    fuel: nat,
) -> Evaluated
    decreases fuel, 0nat, indices, 2 * (indices.len() - from),
    when from < indices.len()
{
    match indices[from as int] {
        Constant::Int { value, .. } => if value <= usize::MAX {
            match constant_offset(ty, value as usize) {
                None => (Err(ErrorKind::MalformedInstruction), done),
                Some((offset, nested)) => {
                    let (rest, after) = eval_offset(
                        indices,
                        from + 1,
                        nested,
                        bits,
                        env,
                        done,
                        fuel,
                    );
                    match rest {
                        Err(e) => (Err(e), after),
                        Ok(rt) => (
                            Ok(
                                Term::bin(
                                    BinOp::Add,
                                    rt,
                                    Term::Const { value: (offset as nat) % pow2(bits), width: bits },
                                ),
                            ),
                            after,
                        ),
                    }
                },
            }
        } else {
            (Err(ErrorKind::MalformedInstruction), done)
        },
        _ => (Err(ErrorKind::MalformedInstruction), done),
    }
}

/// The globals with those of `ready` marked as initialized.
pub open spec fn marked(globals: Map<NameView, GlobalView>, ready: Set<NameView>) -> Map<
    NameView,
    GlobalView,
> {
    Map::new(
        |id: NameView| globals.contains_key(id),
        |id: NameView|
            match globals[id] {
                GlobalView::Variable { addr, initializer, initialized } => GlobalView::Variable {
                    addr,
                    initializer,
                    initialized: initialized || ready.contains(id),
                },
                other => other,
            },
    )
}

/// The cells after the first `upto` of the writes, under an interpretation.
pub open spec fn apply_writes(
    cells: Map<nat, Seq<bool>>,
    writes: Seq<(Term, Term)>,
    i: Interp,
    upto: nat,
) -> Map<nat, Seq<bool>>
    decreases upto,
{
    if upto == 0 || upto > writes.len() {
        cells
    } else {
        write_value(
            apply_writes(cells, writes, i, (upto - 1) as nat),
            writes[upto - 1].0.number(i),
            writes[upto - 1].1.eval(i),
        )
    }
}

} // verus!
