//! The hooks that stand for the functions of the C allocator: `malloc`,
//! `calloc`, `realloc` and `free`. Each checks the shape of the call and
//! hands the rest to the allocator of the state.

use crate::allocator::reserved_bytes;
use crate::bv::{zero_extend_to_bits, BitVec};
use crate::const_eval::{eval_const, no_effects, Evaluated, MAX_CONST_DEPTH};
use crate::error::{Error, ErrorKind};
use crate::ir::{Call, Operand, Project, Type};
use crate::solver::possible;
use crate::smt::satisfies;
use crate::state::{answers, env_of, pointer_to, tracks, State, StateView};
use crate::term::{numeral_of, BinOp, Formula, Interp, Term};
use vstd::prelude::*;

verus! {

/// What a call gives back.
pub enum ReturnValue<V> {
    /// The value that the call returns.
    Return(V),
    /// The call returns nothing.
    ReturnVoid,
}

/// Whether `n` is the size that a symbolic size counts for: its value where
/// it is a numeral, else the greatest value it can have under `frames`.
pub open spec fn counts_for(frames: Seq<Seq<Formula>>, size: Term, n: u64) -> bool {
    match numeral_of(size) {
        Some(v) => n == v,
        None => possible(frames, size, n as nat) && forall|u: nat|
            possible(frames, size, u) ==> u <= n,
    }
}

/// Whether `m` can come of asking what a size counts for. A numeral always
/// has its value. Of any other size the solver is asked: one wider than 64
/// bits is an `OtherError`, one that can have no value is `Unsat`, and the
/// solver may give up.
pub open spec fn sized(frames: Seq<Seq<Formula>>, size: Term, m: Result<u64, ErrorKind>) -> bool {
    match m {
        Ok(n) => counts_for(frames, size, n),
        Err(k) => numeral_of(size) is None && match k {
            ErrorKind::OtherError => size.width() > 64,
            ErrorKind::Unsat => size.width() <= 64 && !exists|i: Interp| satisfies(frames, i),
            ErrorKind::SolverError => size.width() <= 64,
            _ => false,
        },
    }
}

/// Whether the state `s` has room for `bytes` more bytes.
pub open spec fn has_room(s: StateView, bytes: u64) -> bool {
    bytes * 8 <= u64::MAX && s.cursor + reserved_bytes((bytes * 8) as u64) <= u64::MAX
}

/// The state after `bits` bits were allocated in the state `s`.
pub open spec fn allocated(s: StateView, bits: u64) -> StateView {
    StateView {
        cursor: (s.cursor + reserved_bytes(bits)) as u64,
        allocations: s.allocations.push((s.cursor, bits)),
        ..s
    }
}

/// Whether `r` and the state `after` are what comes of allocating for the
/// size `m` in the state `mid`. A failure to find the size is handed on.
/// A size for which there is room is allocated at the cursor. For any other
/// size the result is an `OtherError`. Every failure leaves the state as it
/// was.
pub open spec fn placed<'ctx>(
    mid: StateView,
    m: Result<u64, ErrorKind>,
    r: Result<BitVec<'ctx>, Error>,
    after: StateView,
) -> bool {
    match m {
        Ok(bytes) => match r {
            Ok(addr) => {
                &&& has_room(mid, bytes)
                &&& addr@ == pointer_to(mid.cursor)
                &&& after == allocated(mid, (bytes * 8) as u64)
            },
            Err(e) => {
                &&& !has_room(mid, bytes)
                &&& e.kind() == ErrorKind::OtherError
                &&& after == mid
            },
        },
        Err(k) => r is Err && r->Err_0.kind() == k && after == mid,
    }
}

/// The size in bytes that a symbolic size counts for. Fails with
/// `OtherError` where the size is no numeral and wider than 64 bits, with
/// `Unsat` where it can have no value.
pub fn concrete_size<'p, 'ctx>(state: &mut State<'p, 'ctx>, size: &BitVec<'ctx>) -> (r: Result<
    u64,
    Error,
>)
    requires
        old(state).wf(),
        size.home() == old(state).home(),
    ensures
        final(state).wf(),
        final(state).home() == old(state).home(),
        final(state)@ == old(state)@,
        match r {
            Ok(n) => sized(old(state)@.frames, size@, Ok(n)),
            Err(e) => sized(old(state)@.frames, size@, Err(e.kind())),
        },
{
    match size.as_u64() {
        Some(n) => Ok(n),
        None => {
            if size.get_width() > 64 {
                return Err(Error::other("a size is wider than 64 bits"));
            }
            match state.max_possible_solution_for_bv(size) {
                Ok(Some(n)) => Ok(n),
                Ok(None) => Err(Error::Unsat),
                Err(_) => Err(Error::solver("the solver gave no greatest size")),
            }
        },
    }
}

/// Allocates `bytes` bytes. Fails with `OtherError`, and changes nothing,
/// where that many bytes have more bits than fit 64 bits or do not fit the
/// address space.
pub fn allocate_bytes<'p, 'ctx>(state: &mut State<'p, 'ctx>, bytes: u64) -> (r: Result<
    BitVec<'ctx>,
    Error,
>)
    requires
        old(state).wf(),
    ensures
        final(state).wf(),
        final(state).home() == old(state).home(),
        r matches Ok(addr) ==> addr.home() == old(state).home(),
        placed(old(state)@, Ok(bytes), r, final(state)@),
{
    match bytes.checked_mul(8) {
        None => Err(Error::other("an allocation is too large")),
        Some(bits) => {
            if state.can_allocate(bits) {
                Ok(state.allocate(bits))
            } else {
                Err(Error::other("the address space is used up"))
            }
        },
    }
}

/// What an operand stands for in the state `s`, or the kind of the failure
/// to say so, and what finding it does: the value of a constant, what a
/// local name is bound to in the current function, and nothing for
/// metadata.
pub open spec fn operand_value(s: StateView, op: Operand) -> Evaluated {
    match op {
        Operand::ConstantOperand(c) => eval_const(
            c,
            env_of(s),
            no_effects(),
            MAX_CONST_DEPTH as nat,
        ),
        Operand::LocalOperand { name, .. } => (
            Ok(s.vars[(s.cur_loc.func.name@, name@)].0),
            no_effects(),
        ),
        Operand::MetadataOperand => (Err(ErrorKind::MalformedInstruction), no_effects()),
    }
}

/// Whether `mid` is the state `before` after the operand was evaluated:
/// what the evaluation of a constant did is done, and nothing else has
/// changed.
pub open spec fn evaluated(before: StateView, op: Operand, mid: StateView) -> bool {
    match op {
        Operand::ConstantOperand(_) => tracks(before, operand_value(before, op).1, mid),
        _ => mid == before,
    }
}

/// Whether a name that the operand holds is bound in the current function.
pub open spec fn is_bound_in(s: StateView, op: Operand) -> bool {
    op matches Operand::LocalOperand { name, .. } ==> s.vars.contains_key(
        (s.cur_loc.func.name@, name@),
    )
}

/// What an allocation for a term that holds a size in bytes does in the
/// state `mid`.
pub open spec fn allocation_of<'ctx>(
    mid: StateView,
    size: Term,
    r: Result<BitVec<'ctx>, Error>,
    after: StateView,
) -> bool {
    exists|m: Result<u64, ErrorKind>| #[trigger] sized(mid.frames, size, m) && placed(mid, m, r, after)
}

/// What an allocation for an operand that holds a size in bytes does: the
/// operand is evaluated, and what its value counts for is allocated. Where
/// the operand has no value, the failure is handed on.
pub open spec fn sized_allocation<'ctx>(
    before: StateView,
    size: Operand,
    r: Result<BitVec<'ctx>, Error>,
    after: StateView,
) -> bool {
    match operand_value(before, size).0 {
        Ok(t) => exists|mid: StateView| #[trigger]
            evaluated(before, size, mid) && allocation_of(mid, t, r, after),
        Err(k) => r is Err && r->Err_0.kind() == k && evaluated(before, size, after),
    }
}

/// Evaluates an operand and says what it evaluated to.
fn evaluate<'p, 'ctx>(state: &mut State<'p, 'ctx>, op: &Operand) -> (r: Result<BitVec<'ctx>, Error>)
    requires
        old(state).wf(),
        is_bound_in(old(state)@, *op),
    ensures
        final(state).wf(),
        final(state).home() == old(state).home(),
        answers(r, operand_value(old(state)@, *op).0, old(state).home()),
        evaluated(old(state)@, *op, final(state)@),
{
    state.operand_to_bv(op)
}

/// Allocates as many bytes as the operand says and returns a pointer to
/// them.
pub fn malloc<'p, 'ctx>(state: &mut State<'p, 'ctx>, num_bytes: &Operand) -> (r: Result<
    BitVec<'ctx>,
    Error,
>)
    requires
        old(state).wf(),
        is_bound_in(old(state)@, *num_bytes),
    ensures
        final(state).wf(),
        final(state).home() == old(state).home(),
        r matches Ok(addr) ==> addr.home() == old(state).home(),
        sized_allocation(old(state)@, *num_bytes, r, final(state)@),
{
    let size = match evaluate(state, num_bytes) {
        Ok(size) => size,
        Err(e) => {
            return Err(e);
        },
    };
    let ghost mid = state@;
    let r = match concrete_size(state, &size) {
        Ok(bytes) => {
            let r = allocate_bytes(state, bytes);
            proof {
                assert(sized(mid.frames, size@, Ok(bytes)));
            }
            r
        },
        Err(e) => {
            proof {
                assert(sized(mid.frames, size@, Err(e.kind())));
            }
            Err(e)
        },
    };
    proof {
        assert(allocation_of(mid, size@, r, state@));
        assert(evaluated(old(state)@, *num_bytes, mid));
    }
    r
}

/// An allocation for a size that is a numeral succeeds wherever there is
/// room for it, and fails wherever there is none.
pub proof fn lemma_numeral_allocation<'ctx>(
    mid: StateView,
    size: Term,
    r: Result<BitVec<'ctx>, Error>,
    after: StateView,
)
    requires
        allocation_of(mid, size, r, after),
        numeral_of(size) is Some,
    ensures
        r is Ok <==> has_room(mid, numeral_of(size)->Some_0),
        r is Ok ==> r->Ok_0@ == pointer_to(mid.cursor) && after == allocated(
            mid,
            (numeral_of(size)->Some_0 * 8) as u64,
        ),
        r is Err ==> r->Err_0.kind() == ErrorKind::OtherError && after == mid,
{
}

/// Whether `r` is a failure of the kind `OtherError` that left the state as
/// it was.
pub open spec fn refused<'ctx>(
    before: StateView,
    r: Result<ReturnValue<BitVec<'ctx>>, Error>,
    after: StateView,
) -> bool {
    r is Err && r->Err_0.kind() == ErrorKind::OtherError && after == before
}

/// The hook for `malloc`: the one argument is an integer, the result a
/// pointer. Fails with `OtherError`, and does nothing, where the call has
/// another shape. The call has one argument.
pub fn malloc_hook<'p, 'ctx>(_proj: &Project, state: &mut State<'p, 'ctx>, call: &Call) -> (r:
    Result<ReturnValue<BitVec<'ctx>>, Error>)
    requires
        old(state).wf(),
        call.arguments@.len() == 1,
        is_bound_in(old(state)@, call.arguments@[0].0),
    ensures
        final(state).wf(),
        final(state).home() == old(state).home(),
        if call.arguments@[0].1 is Integer && call.return_type is Pointer {
            match r {
                Ok(v) => v matches ReturnValue::Return(addr) && addr.home() == old(state).home()
                    && sized_allocation(
                    old(state)@,
                    call.arguments@[0].0,
                    Ok::<BitVec<'ctx>, Error>(addr),
                    final(state)@,
                ),
                Err(e) => sized_allocation(
                    old(state)@,
                    call.arguments@[0].0,
                    Err::<BitVec<'ctx>, Error>(e),
                    final(state)@,
                ),
            }
        } else {
            refused(old(state)@, r, final(state)@)
        },
{
    let bytes = &call.arguments[0].0;
    match &call.arguments[0].1 {
        Type::Integer { .. } => {},
        _ => {
            return Err(Error::other("malloc_hook: expected argument to have integer type"));
        },
    }
    match &call.return_type {
        Type::Pointer { .. } => {},
        _ => {
            return Err(Error::other("malloc_hook: expected return type to be a pointer type"));
        },
    }
    match malloc(state, bytes) {
        Ok(addr) => Ok(ReturnValue::Return(addr)),
        Err(e) => Err(e),
    }
}

/// A term made as wide as `bits` bits with zero bits above it.
pub open spec fn widened(t: Term, bits: nat) -> Term {
    if t.width() == bits {
        t
    } else {
        Term::zero_ext((bits - t.width()) as nat, t)
    }
}

/// The product of two terms, each made as wide as the wider of the two.
pub open spec fn product_term(a: Term, b: Term) -> Term {
    let bits = if a.width() >= b.width() {
        a.width()
    } else {
        b.width()
    };
    Term::bin(BinOp::Mul, widened(a, bits), widened(b, bits))
}

/// Whether `m` can come of asking what the product of two sizes counts for.
/// The product of two numerals is their product as numbers, and an
/// `OtherError` where that does not fit 64 bits; of other terms it is what
/// the product of the two counts for.
pub open spec fn product_sized(
    frames: Seq<Seq<Formula>>,
    a: Term,
    b: Term,
    m: Result<u64, ErrorKind>,
) -> bool {
    match (numeral_of(a), numeral_of(b)) {
        (Some(x), Some(y)) => if x * y <= u64::MAX {
            m == Ok::<u64, ErrorKind>((x * y) as u64)
        } else {
            m == Err::<u64, ErrorKind>(ErrorKind::OtherError)
        },
        _ => sized(frames, product_term(a, b), m),
    }
}

/// What an allocation for two terms that hold a count and a size in bytes
/// does in the state `mid`.
pub open spec fn product_allocation_of<'ctx>(
    mid: StateView,
    num: Term,
    size: Term,
    r: Result<BitVec<'ctx>, Error>,
    after: StateView,
) -> bool {
    exists|m: Result<u64, ErrorKind>| #[trigger]
        product_sized(mid.frames, num, size, m) && placed(mid, m, r, after)
}

/// What is left of an allocation for a count and a size once the count has
/// the value `num`: the size is evaluated in the state `mid`, and what the
/// product counts for is allocated.
pub open spec fn counted_from<'ctx>(
    mid: StateView,
    num: Term,
    size: Operand,
    r: Result<BitVec<'ctx>, Error>,
    after: StateView,
) -> bool {
    match operand_value(mid, size).0 {
        Ok(t) => exists|last: StateView| #[trigger]
            evaluated(mid, size, last) && product_allocation_of(last, num, t, r, after),
        Err(k) => r is Err && r->Err_0.kind() == k && evaluated(mid, size, after),
    }
}

/// What an allocation for two operands that hold a count and a size in
/// bytes does: the count is evaluated, then the size, and what their
/// product counts for is allocated. Where an operand has no value, the
/// failure is handed on.
pub open spec fn counted_allocation<'ctx>(
    before: StateView,
    num: Operand,
    size: Operand,
    r: Result<BitVec<'ctx>, Error>,
    after: StateView,
) -> bool {
    match operand_value(before, num).0 {
        Ok(t) => exists|mid: StateView| #[trigger]
            evaluated(before, num, mid) && counted_from(mid, t, size, r, after),
        Err(k) => r is Err && r->Err_0.kind() == k && evaluated(before, num, after),
    }
}

/// Allocates as many bytes as the product of the two operands says and
/// returns a pointer to them.
pub fn calloc<'p, 'ctx>(state: &mut State<'p, 'ctx>, num: &Operand, size: &Operand) -> (r: Result<
    BitVec<'ctx>,
    Error,
>)
    requires
        old(state).wf(),
        is_bound_in(old(state)@, *num),
        is_bound_in(old(state)@, *size),
    ensures
        final(state).wf(),
        final(state).home() == old(state).home(),
        r matches Ok(addr) ==> addr.home() == old(state).home(),
        counted_allocation(old(state)@, *num, *size, r, final(state)@),
{
    let n = match evaluate(state, num) {
        Ok(n) => n,
        Err(e) => {
            return Err(e);
        },
    };
    let ghost mid = state@;
    proof {
        lemma_vars_kept(old(state)@, *num, mid);
    }
    let s = match evaluate(state, size) {
        Ok(s) => s,
        Err(e) => {
            proof {
                assert(counted_from(mid, n@, *size, Err::<BitVec<'ctx>, Error>(e), state@));
            }
            return Err(e);
        },
    };
    let ghost last = state@;
    let r = match product_size(state, &n, &s) {
        Ok(bytes) => {
            let r = allocate_bytes(state, bytes);
            proof {
                assert(product_sized(last.frames, n@, s@, Ok(bytes)));
            }
            r
        },
        Err(e) => {
            proof {
                assert(product_sized(last.frames, n@, s@, Err(e.kind())));
            }
            Err(e)
        },
    };
    proof {
        assert(product_allocation_of(last, n@, s@, r, state@));
        assert(evaluated(mid, *size, last));
        assert(counted_from(mid, n@, *size, r, state@));
        assert(evaluated(old(state)@, *num, mid));
    }
    r
}

/// The size in bytes that the product of two sizes counts for.
fn product_size<'p, 'ctx>(state: &mut State<'p, 'ctx>, n: &BitVec<'ctx>, s: &BitVec<'ctx>) -> (r:
    Result<u64, Error>)
    requires
        old(state).wf(),
        n.home() == old(state).home(),
        s.home() == old(state).home(),
    ensures
        final(state).wf(),
        final(state).home() == old(state).home(),
        final(state)@ == old(state)@,
        match r {
            Ok(bytes) => product_sized(old(state)@.frames, n@, s@, Ok(bytes)),
            Err(e) => product_sized(old(state)@.frames, n@, s@, Err(e.kind())),
        },
{
    match (n.as_u64(), s.as_u64()) {
        (Some(x), Some(y)) => match x.checked_mul(y) {
            Some(bytes) => Ok(bytes),
            None => Err(Error::other("calloc: the product of the sizes is too large")),
        },
        _ => {
            let wn = n.get_width();
            let ws = s.get_width();
            let bits = if wn >= ws {
                wn
            } else {
                ws
            };
            let product = zero_extend_to_bits(n.clone(), bits).mul(&zero_extend_to_bits(s.clone(), bits));
            concrete_size(state, &product)
        },
    }
}

/// An evaluation leaves the bindings, the current place, what is asserted
/// and what is allocated as they are.
pub proof fn lemma_vars_kept(before: StateView, op: Operand, mid: StateView)
    requires
        evaluated(before, op, mid),
    ensures
        mid.vars == before.vars,
        mid.cur_loc == before.cur_loc,
        mid.frames == before.frames,
        mid.cursor == before.cursor,
        mid.allocations == before.allocations,
{
}

/// The hook for `calloc`: both arguments are integers, the result a
/// pointer. Fails with `OtherError`, and does nothing, where the call has
/// another shape. The call has two arguments.
pub fn calloc_hook<'p, 'ctx>(_proj: &Project, state: &mut State<'p, 'ctx>, call: &Call) -> (r:
    Result<ReturnValue<BitVec<'ctx>>, Error>)
    requires
        old(state).wf(),
        call.arguments@.len() == 2,
        is_bound_in(old(state)@, call.arguments@[0].0),
        is_bound_in(old(state)@, call.arguments@[1].0),
    ensures
        final(state).wf(),
        final(state).home() == old(state).home(),
        if call.arguments@[0].1 is Integer && call.arguments@[1].1 is Integer && call.return_type
            is Pointer {
            match r {
                Ok(v) => v matches ReturnValue::Return(addr) && addr.home() == old(state).home()
                    && counted_allocation(
                    old(state)@,
                    call.arguments@[0].0,
                    call.arguments@[1].0,
                    Ok::<BitVec<'ctx>, Error>(addr),
                    final(state)@,
                ),
                Err(e) => counted_allocation(
                    old(state)@,
                    call.arguments@[0].0,
                    call.arguments@[1].0,
                    Err::<BitVec<'ctx>, Error>(e),
                    final(state)@,
                ),
            }
        } else {
            refused(old(state)@, r, final(state)@)
        },
{
    let num = &call.arguments[0].0;
    let size = &call.arguments[1].0;
    match &call.arguments[0].1 {
        Type::Integer { .. } => {},
        _ => {
            return Err(Error::other("calloc_hook: expected first argument to have integer type"));
        },
    }
    match &call.arguments[1].1 {
        Type::Integer { .. } => {},
        _ => {
            return Err(Error::other("calloc_hook: expected second argument to have integer type"));
        },
    }
    match &call.return_type {
        Type::Pointer { .. } => {},
        _ => {
            return Err(Error::other("calloc_hook: expected return type to be a pointer type"));
        },
    }
    match calloc(state, num, size) {
        Ok(addr) => Ok(ReturnValue::Return(addr)),
        Err(e) => Err(e),
    }
}

/// The hook for `free`: nothing happens, since no address is ever used
/// again.
pub fn free_hook<'p, 'ctx>(_proj: &Project, state: &mut State<'p, 'ctx>, call: &Call) -> (r:
    Result<ReturnValue<BitVec<'ctx>>, Error>)
    ensures
        *final(state) == *old(state),
        r matches Ok(ReturnValue::ReturnVoid),
{
    Ok(ReturnValue::ReturnVoid)
}

/// Allocates as many bytes as the second operand says and returns a
/// pointer to them. What the first operand points to is neither read nor
/// copied: the new bytes hold what memory held there before.
pub fn realloc<'p, 'ctx>(state: &mut State<'p, 'ctx>, addr: &Operand, new_size: &Operand) -> (r:
    Result<BitVec<'ctx>, Error>)
    requires
        old(state).wf(),
        is_bound_in(old(state)@, *new_size),
    ensures
        final(state).wf(),
        final(state).home() == old(state).home(),
        r matches Ok(addr) ==> addr.home() == old(state).home(),
        sized_allocation(old(state)@, *new_size, r, final(state)@),
{
    malloc(state, new_size)
}

/// The hook for `realloc`: the first argument is a pointer, the second an
/// integer, the result a pointer. Fails with `OtherError`, and does
/// nothing, where the call has another shape. The call has two arguments.
pub fn realloc_hook<'p, 'ctx>(_proj: &Project, state: &mut State<'p, 'ctx>, call: &Call) -> (r:
    Result<ReturnValue<BitVec<'ctx>>, Error>)
    requires
        old(state).wf(),
        call.arguments@.len() == 2,
        is_bound_in(old(state)@, call.arguments@[1].0),
    ensures
        final(state).wf(),
        final(state).home() == old(state).home(),
        if call.arguments@[0].1 is Pointer && call.arguments@[1].1 is Integer && call.return_type
            is Pointer {
            match r {
                Ok(v) => v matches ReturnValue::Return(addr) && addr.home() == old(state).home()
                    && sized_allocation(
                    old(state)@,
                    call.arguments@[1].0,
                    Ok::<BitVec<'ctx>, Error>(addr),
                    final(state)@,
                ),
                Err(e) => sized_allocation(
                    old(state)@,
                    call.arguments@[1].0,
                    Err::<BitVec<'ctx>, Error>(e),
                    final(state)@,
                ),
            }
        } else {
            refused(old(state)@, r, final(state)@)
        },
{
    let addr = &call.arguments[0].0;
    let new_size = &call.arguments[1].0;
    match &call.arguments[0].1 {
        Type::Pointer { .. } => {},
        _ => {
            return Err(Error::other("realloc_hook: expected first argument to be a pointer type"));
        },
    }
    match &call.arguments[1].1 {
        Type::Integer { .. } => {},
        _ => {
            return Err(
                Error::other("realloc_hook: expected second argument to be an integer type"),
            );
        },
    }
    match &call.return_type {
        Type::Pointer { .. } => {},
        _ => {
            return Err(Error::other("realloc_hook: expected return type to be a pointer type"));
        },
    }
    match realloc(state, addr, new_size) {
        Ok(addr) => Ok(ReturnValue::Return(addr)),
        Err(e) => Err(e),
    }
}

} // verus!
