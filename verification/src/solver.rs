//! The solver as the execution state uses it: a stack of asserted formulas
//! with checkpoints, satisfiability, and solutions read from models.

use crate::bv::{means, BitVec, Cond};
use crate::error::{Error, ErrorKind};
use crate::smt::{
    all_hold, context_id, context_makes_models, context_with_models, model_eval, satisfies,
    solver_divides,
    solver_assert, solver_check, solver_frames,
    solver_get_model, solver_has_model, solver_home, solver_new, solver_pop, solver_push, Verdict,
};
use crate::term::{holds, Formula, Interp, Relation, Term};
use vstd::arithmetic::power2::pow2;
use vstd::prelude::*;

verus! {

/// The formulas that a stack of handles stands for.
pub open spec fn formulas_of<'ctx>(frames: Seq<Vec<Cond<'ctx>>>) -> Seq<Seq<Formula>> {
    Seq::new(frames.len(), |l: int| Seq::new(frames[l]@.len(), |k: int| frames[l]@[k]@))
}

/// The formulas that the solver holds for a stack of handles.
pub open spec fn held_of<'ctx>(frames: Seq<Vec<Cond<'ctx>>>) -> Seq<Seq<Formula>> {
    Seq::new(frames.len(), |l: int| Seq::new(frames[l]@.len(), |k: int| frames[l]@[k].held()))
}

/// The stack with `f` asserted at its top level.
pub open spec fn asserted(frames: Seq<Seq<Formula>>, f: Formula) -> Seq<Seq<Formula>> {
    frames.update(frames.len() - 1, frames.last().push(f))
}

/// After an assertion, what held before must hold, and the new formula too.
pub proof fn lemma_satisfies_asserted(frames: Seq<Seq<Formula>>, f: Formula, i: Interp)
    requires
        frames.len() > 0,
    ensures
        satisfies(asserted(frames, f), i) == (satisfies(frames, i) && f.eval(i)),
{
    let after = asserted(frames, f);
    let top = frames.len() - 1;
    if satisfies(frames, i) && f.eval(i) {
        assert forall|l: int| 0 <= l < after.len() implies all_hold(#[trigger] after[l], i) by {
            if l < top {
                assert(after[l] == frames[l]);
            } else {
                assert(all_hold(frames[top], i));
                assert forall|k: int| 0 <= k < after[l].len() implies (#[trigger] after[l][k]).eval(
                    i,
                ) by {
                    if k < frames[top].len() {
                        assert(after[l][k] == frames[top][k]);
                    }
                }
            }
        }
    }
    if satisfies(after, i) {
        assert(all_hold(after[top], i));
        assert(after[top][frames[top].len() as int] == f);
        assert forall|l: int| 0 <= l < frames.len() implies all_hold(#[trigger] frames[l], i) by {
            if l < top {
                assert(after[l] == frames[l]);
            } else {
                assert forall|k: int| 0 <= k < frames[l].len() implies (
                #[trigger] frames[l][k]).eval(i) by {
                    assert(after[top][k] == frames[top][k]);
                }
            }
        }
    }
}

/// A new context for symbolic values and solvers, one that makes models:
/// a solver in it can say which values satisfy what is asserted.
pub fn new_context() -> (r: z3::Context)
    ensures
        context_makes_models(r),
{
    context_with_models()
}

/// Whether a question for values of a vector of `width` bits can fail
/// with an error of the kind `k`: with `SolverError` where the solver gives
/// no answer, with `OtherError` where a value does not fit 64 bits.
pub open spec fn query_failure(k: ErrorKind, width: nat) -> bool {
    k == ErrorKind::SolverError || (k == ErrorKind::OtherError && width > 64)
}

/// A solver with its stack of assertions.
pub struct Facade<'ctx> {
    ctx: &'ctx z3::Context,
    solver: z3::Solver<'ctx>,
    frames: Vec<Vec<Cond<'ctx>>>,
}

impl<'ctx> Facade<'ctx> {
    /// What is asserted, level by level, the base level first: the
    /// formulas as they were made. The solver holds one for each that
    /// stands for it.
    pub closed spec fn view(&self) -> Seq<Seq<Formula>> {
        formulas_of(self.frames@)
    }

    /// The context that this solver belongs to.
    pub closed spec fn home(&self) -> int {
        context_id(*self.ctx)
    }

    /// The solver holds what this value records, and there is a base level.
    pub closed spec fn wf(&self) -> bool {
        &&& solver_home(self.solver) == context_id(*self.ctx)
        &&& context_makes_models(*self.ctx)
        &&& held_of(self.frames@) == solver_frames(self.solver)
        &&& self.frames@.len() > 0
        &&& forall|l: int, k: int|
            0 <= l < self.frames@.len() && 0 <= k < self.frames@[l]@.len() ==> (
            #[trigger] self.frames@[l]@[k]).home() == context_id(*self.ctx) && means(
                self.frames@[l]@[k].held(),
                self.frames@[l]@[k]@,
            )
    }

    /// What the solver holds is true exactly where what is asserted is.
    proof fn lemma_meaning(&self)
        requires
            self.wf(),
        ensures
            forall|i: Interp| #[trigger]
                satisfies(solver_frames(self.solver), i) == satisfies(self@, i),
    {
        let held = held_of(self.frames@);
        let made = formulas_of(self.frames@);
        assert forall|i: Interp| #[trigger] satisfies(held, i) == satisfies(made, i) by {
            if solver_divides(i) {
                assert forall|l: int, k: int|
                    0 <= l < held.len() && 0 <= k < held[l].len() implies (
                #[trigger] held[l][k]).eval(i) == made[l][k].eval(i) by {
                    let c = self.frames@[l]@[k];
                    assert(means(c.held(), c@));
                    assert(c.held().eval(i) == c@.eval(i));
                }
                if satisfies(held, i) {
                    assert forall|l: int| 0 <= l < made.len() implies all_hold(
                        #[trigger] made[l],
                        i,
                    ) by {
                        assert(all_hold(held[l], i));
                        assert forall|k: int| 0 <= k < made[l].len() implies (
                        #[trigger] made[l][k]).eval(i) by {
                            assert(held[l][k].eval(i));
                        }
                    }
                }
                if satisfies(made, i) {
                    assert forall|l: int| 0 <= l < held.len() implies all_hold(
                        #[trigger] held[l],
                        i,
                    ) by {
                        assert(all_hold(made[l], i));
                        assert forall|k: int| 0 <= k < held[l].len() implies (
                        #[trigger] held[l][k]).eval(i) by {
                            assert(made[l][k].eval(i));
                        }
                    }
                }
            }
        }
    }

    /// Whether some interpretation makes all that is asserted true, one
    /// that divides by zero as the solver does.
    pub open spec fn satisfiable(&self) -> bool {
        exists|i: Interp| satisfies(self@, i)
    }

    /// The number of checkpoints that can be popped.
    pub open spec fn depth(&self) -> nat {
        (self@.len() - 1) as nat
    }

    /// A solver with nothing asserted, in a context that makes models.
    pub fn new(ctx: &'ctx z3::Context) -> (r: Facade<'ctx>)
        requires
            context_makes_models(*ctx),
        ensures
            r.wf(),
            r.home() == context_id(*ctx),
            r@ == seq![Seq::<Formula>::empty()],
    {
        let solver = solver_new(ctx);
        let mut frames: Vec<Vec<Cond<'ctx>>> = Vec::new();
        frames.push(Vec::new());
        assert(formulas_of(frames@) =~~= seq![Seq::<Formula>::empty()]);
        assert(held_of(frames@) =~~= seq![Seq::<Formula>::empty()]);
        Facade { ctx, solver, frames }
    }

    /// Asserts a formula at the top level.
    pub fn assert_cond(&mut self, c: &Cond<'ctx>)
        requires
            old(self).wf(),
            c.home() == old(self).home(),
        ensures
            final(self).wf(),
            final(self).home() == old(self).home(),
            final(self)@ == asserted(old(self)@, c@),
    {
        solver_assert(&mut self.solver, c.handle());
        let ghost before = self.frames@;
        let mut top = self.frames.pop().unwrap();
        top.push(c.clone());
        self.frames.push(top);
        proof {
            assert(formulas_of(self.frames@) =~~= asserted(formulas_of(before), c@));
            assert(held_of(self.frames@) =~~= asserted(held_of(before), c.held()));
            assert forall|l: int, k: int|
                0 <= l < self.frames@.len() && 0 <= k < self.frames@[l]@.len() implies (
                #[trigger] self.frames@[l]@[k]).home() == context_id(*self.ctx) && means(
                self.frames@[l]@[k].held(),
                self.frames@[l]@[k]@,
            ) by {
                if l < before.len() - 1 {
                    assert(self.frames@[l] == before[l]);
                } else if k < before[l]@.len() {
                    assert(self.frames@[l]@[k] == before[l]@[k]);
                }
            }
        }
    }

    /// Asserts that a vector of width one holds the bit `1`.
    pub fn assert_bv(&mut self, bv: &BitVec<'ctx>)
        requires
            old(self).wf(),
            bv.home() == old(self).home(),
            bv.width() == 1,
        ensures
            final(self).wf(),
            final(self).home() == old(self).home(),
            final(self)@ == asserted(old(self)@, holds(bv@)),
    {
        let c = bv.holds();
        self.assert_cond(&c);
    }

    /// Sets a checkpoint: a new, empty level on top.
    pub fn push(&mut self)
        requires
            old(self).wf(),
        ensures
            final(self).wf(),
            final(self).home() == old(self).home(),
            final(self)@ == old(self)@.push(Seq::empty()),
    {
        solver_push(&mut self.solver);
        self.frames.push(Vec::new());
        proof {
            assert(formulas_of(self.frames@) =~~= formulas_of(old(self).frames@).push(Seq::empty()));
            assert(held_of(self.frames@) =~~= held_of(old(self).frames@).push(Seq::empty()));
            assert forall|l: int, k: int|
                0 <= l < self.frames@.len() && 0 <= k < self.frames@[l]@.len() implies (
                #[trigger] self.frames@[l]@[k]).home() == context_id(*self.ctx) && means(
                self.frames@[l]@[k].held(),
                self.frames@[l]@[k]@,
            ) by {
                if l < old(self).frames@.len() {
                    assert(self.frames@[l] == old(self).frames@[l]);
                }
            }
        }
    }

    /// Goes back to the last checkpoint: the top level leaves with all it
    /// holds.
    pub fn pop(&mut self)
        requires
            old(self).wf(),
            old(self).depth() > 0,
        ensures
            final(self).wf(),
            final(self).home() == old(self).home(),
            final(self)@ == old(self)@.drop_last(),
    {
        solver_pop(&mut self.solver, 1);
        self.frames.pop();
        proof {
            assert(formulas_of(self.frames@) =~~= formulas_of(old(self).frames@).drop_last());
            assert(held_of(self.frames@) =~~= held_of(old(self).frames@).drop_last());
            assert forall|l: int, k: int|
                0 <= l < self.frames@.len() && 0 <= k < self.frames@[l]@.len() implies (
                #[trigger] self.frames@[l]@[k]).home() == context_id(*self.ctx) && means(
                self.frames@[l]@[k].held(),
                self.frames@[l]@[k]@,
            ) by {
                assert(self.frames@[l] == old(self).frames@[l]);
            }
        }
    }

    /// Asks the solver whether what is asserted can hold.
    pub fn check(&mut self) -> (r: Verdict)
        requires
            old(self).wf(),
        ensures
            final(self).wf(),
            final(self).home() == old(self).home(),
            final(self)@ == old(self)@,
            r == Verdict::Sat ==> final(self).satisfiable(),
            r == Verdict::Unsat ==> !final(self).satisfiable(),
            final(self).has_model() == (r == Verdict::Sat),
    {
        let r = solver_check(self.ctx, &mut self.solver);
        proof {
            self.lemma_meaning();
            if r == Verdict::Sat {
                let i = choose|i: Interp| satisfies(solver_frames(self.solver), i);
                assert(satisfies(self@, i));
            }
            if r == Verdict::Unsat {
                assert forall|i: Interp| !satisfies(self@, i) by {
                    assert(!satisfies(solver_frames(self.solver), i));
                }
            }
        }
        r
    }

    /// Whether the last check said `Sat` and nothing changed since.
    pub closed spec fn has_model(&self) -> bool {
        solver_has_model(self.solver)
    }

    /// A solver of its own that holds the same assertions at the same levels.
    pub fn duplicate(&self) -> (r: Facade<'ctx>)
        requires
            self.wf(),
        ensures
            r.wf(),
            r.home() == self.home(),
            r@ == self@,
    {
        let mut copy = Facade::new(self.ctx);
        let mut l: usize = 0;
        while l < self.frames.len()
            invariant
                self.wf(),
                copy.wf(),
                copy.home() == self.home(),
                0 <= l <= self.frames@.len(),
                l == 0 ==> copy@ == seq![Seq::<Formula>::empty()],
                l > 0 ==> copy@ == formulas_of(self.frames@).subrange(0, l as int),
            decreases self.frames@.len() - l,
        {
            if l > 0 {
                copy.push();
            }
            let ghost base = copy@;
            let frame = &self.frames[l];
            let mut k: usize = 0;
            proof {
                assert(base.len() == l + 1);
                assert(base.last() =~= Seq::<Formula>::empty());
                assert(copy@ =~~= base.update(l as int, Seq::new(0, |m: int| frame@[m]@)));
            }
            while k < frame.len()
                invariant
                    self.wf(),
                    copy.wf(),
                    copy.home() == self.home(),
                    0 <= l < self.frames@.len(),
                    *frame == self.frames@[l as int],
                    0 <= k <= frame@.len(),
                    base.len() == l + 1,
                    base.last() == Seq::<Formula>::empty(),
                    copy@ == base.update(
                        l as int,
                        Seq::new(k as nat, |m: int| frame@[m]@),
                    ),
                decreases frame@.len() - k,
            {
                copy.assert_cond(&frame[k]);
                proof {
                    assert(copy@ =~~= base.update(
                        l as int,
                        Seq::new((k + 1) as nat, |m: int| frame@[m]@),
                    ));
                }
                k = k + 1;
            }
            proof {
                assert(copy@ =~~= formulas_of(self.frames@).subrange(0, l + 1));
            }
            l = l + 1;
        }
        proof {
            assert(formulas_of(self.frames@).subrange(0, l as int) =~= formulas_of(self.frames@));
        }
        copy
    }

    /// Whether what is asserted can hold.
    pub fn sat(&mut self) -> (r: Result<bool, Error>)
        requires
            old(self).wf(),
        ensures
            final(self).wf(),
            final(self).home() == old(self).home(),
            final(self)@ == old(self)@,
            match r {
                Ok(b) => b == final(self).satisfiable(),
                Err(e) => e.kind() == ErrorKind::SolverError,
            },
    {
        let verdict = self.check();
        sat_from_verdict(verdict)
    }

    /// The value that the model of the last check gives to `bv`.
    fn model_value(&self, bv: &BitVec<'ctx>) -> (r: Result<u64, Error>)
        requires
            self.wf(),
            self.has_model(),
            bv.home() == self.home(),
        ensures
            match r {
                Ok(v) => possible(self@, bv@, v as nat),
                Err(e) => query_failure(e.kind(), bv.width()),
            },
    {
        let model = solver_get_model(&self.solver);
        let held = bv.handle();
        proof {
            self.lemma_meaning();
            let i = crate::smt::model_interp(model);
            assert(satisfies(solver_frames(self.solver), i));
            assert(satisfies(self@, i));
            assert(crate::smt::bv_term(*held).eval(i) == bv@.eval(i));
        }
        match model_eval(&model, held) {
            Some(value) => match value.as_u64() {
                Some(v) => {
                    proof {
                        let i = crate::smt::model_interp(model);
                        assert(satisfies(self@, i) && bv@.number(i) == v as nat);
                    }
                    Ok(v)
                },
                None => {
                    proof {
                        let i = crate::smt::model_interp(model);
                        crate::term::lemma_number_bound(bv@, i);
                        if bv.width() < 64 {
                            vstd::arithmetic::power2::lemma_pow2_strictly_increases(
                                bv.width(),
                                64,
                            );
                        }
                        vstd::arithmetic::power2::lemma2_to64_rest();
                    }
                    Err(Error::other("a solution does not fit 64 bits"))
                },
            },
            None => Err(Error::solver("the model gives no value")),
        }
    }

    /// A model of what is asserted, as the solver writes it, or nothing
    /// where nothing can hold.
    pub fn print_model(&mut self) -> (r: Result<Option<String>, Error>)
        requires
            old(self).wf(),
        ensures
            final(self).wf(),
            final(self).home() == old(self).home(),
            final(self)@ == old(self)@,
            match r {
                Ok(Some(_)) => old(self).satisfiable(),
                Ok(None) => !old(self).satisfiable(),
                Err(e) => e.kind() == ErrorKind::SolverError,
            },
    {
        match self.check() {
            Verdict::Sat => {
                let model = solver_get_model(&self.solver);
                Ok(Some(crate::smt::model_text(&model)))
            },
            Verdict::Unsat => Ok(None),
            Verdict::Unknown => Err(Error::solver("the solver gave up on a check")),
        }
    }

    /// One value that `bv` can have under what is asserted, or nothing
    /// where nothing can hold.
    pub fn get_a_solution_for_bv(&mut self, bv: &BitVec<'ctx>) -> (r: Result<
        Option<BVSolution>,
        Error,
    >)
        requires
            old(self).wf(),
            bv.home() == old(self).home(),
        ensures
            final(self).wf(),
            final(self).home() == old(self).home(),
            final(self)@ == old(self)@,
            match r {
                Ok(Some(s)) => possible(old(self)@, bv@, s.value as nat) && s.width == bv.width(),
                Ok(None) => !old(self).satisfiable(),
                Err(e) => query_failure(e.kind(), bv.width()),
            },
    {
        match self.check() {
            Verdict::Sat => {
                let width = bv.get_width();
                match self.model_value(bv) {
                    Ok(value) => Ok(Some(BVSolution { value, width })),
                    Err(e) => Err(e),
                }
            },
            Verdict::Unsat => Ok(None),
            Verdict::Unknown => Err(Error::solver("the solver gave up on a check")),
        }
    }

    /// One value that bits `low` to `high` of `bv` can have under what is
    /// asserted, or nothing where nothing can hold.
    pub fn get_a_solution_for_specified_bits_of_bv(
        &mut self,
        bv: &BitVec<'ctx>,
        high: u32,
        low: u32,
    ) -> (r: Result<Option<u64>, Error>)
        requires
            old(self).wf(),
            bv.home() == old(self).home(),
            low <= high < bv.width(),
        ensures
            final(self).wf(),
            final(self).home() == old(self).home(),
            final(self)@ == old(self)@,
            match r {
                Ok(Some(v)) => possible(
                    old(self)@,
                    Term::extract(high as nat, low as nat, bv@),
                    v as nat,
                ),
                Ok(None) => !old(self).satisfiable(),
                Err(e) => query_failure(e.kind(), (high - low + 1) as nat),
            },
    {
        let part = bv.slice(high, low);
        match self.get_a_solution_for_bv(&part) {
            Ok(Some(s)) => Ok(Some(s.value)),
            Ok(None) => Ok(None),
            Err(e) => Err(e),
        }
    }

    /// Whether what is asserted can hold together with the given
    /// constraints, each a vector of width one. Nothing stays asserted.
    pub fn sat_with_extra_constraints(&mut self, constraints: &[BitVec<'ctx>]) -> (r: Result<
        bool,
        Error,
    >)
        requires
            old(self).wf(),
            forall|k: int|
                0 <= k < constraints@.len() ==> (#[trigger] constraints@[k]).home() == old(
                    self,
                ).home() && constraints@[k].width() == 1,
        ensures
            final(self).wf(),
            final(self).home() == old(self).home(),
            final(self)@ == old(self)@,
            match r {
                Ok(b) => b == (exists|i: Interp|
                    satisfies(old(self)@, i) && all_hold(constraint_formulas(constraints@), i)),
                Err(e) => e.kind() == ErrorKind::SolverError,
            },
    {
        self.push();
        let mut k: usize = 0;
        proof {
            assert(constraint_formulas(constraints@).subrange(0, 0) =~= Seq::<Formula>::empty());
        }
        while k < constraints.len()
            invariant
                self.wf(),
                self.home() == old(self).home(),
                0 <= k <= constraints@.len(),
                forall|m: int|
                    0 <= m < constraints@.len() ==> (#[trigger] constraints@[m]).home() == old(
                        self,
                    ).home() && constraints@[m].width() == 1,
                self@ == old(self)@.push(constraint_formulas(constraints@).subrange(0, k as int)),
            decreases constraints@.len() - k,
        {
            self.assert_bv(&constraints[k]);
            proof {
                assert(self@ =~~= old(self)@.push(
                    constraint_formulas(constraints@).subrange(0, k + 1),
                ));
            }
            k = k + 1;
        }
        let verdict = self.check();
        proof {
            let extra = constraint_formulas(constraints@);
            assert(extra.subrange(0, k as int) =~= extra);
            assert forall|i: Interp|
                satisfies(self@, i) == (satisfies(old(self)@, i) && all_hold(extra, i)) by {
                lemma_satisfies_with(old(self)@, extra, i);
            }
            assert(self@.drop_last() =~= old(self)@);
            let goal = exists|i: Interp| satisfies(old(self)@, i) && all_hold(extra, i);
            if verdict == Verdict::Sat {
                let i = choose|i: Interp| satisfies(self@, i);
                assert(satisfies(old(self)@, i) && all_hold(extra, i));
            }
            if verdict == Verdict::Unsat && goal {
                let i = choose|i: Interp| satisfies(old(self)@, i) && all_hold(extra, i);
                assert(satisfies(self@, i));
            }
        }
        self.pop();
        sat_from_verdict(verdict)
    }

    /// Whether `a` and `b` have the same value under every interpretation
    /// that makes what is asserted true.
    pub fn bvs_must_be_equal(&mut self, a: &BitVec<'ctx>, b: &BitVec<'ctx>) -> (r: Result<
        bool,
        Error,
    >)
        requires
            old(self).wf(),
            a.home() == old(self).home(),
            a.alike(b),
        ensures
            final(self).wf(),
            final(self).home() == old(self).home(),
            final(self)@ == old(self)@,
            match r {
                Ok(must) => must == (forall|i: Interp|
                    satisfies(old(self)@, i) ==> a.number(i) == b.number(i)),
                Err(e) => e.kind() == ErrorKind::SolverError,
            },
    {
        let differ = a._ne(b);
        let mut extras: Vec<BitVec<'ctx>> = Vec::new();
        let ghost differ_term = differ@;
        extras.push(differ);
        let r = self.sat_with_extra_constraints(extras.as_slice());
        proof {
            let extra = constraint_formulas(extras@);
            assert forall|i: Interp| all_hold(extra, i) == (a.number(i) != b.number(i)) by {
                let same = Formula::rel(Relation::Eq, a@, b@);
                crate::term::lemma_holds_as_bit(Formula::not(same), i);
                assert(same.eval(i) == (a.number(i) == b.number(i)));
                assert(Formula::not(same).eval(i) == !same.eval(i));
                assert(extra.len() == 1);
                assert(extra[0] == holds(differ_term));
            }
        }
        match r {
            Ok(can_differ) => Ok(!can_differ),
            Err(e) => Err(e),
        }
    }

    /// Whether `a` and `b` have the same value under some interpretation
    /// that makes what is asserted true.
    pub fn bvs_can_be_equal(&mut self, a: &BitVec<'ctx>, b: &BitVec<'ctx>) -> (r: Result<
        bool,
        Error,
    >)
        requires
            old(self).wf(),
            a.home() == old(self).home(),
            a.alike(b),
        ensures
            final(self).wf(),
            final(self).home() == old(self).home(),
            final(self)@ == old(self)@,
            match r {
                Ok(can) => can == (exists|i: Interp|
                    satisfies(old(self)@, i) && a.number(i) == b.number(i)),
                Err(e) => e.kind() == ErrorKind::SolverError,
            },
    {
        let same = a._eq(b);
        let mut extras: Vec<BitVec<'ctx>> = Vec::new();
        let ghost same_term = same@;
        extras.push(same);
        let r = self.sat_with_extra_constraints(extras.as_slice());
        proof {
            let extra = constraint_formulas(extras@);
            assert forall|i: Interp| all_hold(extra, i) == (a.number(i) == b.number(i)) by {
                let same = Formula::rel(Relation::Eq, a@, b@);
                crate::term::lemma_holds_as_bit(same, i);
                assert(same.eval(i) == (a.number(i) == b.number(i)));
                assert(extra.len() == 1);
                assert(extra[0] == holds(same_term));
            }
        }
        r
    }

    /// The values that `bv` can have under what is asserted, in ascending
    /// order: all of them where there are at most `n`, else `n + 1` of them.
    pub fn get_possible_solutions_for_bv(&mut self, bv: &BitVec<'ctx>, n: usize) -> (r: Result<
        PossibleSolutions<BVSolution>,
        Error,
    >)
        requires
            old(self).wf(),
            bv.home() == old(self).home(),
        ensures
            final(self).wf(),
            final(self).home() == old(self).home(),
            final(self)@ == old(self)@,
            match r {
                Ok(PossibleSolutions::Exactly(v)) => {
                    &&& v@.len() <= n
                    &&& ascending(v@)
                    &&& all_possible(old(self)@, bv@, v@)
                    &&& forall|u: nat|
                        possible(old(self)@, bv@, u) ==> exists|k: int|
                            0 <= k < v@.len() && (#[trigger] v@[k]).value == u
                },
                Ok(PossibleSolutions::AtLeast(v)) => {
                    &&& v@.len() == n + 1
                    &&& ascending(v@)
                    &&& all_possible(old(self)@, bv@, v@)
                },
                Err(e) => query_failure(e.kind(), bv.width()),
            },
    {
        let width = bv.get_width();
        self.push();
        let mut found: Vec<BVSolution> = Vec::new();
        let mut complete = false;
        let mut failure: Option<Error> = None;
        proof {
            assert(self@.drop_last() =~= old(self)@);
            assert forall|i: Interp|
                satisfies(self@, i) == (satisfies(old(self)@, i) && avoids(bv@, found@, i)) by {
                lemma_satisfies_with(old(self)@, Seq::empty(), i);
            }
        }
        while found.len() <= n && !complete && failure.is_none()
            invariant
                self.wf(),
                self.home() == old(self).home(),
                bv.home() == self.home(),
                width == bv.width(),
                width > 0,
                self@.len() == old(self)@.len() + 1,
                self@.drop_last() == old(self)@,
                found@.len() <= n + 1,
                ascending(found@),
                all_possible(old(self)@, bv@, found@),
                forall|i: Interp|
                    satisfies(self@, i) == (satisfies(old(self)@, i) && avoids(bv@, found@, i)),
                complete ==> !self.satisfiable(),
                match failure {
                    Some(e) => query_failure(e.kind(), bv.width()),
                    None => true,
                },
            decreases
                    n + 1 - found@.len(),
                    if complete || failure is Some {
                        0nat
                    } else {
                        1nat
                    },
        {
            match self.check() {
                Verdict::Unsat => {
                    complete = true;
                },
                Verdict::Unknown => {
                    failure = Some(Error::solver("the solver gave up on a check"));
                },
                Verdict::Sat => {
                    match self.model_value(bv) {
                        Err(e) => {
                            failure = Some(e);
                        },
                        Ok(value) => {
                            let ghost before = self@;
                            let ghost had = found@;
                            proof {
                                let i = choose|i: Interp|
                                    satisfies(self@, i) && bv@.number(i) == value as nat;
                                assert(satisfies(old(self)@, i) && avoids(bv@, found@, i));
                                assert(possible(old(self)@, bv@, value as nat));
                                crate::term::lemma_number_bound(bv@, i);
                            }
                            let at = insert_ascending(&mut found, BVSolution { value, width });
                            let block = bv._ne(&BitVec::from_u64(bv.context(), value, width));
                            self.assert_bv(&block);
                            proof {
                                assert(self@.drop_last() =~= old(self)@);
                                assert forall|i: Interp|
                                    satisfies(self@, i) == (satisfies(old(self)@, i) && avoids(
                                        bv@,
                                        found@,
                                        i,
                                    )) by {
                                    lemma_satisfies_asserted(before, holds(block@), i);
                                    let c = Term::Const {
                                        value: (value as nat) % pow2(width as nat),
                                        width: width as nat,
                                    };
                                    let same = Formula::rel(Relation::Eq, bv@, c);
                                    crate::term::lemma_holds_as_bit(Formula::not(same), i);
                                    crate::term::lemma_const_number(
                                        (value as nat) % pow2(width as nat),
                                        width as nat,
                                        i,
                                    );
                                    vstd::arithmetic::div_mod::lemma_small_mod(
                                        value as nat,
                                        pow2(width as nat),
                                    );
                                    assert(same.eval(i) == (bv@.number(i) == value as nat));
                                    assert(Formula::not(same).eval(i) == !same.eval(i));
                                    lemma_avoids_insert(
                                        bv@,
                                        had,
                                        at as int,
                                        BVSolution { value, width },
                                        i,
                                    );
                                }
                                assert forall|k: int| 0 <= k < found@.len() implies possible(
                                    old(self)@,
                                    bv@,
                                    (#[trigger] found@[k]).value as nat,
                                ) by {
                                    if k < at {
                                        assert(found@[k] == had[k]);
                                    } else if k > at {
                                        assert(found@[k] == had[k - 1]);
                                    }
                                }
                            }
                        },
                    }
                },
            }
        }
        proof {
            if complete {
                assert forall|u: nat| possible(old(self)@, bv@, u) implies exists|k: int|
                    0 <= k < found@.len() && (#[trigger] found@[k]).value == u by {
                    let i = choose|i: Interp| satisfies(old(self)@, i) && bv@.number(i) == u;
                    assert(!satisfies(self@, i));
                    assert(!avoids(bv@, found@, i));
                }
            }
        }
        self.pop();
        match failure {
            Some(e) => Err(e),
            None => if found.len() > n {
                Ok(PossibleSolutions::AtLeast(found))
            } else {
                Ok(PossibleSolutions::Exactly(found))
            },
        }
    }

    /// Asks whether what is asserted can hold together with one more
    /// formula, and gives a value of `bv` for which it does.
    fn solution_with(&mut self, bv: &BitVec<'ctx>, extra: &BitVec<'ctx>) -> (r: Result<
        Option<u64>,
        Error,
    >)
        requires
            old(self).wf(),
            bv.home() == old(self).home(),
            extra.home() == old(self).home(),
            extra.width() == 1,
        ensures
            final(self).wf(),
            final(self).home() == old(self).home(),
            final(self)@ == old(self)@,
            match r {
                Ok(Some(v)) => exists|i: Interp|
                    satisfies(old(self)@, i) && holds(extra@).eval(i) && bv@.number(i) == v as nat,
                Ok(None) => forall|i: Interp| satisfies(old(self)@, i) ==> !holds(extra@).eval(i),
                Err(e) => query_failure(e.kind(), bv.width()),
            },
    {
        self.push();
        self.assert_bv(extra);
        proof {
            assert(self@ =~~= old(self)@.push(seq![holds(extra@)]));
            assert(self@.drop_last() =~= old(self)@);
            assert forall|i: Interp|
                satisfies(self@, i) == (satisfies(old(self)@, i) && holds(extra@).eval(i)) by {
                lemma_satisfies_with(old(self)@, seq![holds(extra@)], i);
                assert(seq![holds(extra@)][0] == holds(extra@));
            }
        }
        let r = match self.check() {
            Verdict::Sat => match self.model_value(bv) {
                Ok(v) => {
                    proof {
                        let i = choose|i: Interp| satisfies(self@, i) && bv@.number(i) == v as nat;
                        assert(satisfies(old(self)@, i) && holds(extra@).eval(i));
                    }
                    Ok(Some(v))
                },
                Err(e) => Err(e),
            },
            Verdict::Unsat => Ok(None),
            Verdict::Unknown => Err(Error::solver("the solver gave up on a check")),
        };
        self.pop();
        r
    }

    /// The greatest value, as an unsigned number, that `bv` can have under
    /// what is asserted, or nothing where nothing can hold.
    pub fn max_possible_solution_for_bv(&mut self, bv: &BitVec<'ctx>) -> (r: Result<
        Option<u64>,
        Error,
    >)
        requires
            old(self).wf(),
            bv.home() == old(self).home(),
            bv.width() <= 64,
        ensures
            final(self).wf(),
            final(self).home() == old(self).home(),
            final(self)@ == old(self)@,
            match r {
                Ok(Some(m)) => possible(old(self)@, bv@, m as nat) && forall|u: nat|
                    possible(old(self)@, bv@, u) ==> u <= m,
                Ok(None) => !old(self).satisfiable(),
                Err(e) => query_failure(e.kind(), bv.width()),
            },
    {
        let width = bv.get_width();
        let first = match self.get_a_solution_for_bv(bv) {
            Ok(Some(s)) => s.value,
            Ok(None) => {
                return Ok(None);
            },
            Err(e) => {
                return Err(e);
            },
        };
        let mut low: u64 = first;
        let mut high: u64 = greatest_of_width(width);
        proof {
            assert forall|u: nat| possible(self@, bv@, u) implies u <= high by {
                let i = choose|i: Interp| satisfies(self@, i) && bv@.number(i) == u;
                crate::term::lemma_number_bound(bv@, i);
            }
        }
        while low < high
            invariant
                self.wf(),
                self.home() == old(self).home(),
                self@ == old(self)@,
                bv.home() == self.home(),
                width == bv.width(),
                0 < width <= 64,
                low <= high,
                high < pow2(width as nat),
                possible(self@, bv@, low as nat),
                forall|u: nat| possible(self@, bv@, u) ==> u <= high,
            decreases high - low,
        {
            let mid: u64 = low + (high - low) / 2 + 1;
            let bound = BitVec::from_u64(bv.context(), mid, width);
            let above = bv.ugte(&bound);
            proof {
                assert forall|i: Interp| holds(above@).eval(i) == (bv@.number(i) >= mid) by {
                    let f = Formula::rel(Relation::Uge, bv@, bound@);
                    crate::term::lemma_holds_as_bit(f, i);
                    crate::term::lemma_const_number(
                        (mid as nat) % pow2(width as nat),
                        width as nat,
                        i,
                    );
                    vstd::arithmetic::div_mod::lemma_small_mod(mid as nat, pow2(width as nat));
                    assert(f.eval(i) == (bv@.number(i) >= bound@.number(i)));
                }
            }
            match self.solution_with(bv, &above) {
                Ok(Some(v)) => {
                    proof {
                        let i = choose|i: Interp|
                            satisfies(self@, i) && holds(above@).eval(i) && bv@.number(i)
                                == v as nat;
                        assert(possible(self@, bv@, v as nat));
                    }
                    low = v;
                },
                Ok(None) => {
                    proof {
                        assert forall|u: nat| possible(self@, bv@, u) implies u <= mid - 1 by {
                            let i = choose|i: Interp| satisfies(self@, i) && bv@.number(i) == u;
                            assert(!holds(above@).eval(i));
                        }
                    }
                    high = mid - 1;
                },
                Err(e) => {
                    return Err(e);
                },
            }
        }
        Ok(Some(low))
    }

    /// The least value, as an unsigned number, that `bv` can have under
    /// what is asserted, or nothing where nothing can hold.
    pub fn min_possible_solution_for_bv(&mut self, bv: &BitVec<'ctx>) -> (r: Result<
        Option<u64>,
        Error,
    >)
        requires
            old(self).wf(),
            bv.home() == old(self).home(),
            bv.width() <= 64,
        ensures
            final(self).wf(),
            final(self).home() == old(self).home(),
            final(self)@ == old(self)@,
            match r {
                Ok(Some(m)) => possible(old(self)@, bv@, m as nat) && forall|u: nat|
                    possible(old(self)@, bv@, u) ==> u >= m,
                Ok(None) => !old(self).satisfiable(),
                Err(e) => query_failure(e.kind(), bv.width()),
            },
    {
        let width = bv.get_width();
        let first = match self.get_a_solution_for_bv(bv) {
            Ok(Some(s)) => s.value,
            Ok(None) => {
                return Ok(None);
            },
            Err(e) => {
                return Err(e);
            },
        };
        let mut low: u64 = 0;
        let mut high: u64 = first;
        proof {
            let i = choose|i: Interp| satisfies(self@, i) && bv@.number(i) == first as nat;
            crate::term::lemma_number_bound(bv@, i);
        }
        while low < high
            invariant
                self.wf(),
                self.home() == old(self).home(),
                self@ == old(self)@,
                bv.home() == self.home(),
                width == bv.width(),
                0 < width <= 64,
                low <= high,
                high < pow2(width as nat),
                possible(self@, bv@, high as nat),
                forall|u: nat| possible(self@, bv@, u) ==> u >= low,
            decreases high - low,
        {
            let mid: u64 = low + (high - low) / 2;
            let bound = BitVec::from_u64(bv.context(), mid, width);
            let below = bv.ulte(&bound);
            proof {
                assert forall|i: Interp| holds(below@).eval(i) == (bv@.number(i) <= mid) by {
                    let f = Formula::rel(Relation::Ule, bv@, bound@);
                    crate::term::lemma_holds_as_bit(f, i);
                    crate::term::lemma_const_number(
                        (mid as nat) % pow2(width as nat),
                        width as nat,
                        i,
                    );
                    vstd::arithmetic::div_mod::lemma_small_mod(mid as nat, pow2(width as nat));
                    assert(f.eval(i) == (bv@.number(i) <= bound@.number(i)));
                }
            }
            match self.solution_with(bv, &below) {
                Ok(Some(v)) => {
                    proof {
                        let i = choose|i: Interp|
                            satisfies(self@, i) && holds(below@).eval(i) && bv@.number(i)
                                == v as nat;
                        assert(possible(self@, bv@, v as nat));
                    }
                    high = v;
                },
                Ok(None) => {
                    proof {
                        assert forall|u: nat| possible(self@, bv@, u) implies u >= mid + 1 by {
                            let i = choose|i: Interp| satisfies(self@, i) && bv@.number(i) == u;
                            assert(!holds(below@).eval(i));
                        }
                    }
                    low = mid + 1;
                },
                Err(e) => {
                    return Err(e);
                },
            }
        }
        Ok(Some(low))
    }
}

/// The values of the solutions rise strictly.
pub open spec fn ascending(v: Seq<BVSolution>) -> bool {
    forall|a: int, b: int| 0 <= a < b < v.len() ==> (#[trigger] v[a]).value < (#[trigger] v[b]).value
}

/// Each of the solutions is a value that `t` can have under `frames`.
pub open spec fn all_possible(frames: Seq<Seq<Formula>>, t: Term, v: Seq<BVSolution>) -> bool {
    forall|k: int| 0 <= k < v.len() ==> possible(frames, t, (#[trigger] v[k]).value as nat)
}

/// Under `i`, `t` stands for none of the solutions.
pub open spec fn avoids(t: Term, v: Seq<BVSolution>, i: Interp) -> bool {
    forall|k: int| 0 <= k < v.len() ==> t.number(i) != (#[trigger] v[k]).value
}

/// To avoid the solutions with one more among them is to avoid them and
/// that one.
pub proof fn lemma_avoids_insert(t: Term, v: Seq<BVSolution>, at: int, s: BVSolution, i: Interp)
    requires
        0 <= at <= v.len(),
    ensures
        avoids(t, v.insert(at, s), i) == (avoids(t, v, i) && t.number(i) != s.value),
{
    let w = v.insert(at, s);
    if avoids(t, w, i) {
        assert(w[at] == s);
        assert forall|k: int| 0 <= k < v.len() implies t.number(i) != (#[trigger] v[k]).value by {
            if k < at {
                assert(w[k] == v[k]);
            } else {
                assert(w[k + 1] == v[k]);
            }
        }
    }
    if avoids(t, v, i) && t.number(i) != s.value {
        assert forall|k: int| 0 <= k < w.len() implies t.number(i) != (#[trigger] w[k]).value by {
            if k < at {
                assert(w[k] == v[k]);
            } else if k > at {
                assert(w[k] == v[k - 1]);
            }
        }
    }
}

/// Puts a solution whose value is not yet among `v` at its place in the
/// ascending order, and says where.
pub fn insert_ascending(v: &mut Vec<BVSolution>, s: BVSolution) -> (at: usize)
    requires
        ascending(old(v)@),
        forall|k: int| 0 <= k < old(v)@.len() ==> (#[trigger] old(v)@[k]).value != s.value,
    ensures
        at <= old(v)@.len(),
        final(v)@ == old(v)@.insert(at as int, s),
        ascending(final(v)@),
{
    let mut at: usize = 0;
    while at < v.len() && v[at].value < s.value
        invariant
            0 <= at <= v@.len(),
            v@ == old(v)@,
            forall|k: int| 0 <= k < at ==> (#[trigger] v@[k]).value < s.value,
        decreases v@.len() - at,
    {
        at = at + 1;
    }
    v.insert(at, s);
    proof {
        let before = old(v)@;
        assert forall|a: int, b: int| 0 <= a < b < v@.len() implies (#[trigger] v@[a]).value < (
        #[trigger] v@[b]).value by {
            if b < at {
                assert(v@[a] == before[a] && v@[b] == before[b]);
            } else if b == at {
                assert(v@[a] == before[a]);
            } else if a < at {
                assert(v@[a] == before[a] && v@[b] == before[b - 1]);
                assert(before[at as int].value > s.value);
            } else if a == at {
                assert(v@[b] == before[b - 1]);
                assert(before[at as int].value > s.value);
            } else {
                assert(v@[a] == before[a - 1] && v@[b] == before[b - 1]);
            }
        }
    }
    at
}

/// The greatest number of `width` bits, for a width of 1 to 64.
pub fn greatest_of_width(width: u32) -> (r: u64)
    requires
        0 < width <= 64,
    ensures
        r + 1 == pow2(width as nat),
{
    proof {
        vstd::arithmetic::power2::lemma2_to64();
        vstd::arithmetic::power2::lemma2_to64_rest();
    }
    if width == 64 {
        u64::MAX
    } else {
        proof {
            vstd::bits::lemma_u64_pow2_no_overflow(width as nat);
            vstd::bits::lemma_u64_shl_is_mul(1, width as u64);
        }
        (1u64 << (width as u64)) - 1
    }
}

/// The values that something can have: all of them, or so many that there
/// are more than was asked for.
#[derive(Debug, PartialEq, Eq)]
pub enum PossibleSolutions<V> {
    /// These are all.
    Exactly(Vec<V>),
    /// There are at least these.
    AtLeast(Vec<V>),
}

/// How many values something can have.
#[derive(Debug, Clone, Copy, PartialEq, Eq, Structural)]
pub enum SolutionCount {
    Exactly(usize),
    AtLeast(usize),
}

impl<V> PossibleSolutions<V> {
    /// How many values there are.
    pub fn count(&self) -> (r: SolutionCount)
        ensures
            r == match self {
                PossibleSolutions::Exactly(v) => SolutionCount::Exactly(v@.len() as usize),
                PossibleSolutions::AtLeast(v) => SolutionCount::AtLeast(v@.len() as usize),
            },
    {
        match self {
            PossibleSolutions::Exactly(v) => SolutionCount::Exactly(v.len()),
            PossibleSolutions::AtLeast(v) => SolutionCount::AtLeast(v.len()),
        }
    }
}

/// The values of solutions as plain numbers, in the same order.
pub fn values_of(v: &Vec<BVSolution>) -> (r: Vec<u64>)
    ensures
        r@ == Seq::new(v@.len(), |k: int| v@[k].value),
{
    let mut r: Vec<u64> = Vec::new();
    let mut k: usize = 0;
    while k < v.len()
        invariant
            0 <= k <= v@.len(),
            r@ == Seq::new(k as nat, |m: int| v@[m].value),
        decreases v@.len() - k,
    {
        r.push(v[k].value);
        proof {
            assert(r@ =~= Seq::new((k + 1) as nat, |m: int| v@[m].value));
        }
        k = k + 1;
    }
    r
}

impl PossibleSolutions<BVSolution> {
    /// The same solutions as plain numbers.
    pub fn as_u64_solutions(&self) -> (r: Option<PossibleSolutions<u64>>)
        ensures
            match (self, r) {
                (PossibleSolutions::Exactly(v), Some(PossibleSolutions::Exactly(u))) => u@
                    == Seq::new(v@.len(), |k: int| v@[k].value),
                (PossibleSolutions::AtLeast(v), Some(PossibleSolutions::AtLeast(u))) => u@
                    == Seq::new(v@.len(), |k: int| v@[k].value),
                _ => false,
            },
    {
        match self {
            PossibleSolutions::Exactly(v) => Some(PossibleSolutions::Exactly(values_of(v))),
            PossibleSolutions::AtLeast(v) => Some(PossibleSolutions::AtLeast(values_of(v))),
        }
    }
}

/// The formulas that constraints of width one stand for.
pub open spec fn constraint_formulas<'ctx>(constraints: Seq<BitVec<'ctx>>) -> Seq<Formula> {
    Seq::new(constraints.len(), |k: int| holds(constraints[k]@))
}

/// Whether `t` stands for the number `v` under some interpretation that
/// makes all of `frames` true.
pub open spec fn possible(frames: Seq<Seq<Formula>>, t: Term, v: nat) -> bool {
    exists|i: Interp| satisfies(frames, i) && t.number(i) == v
}

/// With one more level, what held before must hold, and that level too.
pub proof fn lemma_satisfies_with(frames: Seq<Seq<Formula>>, extra: Seq<Formula>, i: Interp)
    ensures
        satisfies(frames.push(extra), i) == (satisfies(frames, i) && all_hold(extra, i)),
{
    let pushed = frames.push(extra);
    if satisfies(frames, i) && all_hold(extra, i) {
        assert forall|l: int| 0 <= l < pushed.len() implies all_hold(#[trigger] pushed[l], i) by {
            if l < frames.len() {
                assert(pushed[l] == frames[l]);
            }
        }
    }
    if satisfies(pushed, i) {
        assert(pushed[frames.len() as int] == extra);
        assert forall|l: int| 0 <= l < frames.len() implies all_hold(#[trigger] frames[l], i) by {
            assert(pushed[l] == frames[l]);
        }
    }
}

/// What a check's verdict means for a caller that asked whether the
/// constraints can hold: `Sat` is yes, `Unsat` is no, and where the solver
/// gave up there is no answer.
pub fn sat_from_verdict(verdict: Verdict) -> (r: Result<bool, Error>)
    ensures
        match verdict {
            Verdict::Sat => r == Ok::<bool, Error>(true),
            Verdict::Unsat => r == Ok::<bool, Error>(false),
            Verdict::Unknown => r is Err && r->Err_0.kind() == ErrorKind::SolverError,
        },
{
    match verdict {
        Verdict::Sat => Ok(true),
        Verdict::Unsat => Ok(false),
        Verdict::Unknown => Err(Error::solver("the solver gave up on a check")),
    }
}

/// One value that a symbolic bit vector can have.
#[derive(Debug, Clone, Copy, PartialEq, Eq, Structural, Hash)]
pub struct BVSolution {
    /// The value, as an unsigned number.
    pub value: u64,
    /// The width in bits of the vector that has this value.
    pub width: u32,
}

impl BVSolution {
    /// The value as an unsigned number.
    pub fn as_u64(&self) -> (r: Option<u64>)
        ensures
            r == Some(self.value),
    {
        Some(self.value)
    }

    /// The value as a truth value, for a vector of width one.
    pub fn as_bool(&self) -> (r: Option<bool>)
        ensures
            r == if self.width == 1 {
                Some(self.value != 0)
            } else {
                None
            },
    {
        if self.width == 1 {
            Some(self.value != 0)
        } else {
            None
        }
    }
}

} // verus!
