//! The execution state: the solver, the bindings of names, the memory, the
//! allocator, the addresses of globals, the call stack, the checkpoints to
//! go back to, and the path so far.

use crate::allocator::{laid_out, reserved_bytes, Alloc};
use crate::bv::BitVec;
use crate::config::{Config, Hook};
use crate::const_eval::{
    alias_from, apply_writes, combine, converted, element_at, eval_const, eval_elems,
    eval_field, eval_indexed, eval_offset, eval_patched, eval_patched_elem, eval_patched_elems,
    marked, no_effects, path_exists, relation_of, zero_of_type, Effects, Env, MAX_CONST_DEPTH,
};
use crate::error::{Error, ErrorKind};
use crate::global_allocations::{
    Callable, CallableView, GlobalAllocations, GlobalInfo, GlobalView,
};
use crate::ir::{
    CastOp, Constant, Function, GlobalAlias, GlobalVariable, IntPredicate, Module, Name, NameView,
    Operand, Project, Type,
};
use crate::location::{entry_of, Location, LocationView, PathEntry, PathEntryView};
use crate::memory::{cells_of, read_value, write_value, Memory};
use crate::smt::{all_hold, context_id, context_makes_models, satisfies};
use crate::solver::{
    query_failure, all_possible, ascending, asserted, constraint_formulas, possible, BVSolution, Facade,
    PossibleSolutions,
};
use crate::term::{
    bit_false, bit_true, holds, numeral_of, ArrayTerm, Formula, Interp, Relation, Term,
};
use crate::text::{is_sorted_text, sorted_lines};
use crate::varmap::{label, restored, RestoreInfo, VarMap};
use crate::watchpoints::{initial_watchpoints, Watchpoint, Watchpoints};
use vstd::arithmetic::power2::pow2;
use vstd::prelude::*;

verus! {

/// A watchpoint that an access to memory triggered.
pub struct WatchEvent {
    /// The name of the watchpoint.
    pub name: String,
    /// Whether the access was a write.
    pub is_write: bool,
}

/// A triggered watchpoint, as a value of specifications.
pub struct WatchEventView {
    pub name: Seq<char>,
    pub is_write: bool,
}

impl View for WatchEvent {
    type V = WatchEventView;

    open spec fn view(&self) -> WatchEventView {
        WatchEventView { name: self.name@, is_write: self.is_write }
    }
}

impl Clone for WatchEvent {
    fn clone(&self) -> (r: Self)
        ensures
            r@ == self@,
    {
        WatchEvent { name: self.name.clone(), is_write: self.is_write }
    }
}

/// A frame of the call stack: where the call was made, and the bindings of
/// the caller to go back to.
pub struct StackFrame<'p, 'ctx> {
    callsite: Location<'p>,
    restore_info: RestoreInfo<'ctx>,
}

/// A frame of the call stack, as a value of specifications.
pub struct FrameView {
    pub callsite: LocationView,
    pub funcname: Seq<char>,
    pub vars: Seq<(NameView, Term)>,
}

impl<'p, 'ctx> StackFrame<'p, 'ctx> {
    /// The frame as plain values.
    pub closed spec fn view(&self) -> FrameView {
        FrameView {
            callsite: self.callsite@,
            funcname: self.restore_info.funcname@,
            vars: self.restore_info@,
        }
    }

    /// Every value of the frame belongs to the context `home`.
    pub closed spec fn wf(&self, home: int) -> bool {
        self.restore_info.wf(home)
    }

    fn duplicate(&self) -> (r: Self)
        ensures
            r@ == self@,
            forall|home: int| self.wf(home) ==> r.wf(home),
    {
        StackFrame { callsite: self.callsite.clone(), restore_info: self.restore_info.clone() }
    }
}

/// The frames of a call stack, as values of specifications.
pub open spec fn stack_view<'p, 'ctx>(stack: Seq<StackFrame<'p, 'ctx>>) -> Seq<FrameView> {
    Seq::new(stack.len(), |k: int| stack[k]@)
}

/// Every frame belongs to the context `home`.
pub open spec fn stack_wf<'p, 'ctx>(stack: Seq<StackFrame<'p, 'ctx>>, home: int) -> bool {
    forall|k: int| 0 <= k < stack.len() ==> (#[trigger] stack[k]).wf(home)
}

fn duplicate_stack<'p, 'ctx>(stack: &Vec<StackFrame<'p, 'ctx>>) -> (r: Vec<StackFrame<'p, 'ctx>>)
    ensures
        stack_view(r@) == stack_view(stack@),
        forall|home: int| stack_wf(stack@, home) ==> stack_wf(r@, home),
{
    let mut r: Vec<StackFrame<'p, 'ctx>> = Vec::new();
    let mut k: usize = 0;
    while k < stack.len()
        invariant
            0 <= k <= stack@.len(),
            r@.len() == k,
            forall|m: int| 0 <= m < k ==> (#[trigger] r@[m])@ == stack@[m]@,
            forall|m: int, home: int|
                0 <= m < k && stack@[m].wf(home) ==> #[trigger] r@[m].wf(home),
        decreases stack@.len() - k,
    {
        r.push(stack[k].duplicate());
        k = k + 1;
    }
    proof {
        assert(stack_view(r@) =~= stack_view(stack@));
        assert forall|home: int| stack_wf(stack@, home) implies stack_wf(r@, home) by {
            assert forall|m: int| 0 <= m < r@.len() implies (#[trigger] r@[m]).wf(home) by {
                assert(stack@[m].wf(home));
            }
        }
    }
    r
}

/// A checkpoint: where to go on, and all that is put back on the way there.
pub struct BacktrackPoint<'p, 'ctx> {
    loc: Location<'p>,
    stack: Vec<StackFrame<'p, 'ctx>>,
    constraint: BitVec<'ctx>,
    varmap: VarMap<'ctx>,
    mem: Memory<'ctx>,
    path_len: usize,
}

/// A checkpoint, as a value of specifications.
pub struct BacktrackView {
    /// Where execution goes on.
    pub loc: LocationView,
    /// The call stack at the checkpoint.
    pub stack: Seq<FrameView>,
    /// The constraint that is asserted on the way back, and only then.
    pub constraint: Term,
    /// The bindings at the checkpoint.
    pub vars: Map<(Seq<char>, NameView), (Term, nat)>,
    /// The memory at the checkpoint.
    pub mem: ArrayTerm,
    /// The length of the path at the checkpoint.
    pub path_len: nat,
}

impl<'p, 'ctx> BacktrackPoint<'p, 'ctx> {
    /// The checkpoint as plain values.
    pub closed spec fn view(&self) -> BacktrackView {
        BacktrackView {
            loc: self.loc@,
            stack: stack_view(self.stack@),
            constraint: self.constraint@,
            vars: self.varmap@,
            mem: self.mem@,
            path_len: self.path_len as nat,
        }
    }

    /// The greatest number of versions that a name may get in the
    /// bindings of the checkpoint.
    pub closed spec fn bound(&self) -> nat {
        self.varmap.max_versions()
    }

    /// Every value of the checkpoint belongs to the context `home`.
    pub closed spec fn wf(&self, home: int) -> bool {
        &&& self.constraint.home() == home
        &&& self.constraint.width() == 1
        &&& self.varmap.wf()
        &&& self.varmap.home() == home
        &&& self.mem.home() == home
        &&& stack_wf(self.stack@, home)
    }

    fn duplicate(&self) -> (r: Self)
        requires
            exists|home: int| self.wf(home),
        ensures
            r@ == self@,
            r.bound() == self.bound(),
            forall|home: int| self.wf(home) ==> r.wf(home),
    {
        BacktrackPoint {
            loc: self.loc.clone(),
            stack: duplicate_stack(&self.stack),
            constraint: self.constraint.clone(),
            varmap: self.varmap.duplicate(),
            mem: self.mem.duplicate(),
            path_len: self.path_len,
        }
    }
}

/// The checkpoints, as values of specifications.
pub open spec fn backtrack_view<'p, 'ctx>(points: Seq<BacktrackPoint<'p, 'ctx>>) -> Seq<
    BacktrackView,
> {
    Seq::new(points.len(), |k: int| points[k]@)
}

/// Every checkpoint belongs to the context `home`.
pub open spec fn backtrack_wf<'p, 'ctx>(points: Seq<BacktrackPoint<'p, 'ctx>>, home: int) -> bool {
    forall|k: int| 0 <= k < points.len() ==> (#[trigger] points[k]).wf(home)
}

/// The steps of a path, as values of specifications.
pub open spec fn path_view(path: Seq<PathEntry>) -> Seq<PathEntryView> {
    Seq::new(path.len(), |k: int| path[k]@)
}

/// The triggered watchpoints, as values of specifications.
pub open spec fn log_view(log: Seq<WatchEvent>) -> Seq<WatchEventView> {
    Seq::new(log.len(), |k: int| log[k]@)
}

/// All of an execution state, as a value of specifications.
pub struct StateView {
    /// What is asserted in the solver, level by level.
    pub frames: Seq<Seq<Formula>>,
    /// The instruction that is being executed.
    pub cur_loc: LocationView,
    /// For each bound name the term and the number of its versions.
    pub vars: Map<(Seq<char>, NameView), (Term, nat)>,
    /// The memory.
    pub mem: ArrayTerm,
    /// The address that the next allocation gets.
    pub cursor: u64,
    /// What was allocated, oldest first: address and size in bits.
    pub allocations: Seq<(u64, u64)>,
    /// What lies at the address of each global name.
    pub globals: Map<NameView, GlobalView>,
    /// The address of the hook for each hooked function.
    pub hooks: Map<Seq<char>, Term>,
    /// What lies at each address of a function or a hook.
    pub callables: Map<u64, CallableView>,
    /// The call stack, the outermost caller first.
    pub stack: Seq<FrameView>,
    /// The checkpoints, the oldest first.
    pub backtrack: Seq<BacktrackView>,
    /// The path so far.
    pub path: Seq<PathEntryView>,
    /// The watchpoints by name, each enabled or not.
    pub watchpoints: Map<Seq<char>, (Watchpoint, bool)>,
    /// The watchpoints that accesses triggered, in the order of the accesses.
    pub watch_log: Seq<WatchEventView>,
    /// The greatest number of versions that a name may get.
    pub max_versions: nat,
    /// The hooks of the configuration, with the names of the functions
    /// they stand for.
    pub configured_hooks: Seq<(Seq<char>, Hook)>,
}

/// The first `n` steps of a path, or all of it where it is shorter.
pub open spec fn truncated<T>(path: Seq<T>, n: nat) -> Seq<T> {
    if n < path.len() {
        path.subrange(0, n as int)
    } else {
        path
    }
}

/// The state after a checkpoint was saved: a new level in the solver, and
/// one more checkpoint that holds the place to go on at, the stack, the
/// bindings, the memory and the length of the path as they are, and the
/// constraint, which is not asserted.
pub open spec fn save_spec(s: StateView, bb: NameView, constraint: Term) -> StateView {
    StateView {
        frames: s.frames.push(Seq::empty()),
        backtrack: s.backtrack.push(
            BacktrackView {
                loc: LocationView {
                    module: s.cur_loc.module,
                    func: s.cur_loc.func,
                    bbname: bb,
                    instr: 0,
                },
                stack: s.stack,
                constraint,
                vars: s.vars,
                mem: s.mem,
                path_len: s.path.len(),
            },
        ),
        ..s
    }
}

/// The state after going back to the last checkpoint: the solver's top
/// level is gone and the checkpoint's constraint is asserted; stack,
/// bindings, memory and place are those of the checkpoint, and the path is
/// cut to its length there.
pub open spec fn revert_spec(s: StateView) -> StateView {
    let bp = s.backtrack.last();
    StateView {
        frames: asserted(s.frames.drop_last(), holds(bp.constraint)),
        cur_loc: bp.loc,
        vars: bp.vars,
        mem: bp.mem,
        stack: bp.stack,
        path: truncated(s.path, bp.path_len),
        backtrack: s.backtrack.drop_last(),
        ..s
    }
}

/// The execution state of one path of a symbolic execution.
pub struct State<'p, 'ctx> {
    /// The solver.
    pub solver: Facade<'ctx>,
    /// The configuration.
    pub config: Config,
    /// The instruction that is being executed.
    pub cur_loc: Location<'p>,
    ctx: &'ctx z3::Context,
    varmap: VarMap<'ctx>,
    mem: Memory<'ctx>,
    alloc: Alloc,
    global_allocations: GlobalAllocations<'p, 'ctx>,
    stack: Vec<StackFrame<'p, 'ctx>>,
    backtrack_points: Vec<BacktrackPoint<'p, 'ctx>>,
    path: Vec<PathEntry>,
    mem_watchpoints: Watchpoints,
    watch_log: Vec<WatchEvent>,
}

impl<'p, 'ctx> State<'p, 'ctx> {
    /// The context that all symbolic values of this state belong to.
    pub closed spec fn home(&self) -> int {
        context_id(*self.ctx)
    }

    /// The state as a value of specifications.
    pub closed spec fn view(&self) -> StateView {
        StateView {
            frames: self.solver@,
            cur_loc: self.cur_loc@,
            vars: self.varmap@,
            mem: self.mem@,
            cursor: self.alloc.cursor(),
            allocations: self.alloc.allocations(),
            globals: self.global_allocations.global_views(),
            hooks: self.global_allocations.hook_views(),
            callables: self.global_allocations.callable_views(),
            stack: stack_view(self.stack@),
            backtrack: backtrack_view(self.backtrack_points@),
            path: path_view(self.path@),
            watchpoints: self.mem_watchpoints@,
            watch_log: log_view(self.watch_log@),
            max_versions: self.varmap.max_versions(),
            configured_hooks: self.config.function_hooks@,
        }
    }

    /// The parts fit together: all belong to one context, each is well
    /// formed, and the solver has one level for each checkpoint above its
    /// base level.
    pub closed spec fn wf(&self) -> bool {
        &&& self.solver.wf()
        &&& self.solver.home() == self.home()
        &&& self.varmap.wf()
        &&& self.varmap.home() == self.home()
        &&& self.mem.home() == self.home()
        &&& self.alloc.wf()
        &&& self.global_allocations.wf()
        &&& self.global_allocations.home() == self.home()
        &&& self.mem_watchpoints.wf()
        &&& self.solver@.len() == self.backtrack_points@.len() + 1
        &&& stack_wf(self.stack@, self.home())
        &&& backtrack_wf(self.backtrack_points@, self.home())
        &&& forall|k: int|
            0 <= k < self.backtrack_points@.len() ==> (#[trigger] self.backtrack_points@[k]).bound()
                == self.varmap.max_versions()
    }

    /// What was allocated lies as the allocator's cursor left it: every
    /// address is a multiple of 8, every allocation ends at or below the
    /// cursor, and an earlier one ends at or below the start of a later
    /// one. So no two allocations have one address, and the next
    /// allocation gets an address that none has.
    pub proof fn lemma_allocations(&self)
        requires
            self.wf(),
        ensures
            laid_out(self@.cursor, self@.allocations),
    {
        self.alloc.lemma_laid_out();
    }

    /// The addresses that allocations of this state returned are pairwise
    /// distinct, and what was reserved at an earlier one ends at or below
    /// the start of a later one. Going back to a checkpoint takes no
    /// allocation back, so no address is ever returned twice.
    pub proof fn lemma_addresses_distinct(&self, i: int, j: int)
        requires
            self.wf(),
            0 <= i < j < self@.allocations.len(),
        ensures
            self@.allocations[i].0 + reserved_bytes(self@.allocations[i].1)
                <= self@.allocations[j].0,
            self@.allocations[i].0 != self@.allocations[j].0,
    {
        self.alloc.lemma_laid_out();
    }

    /// The solver has one level for each checkpoint above its base level.
    pub proof fn lemma_solver_parity(&self)
        requires
            self.wf(),
        ensures
            self@.frames.len() == self@.backtrack.len() + 1,
    {
    }

    /// Whether some interpretation makes all that is asserted true, one
    /// that divides by zero as the solver does.
    pub open spec fn satisfiable(&self) -> bool {
        exists|i: Interp| satisfies(self@.frames, i)
    }

    /// The hooks of the configuration, with the names of the functions
    /// they stand for.
    pub open spec fn configured_hooks(&self) -> Seq<(Seq<char>, Hook)> {
        self@.configured_hooks
    }

    /// The name of the function that is being executed.
    pub open spec fn cur_func(&self) -> Seq<char> {
        self@.cur_loc.func.name@
    }

    /// The context that the symbolic values of this state live in.
    pub fn context(&self) -> (r: &'ctx z3::Context)
        ensures
            context_id(*r) == self.home(),
    {
        self.ctx
    }

    /// Asserts that a vector of width one holds the bit `1`.
    pub fn add_constraint(&mut self, constraint: &BitVec<'ctx>)
        requires
            old(self).wf(),
            constraint.home() == old(self).home(),
            constraint.width() == 1,
        ensures
            final(self).wf(),
            final(self).home() == old(self).home(),
            final(self)@ == (StateView {
                frames: asserted(old(self)@.frames, holds(constraint@)),
                ..old(self)@
            }),
    {
        self.solver.assert_bv(constraint);
    }

    /// Whether what is asserted can hold.
    pub fn sat(&mut self) -> (r: Result<bool, Error>)
        requires
            old(self).wf(),
        ensures
            final(self).wf(),
            final(self).home() == old(self).home(),
            final(self)@ == old(self)@,
            match r {
                Ok(b) => b == old(self).satisfiable(),
                Err(e) => e.kind() == ErrorKind::SolverError,
            },
    {
        let r = self.solver.sat();
        proof {
            if self.solver.satisfiable() {
                let i = choose|i: Interp| satisfies(self.solver@, i);
                assert(satisfies(old(self)@.frames, i));
            }
            if old(self).satisfiable() {
                let i = choose|i: Interp| satisfies(old(self)@.frames, i);
                assert(satisfies(self.solver@, i));
            }
        }
        r
    }

    /// Whether what is asserted can hold together with the given
    /// constraints, each a vector of width one. Nothing stays asserted.
    pub fn sat_with_extra_constraints(&mut self, constraints: &[BitVec<'ctx>]) -> (r: Result<
        bool,
        Error,
    >)
        requires
            old(self).wf(),
            forall|k: int|
                0 <= k < constraints@.len() ==> (#[trigger] constraints@[k]).home() == old(
                    self,
                ).home() && constraints@[k].width() == 1,
        ensures
            final(self).wf(),
            final(self).home() == old(self).home(),
            final(self)@ == old(self)@,
            match r {
                Ok(b) => b == (exists|i: Interp|
                    satisfies(old(self)@.frames, i) && all_hold(
                        constraint_formulas(constraints@),
                        i,
                    )),
                Err(e) => e.kind() == ErrorKind::SolverError,
            },
    {
        self.solver.sat_with_extra_constraints(constraints)
    }

    /// Whether `a` and `b` have the same value under every interpretation
    /// that makes what is asserted true.
    pub fn bvs_must_be_equal(&mut self, a: &BitVec<'ctx>, b: &BitVec<'ctx>) -> (r: Result<
        bool,
        Error,
    >)
        requires
            old(self).wf(),
            a.home() == old(self).home(),
            a.alike(b),
        ensures
            final(self).wf(),
            final(self).home() == old(self).home(),
            final(self)@ == old(self)@,
            match r {
                Ok(must) => must == (forall|i: Interp|
                    satisfies(old(self)@.frames, i) ==> a.number(i) == b.number(i)),
                Err(e) => e.kind() == ErrorKind::SolverError,
            },
    {
        self.solver.bvs_must_be_equal(a, b)
    }

    /// Whether `a` and `b` have the same value under some interpretation
    /// that makes what is asserted true.
    pub fn bvs_can_be_equal(&mut self, a: &BitVec<'ctx>, b: &BitVec<'ctx>) -> (r: Result<
        bool,
        Error,
    >)
        requires
            old(self).wf(),
            a.home() == old(self).home(),
            a.alike(b),
        ensures
            final(self).wf(),
            final(self).home() == old(self).home(),
            final(self)@ == old(self)@,
            match r {
                Ok(can) => can == (exists|i: Interp|
                    satisfies(old(self)@.frames, i) && a.number(i) == b.number(i)),
                Err(e) => e.kind() == ErrorKind::SolverError,
            },
    {
        self.solver.bvs_can_be_equal(a, b)
    }

    /// One value that `bv` can have under what is asserted, or nothing
    /// where nothing can hold.
    pub fn get_a_solution_for_bv(&mut self, bv: &BitVec<'ctx>) -> (r: Result<
        Option<BVSolution>,
        Error,
    >)
        requires
            old(self).wf(),
            bv.home() == old(self).home(),
        ensures
            final(self).wf(),
            final(self).home() == old(self).home(),
            final(self)@ == old(self)@,
            match r {
                Ok(Some(s)) => possible(old(self)@.frames, bv@, s.value as nat) && s.width
                    == bv.width(),
                Ok(None) => !old(self).satisfiable(),
                Err(e) => query_failure(e.kind(), bv.width()),
            },
    {
        self.solver.get_a_solution_for_bv(bv)
    }

    /// One value that the name of the given function can have under what is
    /// asserted. The name must be bound.
    pub fn get_a_solution_for_irname(&mut self, funcname: &String, name: &Name) -> (r: Result<
        Option<BVSolution>,
        Error,
    >)
        requires
            old(self).wf(),
            old(self)@.vars.contains_key((funcname@, name@)),
        ensures
            final(self).wf(),
            final(self).home() == old(self).home(),
            final(self)@ == old(self)@,
            match r {
                Ok(Some(s)) => possible(
                    old(self)@.frames,
                    old(self)@.vars[(funcname@, name@)].0,
                    s.value as nat,
                ),
                Ok(None) => !old(self).satisfiable(),
                Err(e) => query_failure(e.kind(), old(self)@.vars[(funcname@, name@)].0.width()),
            },
    {
        let bv = self.varmap.lookup_var(funcname, name).clone();
        self.solver.get_a_solution_for_bv(&bv)
    }

    /// The values that `bv` can have under what is asserted, in ascending
    /// order: all of them where there are at most `n`, else `n + 1` of them.
    pub fn get_possible_solutions_for_bv(&mut self, bv: &BitVec<'ctx>, n: usize) -> (r: Result<
        PossibleSolutions<BVSolution>,
        Error,
    >)
        requires
            old(self).wf(),
            bv.home() == old(self).home(),
        ensures
            final(self).wf(),
            final(self).home() == old(self).home(),
            final(self)@ == old(self)@,
            match r {
                Ok(PossibleSolutions::Exactly(v)) => {
                    &&& v@.len() <= n
                    &&& ascending(v@)
                    &&& all_possible(old(self)@.frames, bv@, v@)
                    &&& forall|u: nat|
                        possible(old(self)@.frames, bv@, u) ==> exists|k: int|
                            0 <= k < v@.len() && (#[trigger] v@[k]).value == u
                },
                Ok(PossibleSolutions::AtLeast(v)) => {
                    &&& v@.len() == n + 1
                    &&& ascending(v@)
                    &&& all_possible(old(self)@.frames, bv@, v@)
                },
                Err(e) => query_failure(e.kind(), bv.width()),
            },
    {
        self.solver.get_possible_solutions_for_bv(bv, n)
    }

    /// The values that the name of the given function can have under what
    /// is asserted. The name must be bound.
    pub fn get_possible_solutions_for_irname(
        &mut self,
        funcname: &String,
        name: &Name,
        n: usize,
    ) -> (r: Result<PossibleSolutions<BVSolution>, Error>)
        requires
            old(self).wf(),
            old(self)@.vars.contains_key((funcname@, name@)),
        ensures
            final(self).wf(),
            final(self).home() == old(self).home(),
            final(self)@ == old(self)@,
            match r {
                Ok(PossibleSolutions::Exactly(v)) => {
                    let t = old(self)@.vars[(funcname@, name@)].0;
                    &&& v@.len() <= n
                    &&& ascending(v@)
                    &&& all_possible(old(self)@.frames, t, v@)
                    &&& forall|u: nat|
                        possible(old(self)@.frames, t, u) ==> exists|k: int|
                            0 <= k < v@.len() && (#[trigger] v@[k]).value == u
                },
                Ok(PossibleSolutions::AtLeast(v)) => {
                    let t = old(self)@.vars[(funcname@, name@)].0;
                    &&& v@.len() == n + 1
                    &&& ascending(v@)
                    &&& all_possible(old(self)@.frames, t, v@)
                },
                Err(e) => query_failure(e.kind(), old(self)@.vars[(funcname@, name@)].0.width()),
            },
    {
        let bv = self.varmap.lookup_var(funcname, name).clone();
        self.solver.get_possible_solutions_for_bv(&bv, n)
    }

    /// The greatest value, as an unsigned number, that `bv` can have under
    /// what is asserted, or nothing where nothing can hold.
    pub fn max_possible_solution_for_bv(&mut self, bv: &BitVec<'ctx>) -> (r: Result<
        Option<u64>,
        Error,
    >)
        requires
            old(self).wf(),
            bv.home() == old(self).home(),
            bv.width() <= 64,
        ensures
            final(self).wf(),
            final(self).home() == old(self).home(),
            final(self)@ == old(self)@,
            match r {
                Ok(Some(m)) => possible(old(self)@.frames, bv@, m as nat) && forall|u: nat|
                    possible(old(self)@.frames, bv@, u) ==> u <= m,
                Ok(None) => !old(self).satisfiable(),
                Err(e) => query_failure(e.kind(), bv.width()),
            },
    {
        self.solver.max_possible_solution_for_bv(bv)
    }

    /// The greatest value that the name of the given function can have
    /// under what is asserted. The name must be bound to at most 64 bits.
    pub fn max_possible_solution_for_irname(&mut self, funcname: &String, name: &Name) -> (r:
        Result<Option<u64>, Error>)
        requires
            old(self).wf(),
            old(self)@.vars.contains_key((funcname@, name@)),
            old(self)@.vars[(funcname@, name@)].0.width() <= 64,
        ensures
            final(self).wf(),
            final(self).home() == old(self).home(),
            final(self)@ == old(self)@,
            match r {
                Ok(Some(m)) => {
                    let t = old(self)@.vars[(funcname@, name@)].0;
                    possible(old(self)@.frames, t, m as nat) && forall|u: nat|
                        possible(old(self)@.frames, t, u) ==> u <= m
                },
                Ok(None) => !old(self).satisfiable(),
                Err(e) => query_failure(e.kind(), old(self)@.vars[(funcname@, name@)].0.width()),
            },
    {
        let bv = self.varmap.lookup_var(funcname, name).clone();
        self.solver.max_possible_solution_for_bv(&bv)
    }

    /// The least value, as an unsigned number, that `bv` can have under
    /// what is asserted, or nothing where nothing can hold.
    pub fn min_possible_solution_for_bv(&mut self, bv: &BitVec<'ctx>) -> (r: Result<
        Option<u64>,
        Error,
    >)
        requires
            old(self).wf(),
            bv.home() == old(self).home(),
            bv.width() <= 64,
        ensures
            final(self).wf(),
            final(self).home() == old(self).home(),
            final(self)@ == old(self)@,
            match r {
                Ok(Some(m)) => possible(old(self)@.frames, bv@, m as nat) && forall|u: nat|
                    possible(old(self)@.frames, bv@, u) ==> u >= m,
                Ok(None) => !old(self).satisfiable(),
                Err(e) => query_failure(e.kind(), bv.width()),
            },
    {
        self.solver.min_possible_solution_for_bv(bv)
    }

    /// The least value that the name of the given function can have under
    /// what is asserted. The name must be bound to at most 64 bits.
    pub fn min_possible_solution_for_irname(&mut self, funcname: &String, name: &Name) -> (r:
        Result<Option<u64>, Error>)
        requires
            old(self).wf(),
            old(self)@.vars.contains_key((funcname@, name@)),
            old(self)@.vars[(funcname@, name@)].0.width() <= 64,
        ensures
            final(self).wf(),
            final(self).home() == old(self).home(),
            final(self)@ == old(self)@,
            match r {
                Ok(Some(m)) => {
                    let t = old(self)@.vars[(funcname@, name@)].0;
                    possible(old(self)@.frames, t, m as nat) && forall|u: nat|
                        possible(old(self)@.frames, t, u) ==> u >= m
                },
                Ok(None) => !old(self).satisfiable(),
                Err(e) => query_failure(e.kind(), old(self)@.vars[(funcname@, name@)].0.width()),
            },
    {
        let bv = self.varmap.lookup_var(funcname, name).clone();
        self.solver.min_possible_solution_for_bv(&bv)
    }

    /// The bit `1` for `true`, the bit `0` for `false`, as a vector of
    /// width one.
    pub fn bv_from_bool(&self, b: bool) -> (r: BitVec<'ctx>)
        ensures
            r.home() == self.home(),
            r.width() == 1,
            r@ == if b {
                bit_true()
            } else {
                bit_false()
            },
    {
        BitVec::from_bool(self.ctx, b)
    }

    /// The constant `i` in two's complement, reduced to `width` bits.
    pub fn bv_from_i32(&self, i: i32, width: u32) -> (r: BitVec<'ctx>)
        requires
            width > 0,
        ensures
            r.home() == self.home(),
            r.width() == width,
            r@ == (Term::Const {
                value: ((i as int) % (pow2(width as nat) as int)) as nat,
                width: width as nat,
            }),
    {
        BitVec::from_i32(self.ctx, i, width)
    }

    /// The constant `u`, reduced to `width` bits.
    pub fn bv_from_u32(&self, u: u32, width: u32) -> (r: BitVec<'ctx>)
        requires
            width > 0,
        ensures
            r.home() == self.home(),
            r.width() == width,
            r@ == (Term::Const { value: (u as nat) % pow2(width as nat), width: width as nat }),
    {
        BitVec::from_u32(self.ctx, u, width)
    }

    /// The constant `i` in two's complement, reduced to `width` bits.
    pub fn bv_from_i64(&self, i: i64, width: u32) -> (r: BitVec<'ctx>)
        requires
            width > 0,
        ensures
            r.home() == self.home(),
            r.width() == width,
            r@ == (Term::Const {
                value: ((i as int) % (pow2(width as nat) as int)) as nat,
                width: width as nat,
            }),
    {
        BitVec::from_i64(self.ctx, i, width)
    }

    /// The constant `u`, reduced to `width` bits.
    pub fn bv_from_u64(&self, u: u64, width: u32) -> (r: BitVec<'ctx>)
        requires
            width > 0,
        ensures
            r.home() == self.home(),
            r.width() == width,
            r@ == (Term::Const { value: (u as nat) % pow2(width as nat), width: width as nat }),
    {
        BitVec::from_u64(self.ctx, u, width)
    }

    /// The constant zero of `width` bits.
    pub fn zero(&self, width: u32) -> (r: BitVec<'ctx>)
        requires
            width > 0,
        ensures
            r.home() == self.home(),
            r.width() == width,
            r@ == (Term::Const { value: 0, width: width as nat }),
    {
        BitVec::zero(self.ctx, width)
    }

    /// The constant one of `width` bits.
    pub fn one(&self, width: u32) -> (r: BitVec<'ctx>)
        requires
            width > 0,
        ensures
            r.home() == self.home(),
            r.width() == width,
            r@ == (Term::Const { value: 1, width: width as nat }),
    {
        BitVec::one(self.ctx, width)
    }

    /// The vector of `width` bits that are all one.
    pub fn ones(&self, width: u32) -> (r: BitVec<'ctx>)
        requires
            width > 0,
        ensures
            r.home() == self.home(),
            r.width() == width,
            r@ == Term::not(Term::Const { value: 0, width: width as nat }),
    {
        BitVec::ones(self.ctx, width)
    }

    /// Makes a new unknown of `bits` bits and binds a new version of the
    /// name, in the current function, to it. Fails with `LoopBoundExceeded`
    /// where the name has all the versions it may have, else with
    /// `OtherError` where the name of the unknown would hold a NUL.
    pub fn new_bv_with_name(&mut self, name: Name, bits: u32) -> (r: Result<BitVec<'ctx>, Error>)
        requires
            old(self).wf(),
            bits > 0,
        ensures
            final(self).wf(),
            final(self).home() == old(self).home(),
            match r {
                Ok(bv) => {
                    let key = (old(self).cur_func(), name@);
                    let version = old(self).versions_of(key);
                    &&& version < old(self).max_versions()
                    &&& bv.home() == old(self).home()
                    &&& bv@ == (Term::Var {
                        name: label(key.0, key.1, version),
                        width: bits as nat,
                    })
                    &&& final(self)@ == (StateView {
                        vars: old(self)@.vars.insert(key, (bv@, (version + 1) as nat)),
                        ..old(self)@
                    })
                },
                Err(e) => {
                    let key = (old(self).cur_func(), name@);
                    let version = old(self).versions_of(key);
                    &&& final(self)@ == old(self)@
                    &&& if version >= old(self).max_versions() {
                        e.kind() == ErrorKind::LoopBoundExceeded
                    } else {
                        e.kind() == ErrorKind::OtherError && label(key.0, key.1, version).contains(
                            '\0',
                        )
                    }
                },
            },
    {
        self.varmap.new_bv_with_name(self.cur_loc.func.name.clone(), name, bits)
    }

    /// The number of versions made of a name.
    pub open spec fn versions_of(&self, key: (Seq<char>, NameView)) -> nat {
        if self@.vars.contains_key(key) {
            self@.vars[key].1
        } else {
            0
        }
    }

    /// The greatest number of versions that a name may get.
    pub open spec fn max_versions(&self) -> nat {
        self@.max_versions
    }

    /// Binds a new version of the name, in the current function, to `bv`.
    /// Fails with `LoopBoundExceeded` where the name has all the versions it
    /// may have.
    pub fn assign_bv_to_name(&mut self, name: Name, bv: BitVec<'ctx>) -> (r: Result<(), Error>)
        requires
            old(self).wf(),
            bv.home() == old(self).home(),
        ensures
            final(self).wf(),
            final(self).home() == old(self).home(),
            final(self).max_versions() == old(self).max_versions(),
            match r {
                Ok(()) => {
                    let key = (old(self).cur_func(), name@);
                    let version = old(self).versions_of(key);
                    &&& version < old(self).max_versions()
                    &&& final(self)@ == (StateView {
                        vars: old(self)@.vars.insert(key, (bv@, (version + 1) as nat)),
                        ..old(self)@
                    })
                },
                Err(e) => {
                    &&& final(self)@ == old(self)@
                    &&& e.kind() == ErrorKind::LoopBoundExceeded
                    &&& old(self).versions_of((old(self).cur_func(), name@)) >= old(
                        self,
                    ).max_versions()
                },
            },
    {
        self.varmap.assign_bv_to_name(self.cur_loc.func.name.clone(), name, bv)
    }

    /// Records `resultval` as the result of an instruction that gives a
    /// value of type `ty` to `result`. Fails with `OtherError` where the
    /// size of the type is not the width of the value, else like
    /// `assign_bv_to_name`.
    pub fn record_bv_result(&mut self, result: &Name, ty: &Type, resultval: BitVec<'ctx>) -> (r:
        Result<(), Error>)
        requires
            old(self).wf(),
            resultval.home() == old(self).home(),
        ensures
            final(self).wf(),
            final(self).home() == old(self).home(),
            match r {
                Ok(()) => {
                    let key = (old(self).cur_func(), result@);
                    let version = old(self).versions_of(key);
                    &&& result_fits(*ty, resultval.width())
                    &&& version < old(self).max_versions()
                    &&& final(self)@ == (StateView {
                        vars: old(self)@.vars.insert(key, (resultval@, (version + 1) as nat)),
                        ..old(self)@
                    })
                },
                Err(e) => {
                    &&& final(self)@ == old(self)@
                    &&& if !result_fits(*ty, resultval.width()) {
                        e.kind() == ErrorKind::OtherError
                    } else {
                        e.kind() == ErrorKind::LoopBoundExceeded && old(self).versions_of(
                            (old(self).cur_func(), result@),
                        ) >= old(self).max_versions()
                    }
                },
            },
    {
        let fits = match crate::layout::size(ty) {
            Some(bits) => bits == resultval.get_width() as usize,
            None => false,
        };
        if !fits {
            Err(Error::other("a computed result has the wrong size for its instruction"))
        } else {
            self.assign_bv_to_name(result.clone(), resultval)
        }
    }

    /// Binds the latest version of the name, in the current function, to
    /// `bv` instead. The name must be bound.
    pub fn overwrite_latest_version_of_bv(&mut self, name: &Name, bv: BitVec<'ctx>)
        requires
            old(self).wf(),
            old(self)@.vars.contains_key((old(self).cur_func(), name@)),
            bv.home() == old(self).home(),
        ensures
            final(self).wf(),
            final(self).home() == old(self).home(),
            final(self)@ == (StateView {
                vars: old(self)@.vars.insert(
                    (old(self).cur_func(), name@),
                    (bv@, old(self)@.vars[(old(self).cur_func(), name@)].1),
                ),
                ..old(self)@
            }),
    {
        let funcname = self.cur_loc.func.name.clone();
        self.varmap.overwrite_latest_version_of_bv(&funcname, name, bv);
    }

    /// The address of the function of that name, if there is one.
    pub fn get_pointer_to_function(&self, funcname: &str) -> (r: Option<&BitVec<'ctx>>)
        requires
            self.wf(),
        ensures
            match r {
                Some(addr) => {
                    &&& self@.globals.contains_key(NameView::Name(funcname@))
                    &&& addr@ == global_addr(self@.globals[NameView::Name(funcname@)])
                    &&& addr.home() == self.home()
                    &&& addr.width() == 64
                },
                None => !self@.globals.contains_key(NameView::Name(funcname@)),
            },
    {
        let name = Name::from_str(funcname);
        match self.global_allocations.get_global_address(&name) {
            Some(ga) => Some(ga.address()),
            None => None,
        }
    }

    /// The address of the active hook for the function of that name, if
    /// there is one.
    pub fn get_pointer_to_function_hook(&self, funcname: &str) -> (r: Option<&BitVec<'ctx>>)
        requires
            self.wf(),
        ensures
            match r {
                Some(addr) => {
                    &&& self@.hooks.contains_key(funcname@)
                    &&& addr@ == self@.hooks[funcname@]
                    &&& addr.home() == self.home()
                    &&& addr.width() == 64
                },
                None => !self@.hooks.contains_key(funcname@) || forall|k: int|
                    0 <= k < self.configured_hooks().len() ==> (
                    #[trigger] self.configured_hooks()[k]).0 != funcname@,
            },
    {
        match self.config.function_hooks.get_hook_for(funcname) {
            Some(_) => self.global_allocations.get_function_hook_address(funcname),
            None => None,
        }
    }

    /// Appends to the log the watchpoints that an access triggered.
    fn log_triggers(&mut self, names: Vec<String>, is_write: bool)
        requires
            old(self).wf(),
        ensures
            final(self).wf(),
            final(self).home() == old(self).home(),
            final(self)@ == (StateView {
                watch_log: old(self)@.watch_log + events_of(names@, is_write),
                ..old(self)@
            }),
    {
        let mut rest = names;
        let ghost all = rest@;
        let ghost mut done: int = 0;
        proof {
            assert(events_of(all.subrange(0, 0), is_write) =~= Seq::empty());
            assert(self@.watch_log =~= old(self)@.watch_log + events_of(
                all.subrange(0, 0),
                is_write,
            ));
        }
        while rest.len() > 0
            invariant
                self.wf(),
                self.home() == old(self).home(),
                0 <= done <= all.len(),
                rest@ == all.subrange(done, all.len() as int),
                self@ == (StateView {
                    watch_log: old(self)@.watch_log + events_of(all.subrange(0, done), is_write),
                    ..old(self)@
                }),
            decreases rest@.len(),
        {
            let name = rest.remove(0);
            let ghost before = self@.watch_log;
            self.watch_log.push(WatchEvent { name, is_write });
            proof {
                assert(self@.watch_log =~= before.push(
                    WatchEventView { name: all[done]@, is_write },
                ));
                assert(self@.watch_log =~= old(self)@.watch_log + events_of(
                    all.subrange(0, done + 1),
                    is_write,
                ));
                done = done + 1;
            }
        }
        proof {
            assert(all.subrange(0, done) =~= all);
        }
    }

    /// Reads `bits` bits of memory starting at the byte at `addr`. The
    /// enabled watchpoints that the access can touch are logged first. Only
    /// the question whether one is touched can fail: where no watchpoint is
    /// enabled the read succeeds.
    pub fn read(&mut self, addr: &BitVec<'ctx>, bits: u32) -> (r: Result<BitVec<'ctx>, Error>)
        requires
            old(self).wf(),
            addr.home() == old(self).home(),
            addr.width() == 64,
            bits > 0,
        ensures
            final(self).wf(),
            final(self).home() == old(self).home(),
            match r {
                Ok(value) => {
                    &&& value.home() == old(self).home()
                    &&& value.width() == bits
                    &&& forall|i: Interp| #[trigger]
                        value.eval(i) == read_value(
                            cells_of(old(self)@.mem, i),
                            addr.number(i),
                            bits as nat,
                        )
                    &&& exists|names: Seq<String>| #[trigger]
                        triggered_names(old(self)@, addr@, bits as nat, names) && final(self)@
                            == (StateView {
                            watch_log: old(self)@.watch_log + events_of(names, false),
                            ..old(self)@
                        })
                },
                Err(e) => e.kind() == ErrorKind::SolverError && final(self)@ == old(self)@,
            },
            crate::watchpoints::none_enabled(old(self)@.watchpoints) ==> r is Ok,
    {
        match self.mem_watchpoints.process_watchpoint_triggers(&mut self.solver, addr, bits) {
            Ok(names) => {
                let ghost ns = names@;
                self.log_triggers(names, false);
                let value = self.mem.read(addr, bits);
                proof {
                    assert forall|k: int| 0 <= k < ns.len() implies is_triggered(
                        old(self)@,
                        addr@,
                        bits as nat,
                        (#[trigger] ns[k])@,
                    ) by {
                        assert(old(self).mem_watchpoints.triggered(
                            old(self).solver@,
                            addr@,
                            bits as nat,
                            ns[k]@,
                        ));
                    }
                    assert forall|id: Seq<char>|
                        is_triggered(old(self)@, addr@, bits as nat, id) implies exists|k: int|
                        0 <= k < ns.len() && (#[trigger] ns[k])@ == id by {
                        assert(old(self).mem_watchpoints.triggered(
                            old(self).solver@,
                            addr@,
                            bits as nat,
                            id,
                        ));
                    }
                    assert(triggered_names(old(self)@, addr@, bits as nat, ns));
                }
                Ok(value)
            },
            Err(e) => Err(e),
        }
    }

    /// Writes `val` into memory starting at the byte at `addr`. The enabled
    /// watchpoints that the access can touch are logged first. Only the
    /// question whether one is touched can fail: where no watchpoint is
    /// enabled the write succeeds.
    pub fn write(&mut self, addr: &BitVec<'ctx>, val: BitVec<'ctx>) -> (r: Result<(), Error>)
        requires
            old(self).wf(),
            addr.home() == old(self).home(),
            val.home() == old(self).home(),
            addr.width() == 64,
        ensures
            final(self).wf(),
            final(self).home() == old(self).home(),
            match r {
                Ok(()) => {
                    &&& forall|i: Interp| #[trigger]
                        cells_of(final(self)@.mem, i) == write_value(
                            cells_of(old(self)@.mem, i),
                            addr.number(i),
                            val.eval(i),
                        )
                    &&& exists|names: Seq<String>| #[trigger]
                        triggered_names(old(self)@, addr@, val.width(), names) && final(self)@ == (StateView {
                            mem: final(self)@.mem,
                            watch_log: old(self)@.watch_log + events_of(names, true),
                            ..old(self)@
                        })
                },
                Err(e) => e.kind() == ErrorKind::SolverError && final(self)@ == old(self)@,
            },
            crate::watchpoints::none_enabled(old(self)@.watchpoints) ==> r is Ok,
    {
        let bits = val.get_width();
        match self.mem_watchpoints.process_watchpoint_triggers(&mut self.solver, addr, bits) {
            Ok(names) => {
                let ghost ns = names@;
                self.log_triggers(names, true);
                let ghost logged = self@;
                self.mem.write(addr, val);
                proof {
                    assert forall|k: int| 0 <= k < ns.len() implies is_triggered(
                        old(self)@,
                        addr@,
                        bits as nat,
                        (#[trigger] ns[k])@,
                    ) by {
                        assert(old(self).mem_watchpoints.triggered(
                            old(self).solver@,
                            addr@,
                            bits as nat,
                            ns[k]@,
                        ));
                    }
                    assert forall|id: Seq<char>|
                        is_triggered(old(self)@, addr@, bits as nat, id) implies exists|k: int|
                        0 <= k < ns.len() && (#[trigger] ns[k])@ == id by {
                        assert(old(self).mem_watchpoints.triggered(
                            old(self).solver@,
                            addr@,
                            bits as nat,
                            id,
                        ));
                    }
                    assert(triggered_names(old(self)@, addr@, bits as nat, ns));
                    assert forall|i: Interp| #[trigger]
                        cells_of(self@.mem, i) == write_value(
                            cells_of(old(self)@.mem, i),
                            addr.number(i),
                            val.eval(i),
                        ) by {
                        assert(self.mem.cells(i) == cells_of(self@.mem, i));
                    }
                    assert(self@ == (StateView {
                        mem: self@.mem,
                        watch_log: old(self)@.watch_log + events_of(ns, true),
                        ..old(self)@
                    }));
                }
                Ok(())
            },
            Err(e) => Err(e),
        }
    }

    /// Adds an enabled watchpoint under a name; says whether it replaced
    /// one of that name.
    pub fn add_mem_watchpoint(&mut self, name: String, watchpoint: Watchpoint) -> (r: bool)
        requires
            old(self).wf(),
        ensures
            final(self).wf(),
            final(self).home() == old(self).home(),
            r == old(self)@.watchpoints.contains_key(name@),
            final(self)@ == (StateView {
                watchpoints: old(self)@.watchpoints.insert(name@, (watchpoint, true)),
                ..old(self)@
            }),
    {
        self.mem_watchpoints.add(name, watchpoint)
    }

    /// Removes the watchpoint of that name; says whether there was one.
    pub fn rm_mem_watchpoint(&mut self, name: &str) -> (r: bool)
        requires
            old(self).wf(),
        ensures
            final(self).wf(),
            final(self).home() == old(self).home(),
            r == old(self)@.watchpoints.contains_key(name@),
            final(self)@ == (StateView {
                watchpoints: old(self)@.watchpoints.remove(name@),
                ..old(self)@
            }),
    {
        self.mem_watchpoints.remove(name)
    }

    /// Disables the watchpoint of that name; says whether there is one.
    pub fn disable_watchpoint(&mut self, name: &str) -> (r: bool)
        requires
            old(self).wf(),
        ensures
            final(self).wf(),
            final(self).home() == old(self).home(),
            r == old(self)@.watchpoints.contains_key(name@),
            final(self)@ == (StateView {
                watchpoints: if r {
                    old(self)@.watchpoints.insert(name@, (old(self)@.watchpoints[name@].0, false))
                } else {
                    old(self)@.watchpoints
                },
                ..old(self)@
            }),
    {
        self.mem_watchpoints.disable(name)
    }

    /// Enables the watchpoint of that name; says whether there is one.
    pub fn enable_watchpoint(&mut self, name: &str) -> (r: bool)
        requires
            old(self).wf(),
        ensures
            final(self).wf(),
            final(self).home() == old(self).home(),
            r == old(self)@.watchpoints.contains_key(name@),
            final(self)@ == (StateView {
                watchpoints: if r {
                    old(self)@.watchpoints.insert(name@, (old(self)@.watchpoints[name@].0, true))
                } else {
                    old(self)@.watchpoints
                },
                ..old(self)@
            }),
    {
        self.mem_watchpoints.enable(name)
    }

    /// Whether an allocation of `bits` bits still fits the address space.
    pub fn can_allocate(&self, bits: u64) -> (r: bool)
        requires
            self.wf(),
        ensures
            r == (self@.cursor + reserved_bytes(bits) <= u64::MAX),
    {
        self.alloc.can_alloc(bits)
    }

    /// Allocates `bits` bits and returns a pointer to them: the cursor,
    /// which is a multiple of 8 and lies at or above the end of every
    /// earlier allocation, and then moves up by whole words.
    pub fn allocate(&mut self, bits: u64) -> (r: BitVec<'ctx>)
        requires
            old(self).wf(),
            old(self)@.cursor + reserved_bytes(bits) <= u64::MAX,
        ensures
            final(self).wf(),
            final(self).home() == old(self).home(),
            r.home() == old(self).home(),
            r.width() == 64,
            r@ == (Term::Const { value: old(self)@.cursor as nat, width: 64 }),
            final(self)@ == (StateView {
                cursor: (old(self)@.cursor + reserved_bytes(bits)) as u64,
                allocations: old(self)@.allocations.push((old(self)@.cursor, bits)),
                ..old(self)@
            }),
            laid_out(old(self)@.cursor, old(self)@.allocations),
            laid_out(final(self)@.cursor, final(self)@.allocations),
    {
        proof {
            self.alloc.lemma_laid_out();
        }
        let address = self.alloc.allocate(bits);
        proof {
            vstd::arithmetic::power2::lemma2_to64_rest();
            vstd::arithmetic::div_mod::lemma_small_mod(address as nat, pow2(64));
        }
        BitVec::from_u64(self.ctx, address, 64)
    }

    /// Records the current place as a step of the path.
    pub fn record_path_entry(&mut self)
        requires
            old(self).wf(),
        ensures
            final(self).wf(),
            final(self).home() == old(self).home(),
            final(self)@ == (StateView {
                path: old(self)@.path.push(entry_of(old(self)@.cur_loc)),
                ..old(self)@
            }),
    {
        let entry = PathEntry::from_location(&self.cur_loc);
        self.path.push(entry);
        proof {
            assert(self@.path =~= old(self)@.path.push(entry_of(old(self)@.cur_loc)));
        }
    }

    /// The steps of the path that were recorded, in order.
    pub fn get_path(&self) -> (r: &Vec<PathEntry>)
        ensures
            path_view(r@) == self@.path,
    {
        &self.path
    }

    /// Records that a call is made at the current place: a frame with that
    /// place and the current bindings of the current function.
    pub fn push_callsite(&mut self)
        requires
            old(self).wf(),
        ensures
            final(self).wf(),
            final(self).home() == old(self).home(),
            final(self)@.stack.len() == old(self)@.stack.len() + 1,
            final(self)@.stack.drop_last() == old(self)@.stack,
            final(self)@.stack.last().callsite == old(self)@.cur_loc,
            final(self)@.stack.last().funcname == old(self).cur_func(),
            captures(old(self)@.vars, old(self).cur_func(), final(self)@.stack.last().vars),
            final(self)@ == (StateView { stack: final(self)@.stack, ..old(self)@ }),
    {
        let frame = StackFrame {
            callsite: self.cur_loc.clone(),
            restore_info: self.varmap.get_restore_info_for_fn(self.cur_loc.func.name.clone()),
        };
        self.stack.push(frame);
        proof {
            assert(self@.stack.drop_last() =~= old(self)@.stack);
            assert forall|k: int| 0 <= k < self.stack@.len() implies (
            #[trigger] self.stack@[k]).wf(self.home()) by {
                if k < old(self).stack@.len() {
                    assert(self.stack@[k] == old(self).stack@[k]);
                }
            }
        }
    }

    /// Records that the current function returns: the last frame leaves, the
    /// bindings of the caller are put back, and the place of the call is
    /// returned. Nothing happens where the stack is empty.
    pub fn pop_callsite(&mut self) -> (r: Option<Location<'p>>)
        requires
            old(self).wf(),
        ensures
            final(self).wf(),
            final(self).home() == old(self).home(),
            match r {
                Some(loc) => {
                    let frame = old(self)@.stack.last();
                    &&& old(self)@.stack.len() > 0
                    &&& loc@ == frame.callsite
                    &&& final(self)@ == (StateView {
                        stack: old(self)@.stack.drop_last(),
                        vars: restored(
                            old(self)@.vars,
                            frame.funcname,
                            frame.vars,
                            frame.vars.len(),
                        ),
                        ..old(self)@
                    })
                },
                None => old(self)@.stack.len() == 0 && final(self)@ == old(self)@,
            },
    {
        match self.stack.pop() {
            Some(frame) => {
                proof {
                    assert(old(self).stack@[old(self).stack@.len() - 1].wf(self.home()));
                    assert(self@.stack =~= old(self)@.stack.drop_last());
                    assert forall|k: int| 0 <= k < self.stack@.len() implies (
                    #[trigger] self.stack@[k]).wf(self.home()) by {
                        assert(self.stack@[k] == old(self).stack@[k]);
                    }
                }
                let StackFrame { callsite, restore_info } = frame;
                self.varmap.restore_fn_vars(restore_info);
                Some(callsite)
            },
            None => {
                proof {
                    assert(self@.stack =~= old(self)@.stack);
                }
                None
            },
        }
    }

    /// Saves a checkpoint from which execution can go on later in the block
    /// `bb_to_enter` of the current function. The constraint is asserted
    /// only when, and if, the state goes back to the checkpoint.
    pub fn save_backtracking_point(&mut self, bb_to_enter: Name, constraint: BitVec<'ctx>)
        requires
            old(self).wf(),
            constraint.home() == old(self).home(),
            constraint.width() == 1,
        ensures
            final(self).wf(),
            final(self).home() == old(self).home(),
            final(self)@ == save_spec(old(self)@, bb_to_enter@, constraint@),
    {
        self.solver.push();
        let backtrack_loc = Location {
            module: self.cur_loc.module,
            func: self.cur_loc.func,
            bbname: bb_to_enter,
            instr: 0,
        };
        let point = BacktrackPoint {
            loc: backtrack_loc,
            stack: duplicate_stack(&self.stack),
            constraint,
            varmap: self.varmap.duplicate(),
            mem: self.mem.duplicate(),
            path_len: self.path.len(),
        };
        proof {
            assert(point.wf(self.home()));
        }
        self.backtrack_points.push(point);
        proof {
            assert(self@.backtrack =~= save_spec(
                old(self)@,
                bb_to_enter@,
                constraint@,
            ).backtrack);
            assert forall|k: int| 0 <= k < self.backtrack_points@.len() implies (
            #[trigger] self.backtrack_points@[k]).wf(self.home()) by {
                if k < old(self).backtrack_points@.len() {
                    assert(self.backtrack_points@[k] == old(self).backtrack_points@[k]);
                }
            }
        }
    }

    /// Goes back to the last checkpoint and says `true`, or says `false`
    /// where there is none.
    pub fn revert_to_backtracking_point(&mut self) -> (r: Result<bool, Error>)
        requires
            old(self).wf(),
        ensures
            final(self).wf(),
            final(self).home() == old(self).home(),
            r is Ok,
            r == Ok::<bool, Error>(old(self)@.backtrack.len() > 0),
            final(self)@ == if old(self)@.backtrack.len() > 0 {
                revert_spec(old(self)@)
            } else {
                old(self)@
            },
    {
        match self.backtrack_points.pop() {
            Some(bp) => {
                proof {
                    assert(old(self).backtrack_points@[old(self).backtrack_points@.len() - 1].wf(
                        self.home(),
                    ));
                    assert forall|k: int| 0 <= k < self.backtrack_points@.len() implies (
                    #[trigger] self.backtrack_points@[k]).wf(self.home()) by {
                        assert(self.backtrack_points@[k] == old(self).backtrack_points@[k]);
                    }
                }
                let BacktrackPoint { loc, stack, constraint, varmap, mem, path_len } = bp;
                self.solver.pop();
                self.varmap = varmap;
                self.mem = mem;
                self.stack = stack;
                self.path.truncate(path_len);
                self.cur_loc = loc;
                self.solver.assert_bv(&constraint);
                proof {
                    assert(self@.backtrack =~= old(self)@.backtrack.drop_last());
                    assert(self@.path =~= truncated(old(self)@.path, path_len as nat));
                    assert(self@ == revert_spec(old(self)@));
                }
                Ok(true)
            },
            None => {
                proof {
                    assert(self@.backtrack =~= old(self)@.backtrack);
                }
                Ok(false)
            },
        }
    }

    /// The number of checkpoints.
    pub fn count_backtracking_points(&self) -> (r: usize)
        ensures
            r == self@.backtrack.len(),
    {
        self.backtrack_points.len()
    }

    /// A state of its own that is the same, with a solver of its own: what
    /// is asserted in the one from now on does not reach the other.
    pub fn fork(&self) -> (r: State<'p, 'ctx>)
        requires
            self.wf(),
        ensures
            r.wf(),
            r.home() == self.home(),
            r@ == self@,
    {
        let mut stack = duplicate_stack(&self.stack);
        let mut points: Vec<BacktrackPoint<'p, 'ctx>> = Vec::new();
        let mut k: usize = 0;
        while k < self.backtrack_points.len()
            invariant
                self.wf(),
                0 <= k <= self.backtrack_points@.len(),
                points@.len() == k,
                forall|m: int| 0 <= m < k ==> (#[trigger] points@[m])@ == self.backtrack_points@[m]@,
                forall|m: int| 0 <= m < k ==> (#[trigger] points@[m]).wf(self.home()),
                forall|m: int|
                    0 <= m < k ==> (#[trigger] points@[m]).bound() == self.varmap.max_versions(),
            decreases self.backtrack_points@.len() - k,
        {
            proof {
                assert(self.backtrack_points@[k as int].wf(self.home()));
                assert(self.backtrack_points@[k as int].bound() == self.varmap.max_versions());
            }
            points.push(self.backtrack_points[k].duplicate());
            k = k + 1;
        }
        let mut path: Vec<PathEntry> = Vec::new();
        let mut k: usize = 0;
        while k < self.path.len()
            invariant
                0 <= k <= self.path@.len(),
                path@.len() == k,
                forall|m: int| 0 <= m < k ==> (#[trigger] path@[m])@ == self.path@[m]@,
            decreases self.path@.len() - k,
        {
            path.push(self.path[k].clone());
            k = k + 1;
        }
        let mut watch_log: Vec<WatchEvent> = Vec::new();
        let mut k: usize = 0;
        while k < self.watch_log.len()
            invariant
                0 <= k <= self.watch_log@.len(),
                watch_log@.len() == k,
                forall|m: int| 0 <= m < k ==> (#[trigger] watch_log@[m])@ == self.watch_log@[m]@,
            decreases self.watch_log@.len() - k,
        {
            watch_log.push(self.watch_log[k].clone());
            k = k + 1;
        }
        let r = State {
            solver: self.solver.duplicate(),
            config: self.config.duplicate(),
            cur_loc: self.cur_loc.clone(),
            ctx: self.ctx,
            varmap: self.varmap.duplicate(),
            mem: self.mem.duplicate(),
            alloc: self.alloc.duplicate(),
            global_allocations: self.global_allocations.duplicate(),
            stack,
            backtrack_points: points,
            path,
            mem_watchpoints: self.mem_watchpoints.duplicate(),
            watch_log,
        };
        proof {
            assert(r@.backtrack =~= self@.backtrack);
            assert(r@.path =~= self@.path);
            assert(r@.watch_log =~= self@.watch_log);
        }
        r
    }
}

/// The term of the address of what lies at a global name.
pub open spec fn global_addr(g: GlobalView) -> Term {
    match g {
        GlobalView::Variable { addr, .. } => addr,
        GlobalView::Function { addr, .. } => addr,
    }
}

/// Whether a value of `width` bits fits an instruction whose result has
/// type `ty`: the size of the type is known and is that width.
pub open spec fn result_fits(ty: Type, width: nat) -> bool {
    crate::layout::type_bits(ty) == Some(width as usize) && width <= usize::MAX
}

/// The events that the named watchpoints make when an access triggers them.
pub open spec fn events_of(names: Seq<String>, is_write: bool) -> Seq<WatchEventView> {
    Seq::new(names.len(), |k: int| WatchEventView { name: names[k]@, is_write })
}

/// Whether `names` are the enabled watchpoints of the state that an access
/// of `bits` bits at `addr` can touch under what is asserted, each once, in
/// ascending order.
pub open spec fn triggered_names(s: StateView, addr: Term, bits: nat, names: Seq<String>) -> bool {
    &&& forall|k: int|
        0 <= k < names.len() ==> is_triggered(s, addr, bits, (#[trigger] names[k])@)
    &&& forall|id: Seq<char>|
        is_triggered(s, addr, bits, id) ==> exists|k: int|
            0 <= k < names.len() && (#[trigger] names[k])@ == id
    &&& crate::watchpoints::in_order(crate::text::texts(names))
}

/// Whether the state has an enabled watchpoint of that name which an access
/// of `bits` bits at `addr` can touch under what is asserted.
pub open spec fn is_triggered(s: StateView, addr: Term, bits: nat, id: Seq<char>) -> bool {
    &&& s.watchpoints.contains_key(id)
    &&& s.watchpoints[id].1
    &&& crate::watchpoints::can_trigger(s.frames, addr, bits, s.watchpoints[id].0)
}

/// Whether `vars` are the bindings of the names of `func` in `m`: each of
/// them is one, and each name of `func` that is bound occurs.
pub open spec fn captures(
    m: Map<(Seq<char>, NameView), (Term, nat)>,
    func: Seq<char>,
    vars: Seq<(NameView, Term)>,
) -> bool {
    &&& forall|k: int|
        0 <= k < vars.len() ==> m.contains_key((func, (#[trigger] vars[k]).0)) && m[(
            func,
            vars[k].0,
        )].0 == vars[k].1
    &&& forall|name: NameView|
        m.contains_key((func, name)) ==> exists|k: int|
            0 <= k < vars.len() && (#[trigger] vars[k]).0 == name
}

/// What an evaluation in the state reads.
pub open spec fn env_of(s: StateView) -> Env {
    Env { globals: s.globals, aliases: s.cur_loc.module.global_aliases@ }
}

/// Whether the state `cur` is the state `base` after the effects `fx`: the
/// globals of `fx` are marked, memory holds its writes, and all else is as
/// it was.
pub open spec fn tracks(base: StateView, fx: Effects, cur: StateView) -> bool {
    &&& cur.globals == marked(base.globals, fx.ready)
    &&& forall|i: Interp| #[trigger]
        cells_of(cur.mem, i) == apply_writes(cells_of(base.mem, i), fx.writes, i, fx.writes.len())
    &&& cur == (StateView { globals: cur.globals, mem: cur.mem, ..base })
}

/// Whether a result is what was to come out: the term with a handle of the
/// context `home`, or a failure of the kind.
pub open spec fn answers<'ctx>(
    r: Result<BitVec<'ctx>, Error>,
    expected: Result<Term, ErrorKind>,
    home: int,
) -> bool {
    match (r, expected) {
        (Ok(bv), Ok(t)) => bv@ == t && bv.home() == home,
        (Err(e), Err(k)) => e.kind() == k,
        _ => false,
    }
}

/// The constant that the first alias of that name stands for.
fn find_alias<'p>(aliases: &'p Vec<GlobalAlias>, name: &Name) -> (r: Option<&'p Constant>)
    ensures
        match r {
            Some(c) => alias_from(aliases@, name@, 0) == Some(*c),
            None => alias_from(aliases@, name@, 0) is None,
        },
{
    let mut k: usize = 0;
    while k < aliases.len()
        invariant
            0 <= k <= aliases@.len(),
            alias_from(aliases@, name@, 0) == alias_from(aliases@, name@, k as nat),
        decreases aliases@.len() - k,
    {
        if aliases[k].name.same(name) {
            return Some(&aliases[k].aliasee);
        }
        k = k + 1;
    }
    None
}

fn relation_for(p: IntPredicate) -> (r: Relation)
    ensures
        r == relation_of(p),
{
    match p {
        IntPredicate::EQ => Relation::Eq,
        IntPredicate::NE => Relation::Eq,
        IntPredicate::UGT => Relation::Ugt,
        IntPredicate::UGE => Relation::Uge,
        IntPredicate::ULT => Relation::Ult,
        IntPredicate::ULE => Relation::Ule,
        IntPredicate::SGT => Relation::Sgt,
        IntPredicate::SGE => Relation::Sge,
        IntPredicate::SLT => Relation::Slt,
        IntPredicate::SLE => Relation::Sle,
    }
}

/// One more element above what was put together so far.
fn combine_results<'ctx>(
    acc: Result<BitVec<'ctx>, Error>,
    new: Result<BitVec<'ctx>, Error>,
    Ghost(acc_spec): Ghost<Result<Term, ErrorKind>>,
    Ghost(new_spec): Ghost<Result<Term, ErrorKind>>,
    Ghost(home): Ghost<int>,
) -> (r: Result<BitVec<'ctx>, Error>)
    requires
        answers(acc, acc_spec, home),
        answers(new, new_spec, home),
    ensures
        answers(r, combine(acc_spec, new_spec), home),
{
    match new {
        Err(e) => Err(e),
        Ok(b) => match acc {
            Err(e) => Err(e),
            Ok(a) => {
                let wa = a.get_width();
                let wb = b.get_width();
                if wb <= u32::MAX - wa {
                    Ok(b.concat(&a))
                } else {
                    Err(Error::malformed("an aggregate constant is too wide"))
                }
            },
        },
    }
}

/// The zero of a type.
fn zero_for_type<'ctx>(ctx: &'ctx z3::Context, ty: &Type) -> (r: Result<BitVec<'ctx>, Error>)
    ensures
        answers(r, zero_of_type(*ty), context_id(*ctx)),
{
    match crate::layout::size(ty) {
        Some(n) => if 0 < n && n <= u32::MAX as usize {
            Ok(BitVec::zero(ctx, n as u32))
        } else {
            Err(Error::malformed("a type has no size that a constant can have"))
        },
        None => Err(Error::malformed("the size of a type is unknown")),
    }
}

/// A value converted to a type of `n` bits.
fn convert<'ctx>(op: CastOp, bv: BitVec<'ctx>, n: usize) -> (r: Result<BitVec<'ctx>, Error>)
    ensures
        answers(r, converted(op, bv@, n as nat), bv.home()),
{
    let width = bv.get_width();
    match op {
        CastOp::Trunc => if 0 < n && n <= width as usize {
            Ok(bv.slice((n - 1) as u32, 0))
        } else {
            Err(Error::malformed("a truncation does not make the value narrower"))
        },
        CastOp::ZExt => if width as usize <= n && n <= u32::MAX as usize {
            Ok(crate::bv::zero_extend_to_bits(bv, n as u32))
        } else {
            Err(Error::malformed("an extension does not make the value wider"))
        },
        CastOp::SExt => if width as usize <= n && n <= u32::MAX as usize {
            Ok(crate::bv::sign_extend_to_bits(bv, n as u32))
        } else {
            Err(Error::malformed("an extension does not make the value wider"))
        },
        _ => if width as usize == n {
            Ok(bv)
        } else {
            Err(Error::malformed("a cast changes the size of the value"))
        },
    }
}

/// Whether the indices from position `start` on lead through structs to an
/// element of `aggregate`.
fn check_path(aggregate: &Constant, path: &Vec<u32>, start: usize) -> (r: bool)
    requires
        start <= path@.len(),
    ensures
        r == path_exists(*aggregate, path@.subrange(start as int, path@.len() as int)),
    decreases path@.len() - start,
{
    let ghost rest = path@.subrange(start as int, path@.len() as int);
    if start == path.len() {
        true
    } else {
        match aggregate {
            Constant::Struct { values, .. } => {
                let index = path[start] as usize;
                proof {
                    assert(rest[0] == path@[start as int]);
                    assert(rest.drop_first() =~= path@.subrange(start + 1, path@.len() as int));
                }
                if index < values.len() {
                    check_path(&values[index], path, start + 1)
                } else {
                    false
                }
            },
            _ => false,
        }
    }
}

/// The element of `aggregate` that the indices from position `start` on
/// lead to through structs. Fails with `MalformedInstruction` where they
/// lead nowhere.
pub fn simplify_const_ev<'a>(aggregate: &'a Constant, path: &Vec<u32>, start: usize) -> (r: Result<
    &'a Constant,
    Error,
>)
    requires
        start <= path@.len(),
    ensures
        match r {
            Ok(c) => {
                &&& path_exists(*aggregate, path@.subrange(start as int, path@.len() as int))
                &&& *c == element_at(*aggregate, path@.subrange(start as int, path@.len() as int))
            },
            Err(e) => {
                &&& !path_exists(*aggregate, path@.subrange(start as int, path@.len() as int))
                &&& e.kind() == ErrorKind::MalformedInstruction
            },
        },
    decreases path@.len() - start,
{
    let ghost rest = path@.subrange(start as int, path@.len() as int);
    if start == path.len() {
        Ok(aggregate)
    } else {
        match aggregate {
            Constant::Struct { values, .. } => {
                let index = path[start] as usize;
                proof {
                    assert(rest[0] == path@[start as int]);
                    assert(rest.drop_first() =~= path@.subrange(start + 1, path@.len() as int));
                }
                if index < values.len() {
                    simplify_const_ev(&values[index], path, start + 1)
                } else {
                    Err(Error::malformed("an index of an extract-value is out of range"))
                }
            },
            _ => Err(Error::malformed("an extract-value does not index a struct")),
        }
    }
}

impl<'p, 'ctx> State<'p, 'ctx> {
    /// Evaluates a constant. Globals that it refers to for the first time
    /// are marked as initialized, and their initializers are written to
    /// memory.
    pub fn const_to_bv(&mut self, c: &Constant) -> (r: Result<BitVec<'ctx>, Error>)
        requires
            old(self).wf(),
        ensures
            final(self).wf(),
            final(self).home() == old(self).home(),
            ({
                let out = eval_const(*c, env_of(old(self)@), no_effects(), MAX_CONST_DEPTH as nat);
                &&& answers(r, out.0, old(self).home())
                &&& tracks(old(self)@, out.1, final(self)@)
            }),
    {
        proof {
            assert(marked(self@.globals, Set::empty()) =~= self@.globals);
        }
        let (r, _) = self.eval_constant(c, MAX_CONST_DEPTH, Ghost(self@), Ghost(no_effects()));
        r
    }

    /// The value of an operand: of a constant what it evaluates to, of a
    /// local name what it is bound to in the current function. The name
    /// must be bound. Fails with `MalformedInstruction` for metadata.
    pub fn operand_to_bv(&mut self, op: &Operand) -> (r: Result<BitVec<'ctx>, Error>)
        requires
            old(self).wf(),
            op matches Operand::LocalOperand { name, .. } ==> old(self)@.vars.contains_key(
                (old(self).cur_func(), name@),
            ),
        ensures
            final(self).wf(),
            final(self).home() == old(self).home(),
            match *op {
                Operand::ConstantOperand(c) => {
                    let out = eval_const(c, env_of(old(self)@), no_effects(), MAX_CONST_DEPTH as nat);
                    &&& answers(r, out.0, old(self).home())
                    &&& tracks(old(self)@, out.1, final(self)@)
                },
                Operand::LocalOperand { name, .. } => {
                    &&& final(self)@ == old(self)@
                    &&& answers(
                        r,
                        Ok(old(self)@.vars[(old(self).cur_func(), name@)].0),
                        old(self).home(),
                    )
                },
                Operand::MetadataOperand => {
                    &&& final(self)@ == old(self)@
                    &&& answers(r, Err(ErrorKind::MalformedInstruction), old(self).home())
                },
            },
    {
        match op {
            Operand::ConstantOperand(c) => self.const_to_bv(c),
            Operand::LocalOperand { name, .. } => {
                let funcname = self.cur_loc.func.name.clone();
                Ok(self.varmap.lookup_var(&funcname, name).clone())
            },
            Operand::MetadataOperand => Err(Error::malformed("metadata has no value")),
        }
    }

    fn eval_constant(
        &mut self,
        c: &Constant,
        fuel: usize,
        Ghost(base): Ghost<StateView>,
        Ghost(done): Ghost<Effects>,
    ) -> (r: (Result<BitVec<'ctx>, Error>, Ghost<Effects>))
        requires
            old(self).wf(),
            tracks(base, done, old(self)@),
        ensures
            final(self).wf(),
            final(self).home() == old(self).home(),
            r.1@ == eval_const(*c, env_of(base), done, fuel as nat).1,
            answers(r.0, eval_const(*c, env_of(base), done, fuel as nat).0, old(self).home()),
            tracks(base, r.1@, final(self)@),
        decreases fuel, 0nat, *c, 1nat,
    {
        let ghost env = env_of(base);
        match c {
            Constant::Int { bits, value } => {
                if *bits == 0 {
                    (Err(Error::malformed("an integer constant has no bits")), Ghost(done))
                } else {
                    (Ok(BitVec::from_u64(self.ctx, *value, *bits)), Ghost(done))
                }
            },
            Constant::Null(ty) => (zero_for_type(self.ctx, ty), Ghost(done)),
            Constant::AggregateZero(ty) => (zero_for_type(self.ctx, ty), Ghost(done)),
            Constant::Undef(ty) => (zero_for_type(self.ctx, ty), Ghost(done)),
            Constant::Struct { values, .. } => self.eval_elements(values, fuel, Ghost(base), Ghost(done)),
            Constant::Array { elements, .. } => self.eval_elements(
                elements,
                fuel,
                Ghost(base),
                Ghost(done),
            ),
            Constant::Vector(elements) => self.eval_elements(
                elements,
                fuel,
                Ghost(base),
                Ghost(done),
            ),
            Constant::GlobalReference { name, .. } => self.eval_reference(
                name,
                fuel,
                Ghost(base),
                Ghost(done),
                Ghost(*c),
            ),
            Constant::Binary { op, operand0, operand1 } => {
                let (a, Ghost(after_a)) = self.eval_constant(operand0, fuel, Ghost(base), Ghost(done));
                match a {
                    Err(e) => (Err(e), Ghost(after_a)),
                    Ok(ta) => {
                        let (b, Ghost(after_b)) = self.eval_constant(
                            operand1,
                            fuel,
                            Ghost(base),
                            Ghost(after_a),
                        );
                        match b {
                            Err(e) => (Err(e), Ghost(after_b)),
                            Ok(tb) => if ta.get_width() == tb.get_width() {
                                (Ok(ta.binary(*op, &tb)), Ghost(after_b))
                            } else {
                                (
                                    Err(Error::malformed("the operands differ in width")),
                                    Ghost(after_b),
                                )
                            },
                        }
                    },
                }
            },
            Constant::ExtractElement { vector, index } => {
                match (&**index, &**vector) {
                    (Constant::Int { value, .. }, Constant::Vector(elements)) => {
                        if *value < elements.len() as u64 && fuel > 0 {
                            self.eval_constant(
                                &elements[*value as usize],
                                fuel - 1,
                                Ghost(base),
                                Ghost(done),
                            )
                        } else {
                            (
                                Err(Error::malformed("an index of an extract-element is out of range")),
                                Ghost(done),
                            )
                        }
                    },
                    _ => (
                        Err(
                            Error::malformed(
                                "an extract-element needs a constant index into a constant vector",
                            ),
                        ),
                        Ghost(done),
                    ),
                }
            },
            Constant::InsertElement { vector, element, index } => {
                match (&**index, &**vector) {
                    (Constant::Int { value, .. }, Constant::Vector(elements)) => {
                        if *value < elements.len() as u64 && fuel > 0 {
                            let none: Vec<u32> = Vec::new();
                            proof {
                                assert(none@.subrange(0, 0) =~= Seq::<u32>::empty());
                            }
                            self.eval_patched_elements(
                                elements,
                                *value as usize,
                                element,
                                &none,
                                0,
                                fuel - 1,
                                Ghost(base),
                                Ghost(done),
                            )
                        } else {
                            (
                                Err(Error::malformed("an index of an insert-element is out of range")),
                                Ghost(done),
                            )
                        }
                    },
                    _ => (
                        Err(
                            Error::malformed(
                                "an insert-element needs a constant index into a constant vector",
                            ),
                        ),
                        Ghost(done),
                    ),
                }
            },
            Constant::ExtractValue { aggregate, indices } => {
                proof {
                    assert(indices@.subrange(0, indices@.len() as int) =~= indices@);
                }
                if fuel == 0 {
                    return (
                        Err(Error::malformed("the evaluation of a constant nests too deep")),
                        Ghost(done),
                    );
                }
                match simplify_const_ev(aggregate, indices, 0) {
                    Ok(target) => self.eval_constant(target, fuel - 1, Ghost(base), Ghost(done)),
                    Err(e) => (Err(e), Ghost(done)),
                }
            },
            Constant::InsertValue { aggregate, element, indices } => {
                proof {
                    assert(indices@.subrange(0, indices@.len() as int) =~= indices@);
                }
                if fuel > 0 && check_path(aggregate, indices, 0) {
                    self.simplify_const_iv(
                        aggregate,
                        element,
                        indices,
                        0,
                        fuel - 1,
                        Ghost(base),
                        Ghost(done),
                    )
                } else {
                    (
                        Err(Error::malformed("an index of an insert-value is out of range")),
                        Ghost(done),
                    )
                }
            },
            Constant::GetElementPtr { address, address_type, indices, .. } => {
                let (bvbase, Ghost(after_base)) = self.eval_constant(
                    address,
                    fuel,
                    Ghost(base),
                    Ghost(done),
                );
                match bvbase {
                    Err(e) => (Err(e), Ghost(after_base)),
                    Ok(tb) => {
                        let bits = tb.get_width();
                        let (offset, Ghost(after)) = self.get_offset_recursive(
                            indices,
                            0,
                            address_type,
                            bits,
                            fuel,
                            Ghost(base),
                            Ghost(after_base),
                        );
                        match offset {
                            Err(e) => (Err(e), Ghost(after)),
                            Ok(to) => (Ok(tb.add(&to)), Ghost(after)),
                        }
                    },
                }
            },
            Constant::Cast { op, operand, to_type } => {
                let (value, Ghost(after)) = self.eval_constant(operand, fuel, Ghost(base), Ghost(done));
                match value {
                    Err(e) => (Err(e), Ghost(after)),
                    Ok(t) => match crate::layout::size(to_type) {
                        Some(n) => (convert(*op, t, n), Ghost(after)),
                        None => (
                            Err(Error::malformed("the size of the type of a cast is unknown")),
                            Ghost(after),
                        ),
                    },
                }
            },
            Constant::ICmp { predicate, operand0, operand1 } => {
                let (a, Ghost(after_a)) = self.eval_constant(operand0, fuel, Ghost(base), Ghost(done));
                match a {
                    Err(e) => (Err(e), Ghost(after_a)),
                    Ok(ta) => {
                        let (b, Ghost(after_b)) = self.eval_constant(
                            operand1,
                            fuel,
                            Ghost(base),
                            Ghost(after_a),
                        );
                        match b {
                            Err(e) => (Err(e), Ghost(after_b)),
                            Ok(tb) => if ta.get_width() == tb.get_width() {
                                let r = match predicate {
                                    IntPredicate::NE => ta._ne(&tb),
                                    _ => ta.compare(relation_for(*predicate), &tb),
                                };
                                (Ok(r), Ghost(after_b))
                            } else {
                                (
                                    Err(Error::malformed("the operands differ in width")),
                                    Ghost(after_b),
                                )
                            },
                        }
                    },
                }
            },
            Constant::Select { condition, true_value, false_value } => {
                let (cond, Ghost(after)) = self.eval_constant(
                    condition,
                    fuel,
                    Ghost(base),
                    Ghost(done),
                );
                match cond {
                    Err(e) => (Err(e), Ghost(after)),
                    Ok(b) => match b.as_bool() {
                        None => (
                            Err(Error::malformed("a select needs a constant condition")),
                            Ghost(after),
                        ),
                        Some(true) => self.eval_constant(true_value, fuel, Ghost(base), Ghost(after)),
                        Some(false) => self.eval_constant(
                            false_value,
                            fuel,
                            Ghost(base),
                            Ghost(after),
                        ),
                    },
                }
            },
        }
    }

    /// The address of a global. A global variable that is referred to for
    /// the first time is marked, and its initializer is evaluated and
    /// written to its address.
    fn eval_reference(
        &mut self,
        name: &Name,
        fuel: usize,
        Ghost(base): Ghost<StateView>,
        Ghost(done): Ghost<Effects>,
        Ghost(c): Ghost<Constant>,
    ) -> (r: (Result<BitVec<'ctx>, Error>, Ghost<Effects>))
        requires
            old(self).wf(),
            tracks(base, done, old(self)@),
            c matches Constant::GlobalReference { name: n, .. } && n@ == name@,
        ensures
            final(self).wf(),
            final(self).home() == old(self).home(),
            r.1@ == eval_const(c, env_of(base), done, fuel as nat).1,
            answers(r.0, eval_const(c, env_of(base), done, fuel as nat).0, old(self).home()),
            tracks(base, r.1@, final(self)@),
        decreases fuel, 0nat, c, 0nat,
    {
        match self.global_allocations.lookup(name) {
            Some(GlobalInfo::Function { addr }) => (Ok(addr), Ghost(done)),
            Some(GlobalInfo::Variable { addr, initializer, initialized }) => {
                if initialized {
                    (Ok(addr), Ghost(done))
                } else if fuel == 0 {
                    (
                        Err(Error::malformed("the evaluation of a constant nests too deep")),
                        Ghost(done),
                    )
                } else {
                    let ghost marked_fx = Effects {
                        ready: done.ready.insert(name@),
                        writes: done.writes,
                    };
                    self.global_allocations.mark_initialized(name);
                    proof {
                        assert(self@.globals =~= marked(base.globals, marked_fx.ready));
                    }
                    let (value, Ghost(after)) = self.eval_constant(
                        initializer,
                        fuel - 1,
                        Ghost(base),
                        Ghost(marked_fx),
                    );
                    match value {
                        Err(e) => (Err(e), Ghost(after)),
                        Ok(v) => {
                            let ghost fx = Effects {
                                ready: after.ready,
                                writes: after.writes.push((addr@, v@)),
                            };
                            let ghost before = self@;
                            let ghost vt = v@;
                            self.mem.write(&addr, v);
                            proof {
                                assert forall|i: Interp| #[trigger]
                                    cells_of(self@.mem, i) == apply_writes(
                                        cells_of(base.mem, i),
                                        fx.writes,
                                        i,
                                        fx.writes.len(),
                                    ) by {
                                    assert(self.mem.cells(i) == cells_of(self@.mem, i));
                                    assert(fx.writes.drop_last() =~= after.writes);
                                    lemma_apply_writes_push(
                                        cells_of(base.mem, i),
                                        after.writes,
                                        (addr@, vt),
                                        i,
                                    );
                                }
                            }
                            (Ok(addr), Ghost(fx))
                        },
                    }
                }
            },
            None => {
                match find_alias(&self.cur_loc.module.global_aliases, name) {
                    Some(aliasee) => if fuel == 0 {
                        (
                            Err(Error::malformed("the evaluation of a constant nests too deep")),
                            Ghost(done),
                        )
                    } else {
                        self.eval_constant(aliasee, fuel - 1, Ghost(base), Ghost(done))
                    },
                    None => (
                        Err(Error::other("a reference to a global that was not found")),
                        Ghost(done),
                    ),
                }
            },
        }
    }

    /// The elements put together, the first lowest.
    fn eval_elements(
        &mut self,
        elems: &Vec<Constant>,
        fuel: usize,
        Ghost(base): Ghost<StateView>,
        Ghost(done): Ghost<Effects>,
    ) -> (r: (Result<BitVec<'ctx>, Error>, Ghost<Effects>))
        requires
            old(self).wf(),
            tracks(base, done, old(self)@),
        ensures
            final(self).wf(),
            final(self).home() == old(self).home(),
            r.1@ == eval_elems(elems@, elems@.len(), env_of(base), done, fuel as nat).1,
            answers(
                r.0,
                eval_elems(elems@, elems@.len(), env_of(base), done, fuel as nat).0,
                old(self).home(),
            ),
            tracks(base, r.1@, final(self)@),
        decreases fuel, 0nat, elems@, 0nat,
    {
        if elems.len() == 0 {
            return (Err(Error::malformed("an aggregate constant has no elements")), Ghost(done));
        }
        let (first, Ghost(after_first)) = self.eval_constant(&elems[0], fuel, Ghost(base), Ghost(done));
        let mut acc = first;
        let ghost mut fx = after_first;
        let mut k: usize = 1;
        while k < elems.len()
            invariant
                self.wf(),
                self.home() == old(self).home(),
                1 <= k <= elems@.len(),
                fx == eval_elems(elems@, k as nat, env_of(base), done, fuel as nat).1,
                answers(
                    acc,
                    eval_elems(elems@, k as nat, env_of(base), done, fuel as nat).0,
                    self.home(),
                ),
                tracks(base, fx, self@),
            decreases elems@.len() - k,
        {
            let ghost acc_spec = eval_elems(elems@, k as nat, env_of(base), done, fuel as nat).0;
            let (new, Ghost(after)) = self.eval_constant(&elems[k], fuel, Ghost(base), Ghost(fx));
            let ghost new_spec = eval_const(elems@[k as int], env_of(base), fx, fuel as nat).0;
            acc = combine_results(acc, new, Ghost(acc_spec), Ghost(new_spec), Ghost(self.home()));
            proof {
                fx = after;
            }
            k = k + 1;
        }
        (acc, Ghost(fx))
    }

    /// The aggregate with the element that the indices from position
    /// `start` on lead to replaced by `element`.
    fn simplify_const_iv(
        &mut self,
        aggregate: &Constant,
        element: &Constant,
        path: &Vec<u32>,
        start: usize,
        fuel: usize,
        Ghost(base): Ghost<StateView>,
        Ghost(done): Ghost<Effects>,
    ) -> (r: (Result<BitVec<'ctx>, Error>, Ghost<Effects>))
        requires
            old(self).wf(),
            tracks(base, done, old(self)@),
            start <= path@.len(),
        ensures
            final(self).wf(),
            final(self).home() == old(self).home(),
            ({
                let out = eval_patched(
                    *aggregate,
                    *element,
                    path@.subrange(start as int, path@.len() as int),
                    env_of(base),
                    done,
                    fuel as nat,
                );
                &&& r.1@ == out.1
                &&& answers(r.0, out.0, old(self).home())
            }),
            tracks(base, r.1@, final(self)@),
        decreases fuel, 3 * (path@.len() - start) + 3, *aggregate, 0nat,
    {
        let ghost rest = path@.subrange(start as int, path@.len() as int);
        if start == path.len() {
            self.eval_constant(element, fuel, Ghost(base), Ghost(done))
        } else {
            match aggregate {
                Constant::Struct { values, .. } => {
                    let index = path[start] as usize;
                    proof {
                        assert(rest[0] == path@[start as int]);
                        assert(rest.drop_first() =~= path@.subrange(
                            start + 1,
                            path@.len() as int,
                        ));
                    }
                    if index < values.len() {
                        self.eval_patched_elements(
                            values,
                            index,
                            element,
                            path,
                            start + 1,
                            fuel,
                            Ghost(base),
                            Ghost(done),
                        )
                    } else {
                        (
                            Err(Error::malformed("an index of an insert-value is out of range")),
                            Ghost(done),
                        )
                    }
                },
                _ => (
                    Err(Error::malformed("an insert-value does not index a struct")),
                    Ghost(done),
                ),
            }
        }
    }

    /// The element at position `k`, patched where `k` is `at`.
    fn eval_patched_element(
        &mut self,
        elems: &Vec<Constant>,
        k: usize,
        at: usize,
        element: &Constant,
        path: &Vec<u32>,
        start: usize,
        fuel: usize,
        Ghost(base): Ghost<StateView>,
        Ghost(done): Ghost<Effects>,
    ) -> (r: (Result<BitVec<'ctx>, Error>, Ghost<Effects>))
        requires
            old(self).wf(),
            tracks(base, done, old(self)@),
            start <= path@.len(),
            k < elems@.len(),
        ensures
            final(self).wf(),
            final(self).home() == old(self).home(),
            ({
                let out = eval_patched_elem(
                    elems@,
                    k as nat,
                    at as nat,
                    *element,
                    path@.subrange(start as int, path@.len() as int),
                    env_of(base),
                    done,
                    fuel as nat,
                );
                &&& r.1@ == out.1
                &&& answers(r.0, out.0, old(self).home())
            }),
            tracks(base, r.1@, final(self)@),
        decreases fuel, 3 * (path@.len() - start) + 4, elems@, 0nat,
    {
        if k == at {
            self.simplify_const_iv(&elems[k], element, path, start, fuel, Ghost(base), Ghost(done))
        } else {
            self.eval_constant(&elems[k], fuel, Ghost(base), Ghost(done))
        }
    }

    /// The elements put together, with the one at `at` patched.
    fn eval_patched_elements(
        &mut self,
        elems: &Vec<Constant>,
        at: usize,
        element: &Constant,
        path: &Vec<u32>,
        start: usize,
        fuel: usize,
        Ghost(base): Ghost<StateView>,
        Ghost(done): Ghost<Effects>,
    ) -> (r: (Result<BitVec<'ctx>, Error>, Ghost<Effects>))
        requires
            old(self).wf(),
            tracks(base, done, old(self)@),
            start <= path@.len(),
        ensures
            final(self).wf(),
            final(self).home() == old(self).home(),
            ({
                let out = eval_patched_elems(
                    elems@,
                    elems@.len(),
                    at as nat,
                    *element,
                    path@.subrange(start as int, path@.len() as int),
                    env_of(base),
                    done,
                    fuel as nat,
                );
                &&& r.1@ == out.1
                &&& answers(r.0, out.0, old(self).home())
            }),
            tracks(base, r.1@, final(self)@),
        decreases fuel, 3 * (path@.len() - start) + 5, elems@, 0nat,
    {
        let ghost rest = path@.subrange(start as int, path@.len() as int);
        if elems.len() == 0 {
            return (Err(Error::malformed("an aggregate constant has no elements")), Ghost(done));
        }
        let (first, Ghost(after_first)) = self.eval_patched_element(
            elems,
            0,
            at,
            element,
            path,
            start,
            fuel,
            Ghost(base),
            Ghost(done),
        );
        let mut acc = first;
        let ghost mut fx = after_first;
        let mut k: usize = 1;
        while k < elems.len()
            invariant
                self.wf(),
                self.home() == old(self).home(),
                start <= path@.len(),
                rest == path@.subrange(start as int, path@.len() as int),
                1 <= k <= elems@.len(),
                fx == eval_patched_elems(
                    elems@,
                    k as nat,
                    at as nat,
                    *element,
                    rest,
                    env_of(base),
                    done,
                    fuel as nat,
                ).1,
                answers(
                    acc,
                    eval_patched_elems(
                        elems@,
                        k as nat,
                        at as nat,
                        *element,
                        rest,
                        env_of(base),
                        done,
                        fuel as nat,
                    ).0,
                    self.home(),
                ),
                tracks(base, fx, self@),
            decreases elems@.len() - k,
        {
            let ghost acc_spec = eval_patched_elems(
                elems@,
                k as nat,
                at as nat,
                *element,
                rest,
                env_of(base),
                done,
                fuel as nat,
            ).0;
            let (new, Ghost(after)) = self.eval_patched_element(
                elems,
                k,
                at,
                element,
                path,
                start,
                fuel,
                Ghost(base),
                Ghost(fx),
            );
            let ghost new_spec = eval_patched_elem(
                elems@,
                k as nat,
                at as nat,
                *element,
                rest,
                env_of(base),
                fx,
                fuel as nat,
            ).0;
            acc = combine_results(acc, new, Ghost(acc_spec), Ghost(new_spec), Ghost(self.home()));
            proof {
                fx = after;
            }
            k = k + 1;
        }
        (acc, Ghost(fx))
    }

    /// The offset in bytes, as a vector of `result_bits` bits, that the
    /// indices from position `from` on lead to within a value of type
    /// `base_type`.
    fn get_offset_recursive(
        &mut self,
        indices: &Vec<Constant>,
        from: usize,
        base_type: &Type,
        result_bits: u32,
        fuel: usize,
        Ghost(base): Ghost<StateView>,
        Ghost(done): Ghost<Effects>,
    ) -> (r: (Result<BitVec<'ctx>, Error>, Ghost<Effects>))
        requires
            old(self).wf(),
            tracks(base, done, old(self)@),
            from <= indices@.len(),
            result_bits > 0,
        ensures
            final(self).wf(),
            final(self).home() == old(self).home(),
            ({
                let out = eval_offset(
                    indices@,
                    from as nat,
                    *base_type,
                    result_bits as nat,
                    env_of(base),
                    done,
                    fuel as nat,
                );
                &&& r.1@ == out.1
                &&& answers(r.0, out.0, old(self).home())
                &&& r.0 matches Ok(bv) ==> bv.width() == result_bits
            }),
            tracks(base, r.1@, final(self)@),
        decreases fuel, 0nat, indices@, 2 * (indices@.len() - from) + 1,
    {
        if from >= indices.len() {
            return (Ok(BitVec::zero(self.ctx, result_bits)), Ghost(done));
        }
        match base_type {
            Type::Pointer { .. } | Type::Array { .. } | Type::Vector { .. } => {
                self.offset_of_indexed(
                    indices,
                    from,
                    base_type,
                    result_bits,
                    fuel,
                    Ghost(base),
                    Ghost(done),
                )
            },
            Type::Struct { .. } => self.offset_of_field(
                indices,
                from,
                base_type,
                result_bits,
                fuel,
                Ghost(base),
                Ghost(done),
            ),
            Type::NamedStruct { ty: Some(inner), .. } => match &**inner {
                Type::Struct { .. } => self.offset_of_field(
                    indices,
                    from,
                    base_type,
                    result_bits,
                    fuel,
                    Ghost(base),
                    Ghost(done),
                ),
                _ => (
                    Err(Error::malformed("a named struct type is not defined as a struct")),
                    Ghost(done),
                ),
            },
            Type::NamedStruct { ty: None, .. } => (
                Err(Error::malformed("an offset into an opaque struct type")),
                Ghost(done),
            ),
            _ => (
                Err(Error::malformed("an offset into a type that has no elements")),
                Ghost(done),
            ),
        }
    }

    /// The offset for an index into a pointer, an array or a vector, and
    /// what follows.
    fn offset_of_indexed(
        &mut self,
        indices: &Vec<Constant>,
        from: usize,
        base_type: &Type,
        result_bits: u32,
        fuel: usize,
        Ghost(base): Ghost<StateView>,
        Ghost(done): Ghost<Effects>,
    ) -> (r: (Result<BitVec<'ctx>, Error>, Ghost<Effects>))
        requires
            old(self).wf(),
            tracks(base, done, old(self)@),
            from < indices@.len(),
            result_bits > 0,
            crate::layout::element_type(*base_type) is Some,
        ensures
            final(self).wf(),
            final(self).home() == old(self).home(),
            ({
                let out = eval_indexed(
                    indices@,
                    from as nat,
                    crate::layout::element_type(*base_type).unwrap(),
                    result_bits as nat,
                    env_of(base),
                    done,
                    fuel as nat,
                );
                &&& r.1@ == out.1
                &&& answers(r.0, out.0, old(self).home())
                &&& r.0 matches Ok(bv) ==> bv.width() == result_bits
            }),
            tracks(base, r.1@, final(self)@),
        decreases fuel, 0nat, indices@, 2 * (indices@.len() - from),
    {
        let count = indices.len();
        let (index, Ghost(after_index)) = self.eval_constant(
            &indices[from],
            fuel,
            Ghost(base),
            Ghost(done),
        );
        match index {
            Err(e) => (Err(e), Ghost(after_index)),
            Ok(it) => {
                if it.get_width() > result_bits {
                    return (
                        Err(Error::malformed("an index is wider than the address")),
                        Ghost(after_index),
                    );
                }
                let wide = crate::bv::zero_extend_to_bits(it, result_bits);
                match crate::layout::get_offset_bv_index(base_type, &wide) {
                    Err(e) => (Err(e), Ghost(after_index)),
                    Ok((offset, nested)) => {
                        let (rest, Ghost(after)) = self.get_offset_recursive(
                            indices,
                            from + 1,
                            nested,
                            result_bits,
                            fuel,
                            Ghost(base),
                            Ghost(after_index),
                        );
                        match rest {
                            Err(e) => (Err(e), Ghost(after)),
                            Ok(rt) => (Ok(rt.add(&offset)), Ghost(after)),
                        }
                    },
                }
            },
        }
    }

    /// The offset for an index into a struct, and what follows.
    fn offset_of_field(
        &mut self,
        indices: &Vec<Constant>,
        from: usize,
        base_type: &Type,
        result_bits: u32,
        fuel: usize,
        Ghost(base): Ghost<StateView>,
        Ghost(done): Ghost<Effects>,
    ) -> (r: (Result<BitVec<'ctx>, Error>, Ghost<Effects>))
        requires
            old(self).wf(),
            tracks(base, done, old(self)@),
            from < indices@.len(),
            result_bits > 0,
        ensures
            final(self).wf(),
            final(self).home() == old(self).home(),
            ({
                let out = eval_field(
                    indices@,
                    from as nat,
                    *base_type,
                    result_bits as nat,
                    env_of(base),
                    done,
                    fuel as nat,
                );
                &&& r.1@ == out.1
                &&& answers(r.0, out.0, old(self).home())
                &&& r.0 matches Ok(bv) ==> bv.width() == result_bits
            }),
            tracks(base, r.1@, final(self)@),
        decreases fuel, 0nat, indices@, 2 * (indices@.len() - from),
    {
        let count = indices.len();
        match &indices[from] {
            Constant::Int { value, .. } => {
                if *value > usize::MAX as u64 {
                    return (
                        Err(Error::malformed("an index into a struct is out of range")),
                        Ghost(done),
                    );
                }
                match crate::layout::get_offset_constant_index(base_type, *value as usize) {
                    Err(e) => (Err(e), Ghost(done)),
                    Ok((offset, nested)) => {
                        let (rest, Ghost(after)) = self.get_offset_recursive(
                            indices,
                            from + 1,
                            nested,
                            result_bits,
                            fuel,
                            Ghost(base),
                            Ghost(done),
                        );
                        match rest {
                            Err(e) => (Err(e), Ghost(after)),
                            Ok(rt) => {
                                let by = BitVec::from_u64(self.ctx, offset as u64, result_bits);
                                (Ok(rt.add(&by)), Ghost(after))
                            },
                        }
                    },
                }
            },
            _ => (
                Err(Error::malformed("an index into a struct is no constant integer")),
                Ghost(done),
            ),
        }
    }
}

/// One more write after the others.
proof fn lemma_apply_writes_push(
    cells: Map<nat, Seq<bool>>,
    writes: Seq<(Term, Term)>,
    w: (Term, Term),
    i: Interp,
)
    ensures
        apply_writes(cells, writes.push(w), i, writes.len() + 1) == write_value(
            apply_writes(cells, writes, i, writes.len()),
            w.0.number(i),
            w.1.eval(i),
        ),
{
    let all = writes.push(w);
    assert(all[writes.len() as int] == w);
    lemma_apply_writes_prefix(cells, writes, w, i, writes.len());
}

/// The first writes are the same with one more after them.
proof fn lemma_apply_writes_prefix(
    cells: Map<nat, Seq<bool>>,
    writes: Seq<(Term, Term)>,
    w: (Term, Term),
    i: Interp,
    upto: nat,
)
    requires
        upto <= writes.len(),
    ensures
        apply_writes(cells, writes.push(w), i, upto) == apply_writes(cells, writes, i, upto),
    decreases upto,
{
    if upto > 0 {
        lemma_apply_writes_prefix(cells, writes, w, i, (upto - 1) as nat);
        assert(writes.push(w)[upto - 1] == writes[upto - 1]);
    }
}

/// Where the globals, functions and hooks of a program lie, and what was
/// allocated for them.
pub struct Layout {
    pub cursor: u64,
    pub allocations: Seq<(u64, u64)>,
    pub globals: Map<NameView, GlobalView>,
    pub hooks: Map<Seq<char>, Term>,
    pub callables: Map<u64, CallableView>,
}

/// Nothing laid out.
pub open spec fn empty_layout() -> Layout {
    Layout {
        cursor: crate::allocator::ALLOC_START,
        allocations: Seq::empty(),
        globals: Map::empty(),
        hooks: Map::empty(),
        callables: Map::empty(),
    }
}

/// The term of a pointer to an address.
pub open spec fn pointer_to(addr: u64) -> Term {
    Term::Const { value: addr as nat, width: 64 }
}

/// The layout with `bits` bits more allocated, where they fit.
pub open spec fn placed(l: Layout, bits: u64) -> Option<Layout> {
    if l.cursor + reserved_bytes(bits) <= u64::MAX {
        Some(
            Layout {
                cursor: (l.cursor + reserved_bytes(bits)) as u64,
                allocations: l.allocations.push((l.cursor, bits)),
                ..l
            },
        )
    } else {
        None
    }
}

/// The number of bits that a global variable takes: the size of what its
/// type points to, where it is a pointer to a type of known size.
pub open spec fn global_bits(var: GlobalVariable) -> Option<u64> {
    match var.ty {
        Type::Pointer { pointee } => match crate::layout::type_bits(*pointee) {
            Some(n) => Some(n as u64),
            None => None,
        },
        _ => None,
    }
}

/// The layout with one more global variable, where it is a definition.
pub open spec fn with_global(l: Option<Layout>, var: GlobalVariable) -> Option<Layout> {
    match (l, var.initializer) {
        (None, _) => None,
        (Some(l), None) => Some(l),
        (Some(l), Some(initializer)) => match global_bits(var) {
            Some(bits) => match placed(l, bits) {
                Some(after) => Some(
                    Layout {
                        globals: after.globals.insert(
                            var.name@,
                            GlobalView::Variable {
                                addr: pointer_to(l.cursor),
                                initializer,
                                initialized: false,
                            },
                        ),
                        ..after
                    },
                ),
                None => None,
            },
            None => None,
        },
    }
}

/// The layout with the first `upto` global variables of a module.
pub open spec fn with_globals_of(l: Option<Layout>, vars: Seq<GlobalVariable>, upto: nat) -> Option<
    Layout,
>
    decreases upto,
{
    if upto == 0 || upto > vars.len() {
        l
    } else {
        with_global(with_globals_of(l, vars, (upto - 1) as nat), vars[upto - 1])
    }
}

/// The layout with the global variables of the first `upto` modules.
pub open spec fn with_all_globals(l: Option<Layout>, modules: Seq<Module>, upto: nat) -> Option<
    Layout,
>
    decreases upto,
{
    if upto == 0 || upto > modules.len() {
        l
    } else {
        with_globals_of(
            with_all_globals(l, modules, (upto - 1) as nat),
            modules[upto - 1].global_vars@,
            modules[upto - 1].global_vars@.len(),
        )
    }
}

/// The layout with one more function: 64 bits for it to have an address.
pub open spec fn with_function(l: Option<Layout>, func: Function, module: Module) -> Option<Layout> {
    match l {
        None => None,
        Some(l) => match placed(l, 64) {
            Some(after) => Some(
                Layout {
                    globals: after.globals.insert(
                        NameView::Name(func.name@),
                        GlobalView::Function { addr: pointer_to(l.cursor), func, module },
                    ),
                    callables: after.callables.insert(l.cursor, CallableView::Function(func)),
                    ..after
                },
            ),
            None => None,
        },
    }
}

/// The layout with the first `upto` functions of a module.
pub open spec fn with_functions_of(l: Option<Layout>, module: Module, upto: nat) -> Option<Layout>
    decreases upto,
{
    if upto == 0 || upto > module.functions@.len() {
        l
    } else {
        with_function(
            with_functions_of(l, module, (upto - 1) as nat),
            module.functions@[upto - 1],
            module,
        )
    }
}

/// The layout with the functions of the first `upto` modules.
pub open spec fn with_all_functions(l: Option<Layout>, modules: Seq<Module>, upto: nat) -> Option<
    Layout,
>
    decreases upto,
{
    if upto == 0 || upto > modules.len() {
        l
    } else {
        with_functions_of(
            with_all_functions(l, modules, (upto - 1) as nat),
            modules[upto - 1],
            modules[upto - 1].functions@.len(),
        )
    }
}

/// The layout with one more hook: 64 bits for it to have an address.
pub open spec fn with_hook(l: Option<Layout>, hooked: Seq<char>) -> Option<Layout> {
    match l {
        None => None,
        Some(l) => match placed(l, 64) {
            Some(after) => Some(
                Layout {
                    hooks: after.hooks.insert(hooked, pointer_to(l.cursor)),
                    callables: after.callables.insert(l.cursor, CallableView::Hook(hooked)),
                    ..after
                },
            ),
            None => None,
        },
    }
}

/// The layout with the first `upto` hooks.
pub open spec fn with_hooks(l: Option<Layout>, hooks: Seq<(Seq<char>, Hook)>, upto: nat) -> Option<
    Layout,
>
    decreases upto,
{
    if upto == 0 || upto > hooks.len() {
        l
    } else {
        with_hook(with_hooks(l, hooks, (upto - 1) as nat), hooks[upto - 1].0)
    }
}

/// The layout of a program with hooks: first the global variables that are
/// defined, module by module; then the functions, module by module; then
/// the hooks. Nothing where a defined global is no pointer to a type of
/// known size, or where the address space does not hold it all.
pub open spec fn initial_layout(project: Project, hooks: Seq<(Seq<char>, Hook)>) -> Option<Layout> {
    let globals = with_all_globals(Some(empty_layout()), project.modules@, project.modules@.len());
    let functions = with_all_functions(globals, project.modules@, project.modules@.len());
    with_hooks(functions, hooks, hooks.len())
}

/// The state at the start of an execution.
pub open spec fn initial_view(
    l: Layout,
    start: LocationView,
    memory: ArrayTerm,
    watchpoints: Seq<(String, Watchpoint)>,
    max_versions: nat,
    hooks: Seq<(Seq<char>, Hook)>,
) -> StateView {
    StateView {
        frames: seq![Seq::<Formula>::empty()],
        cur_loc: start,
        vars: Map::empty(),
        mem: memory,
        cursor: l.cursor,
        allocations: l.allocations,
        globals: l.globals,
        hooks: l.hooks,
        callables: l.callables,
        stack: Seq::empty(),
        backtrack: Seq::empty(),
        path: Seq::empty(),
        watchpoints: initial_watchpoints(watchpoints, watchpoints.len()),
        watch_log: Seq::empty(),
        max_versions,
        configured_hooks: hooks,
    }
}

/// The memory that a state starts with.
pub open spec fn initial_memory(zeroed: bool) -> ArrayTerm {
    if zeroed {
        ArrayTerm::fill(61, Term::Const { value: 0, width: 64 })
    } else {
        ArrayTerm::Var { name: "mem"@, index_bits: 61, cell_bits: 64 }
    }
}

/// Whether the allocator and the allocations hold what the layout says.
spec fn holds_layout<'p, 'ctx>(alloc: Alloc, ga: GlobalAllocations<'p, 'ctx>, l: Layout) -> bool {
    &&& alloc.cursor() == l.cursor
    &&& alloc.allocations() == l.allocations
    &&& ga.global_views() == l.globals
    &&& ga.hook_views() == l.hooks
    &&& ga.callable_views() == l.callables
}

/// Allocates `bits` bits where they fit.
fn place<'ctx>(ctx: &'ctx z3::Context, alloc: &mut Alloc, bits: u64) -> (r: Option<
    (u64, BitVec<'ctx>),
>)
    requires
        old(alloc).wf(),
    ensures
        final(alloc).wf(),
        match r {
            Some((addr, bv)) => {
                &&& old(alloc).cursor() + reserved_bytes(bits) <= u64::MAX
                &&& addr == old(alloc).cursor()
                &&& bv@ == pointer_to(addr)
                &&& bv.home() == context_id(*ctx)
                &&& bv.width() == 64
                &&& final(alloc).cursor() == old(alloc).cursor() + reserved_bytes(bits)
                &&& final(alloc).allocations() == old(alloc).allocations().push((addr, bits))
            },
            None => {
                &&& old(alloc).cursor() + reserved_bytes(bits) > u64::MAX
                &&& final(alloc).cursor() == old(alloc).cursor()
                &&& final(alloc).allocations() == old(alloc).allocations()
            },
        },
{
    if alloc.can_alloc(bits) {
        let addr = alloc.allocate(bits);
        proof {
            vstd::arithmetic::power2::lemma2_to64_rest();
            vstd::arithmetic::div_mod::lemma_small_mod(addr as nat, pow2(64));
        }
        Some((addr, BitVec::from_u64(ctx, addr, 64)))
    } else {
        None
    }
}

/// The number of bits that a global variable takes.
fn bits_of_global(var: &GlobalVariable) -> (r: Option<u64>)
    ensures
        r == global_bits(*var),
{
    match &var.ty {
        Type::Pointer { pointee } => match crate::layout::size(pointee) {
            Some(n) => Some(n as u64),
            None => None,
        },
        _ => None,
    }
}

impl<'p, 'ctx> State<'p, 'ctx> {
    /// The state at the start of an execution at `start_loc`, in a context
    /// that makes models, such as `new_context` gives. All global
    /// variables, functions and hooks get their addresses; the contents of
    /// the globals follow when they are first referred to. Fails with
    /// `OtherError` where a defined global is no pointer to a type of known
    /// size, or where the address space does not hold it all.
    pub fn new(
        ctx: &'ctx z3::Context,
        project: &'p Project,
        start_loc: Location<'p>,
        config: Config,
    ) -> (r: Result<State<'p, 'ctx>, Error>)
        requires
            context_makes_models(*ctx),
        ensures
            match r {
                Ok(state) => {
                    &&& state.wf()
                    &&& state.home() == context_id(*ctx)
                    &&& initial_layout(*project, config.function_hooks@) is Some
                    &&& state@ == initial_view(
                        initial_layout(*project, config.function_hooks@).unwrap(),
                        start_loc@,
                        initial_memory(config.zero_initialized_memory),
                        config.initial_mem_watchpoints@,
                        config.loop_bound as nat,
                        config.function_hooks@,
                    )
                },
                Err(e) => {
                    &&& e.kind() == ErrorKind::OtherError
                    &&& initial_layout(*project, config.function_hooks@) is None
                },
            },
    {
        let mut alloc = Alloc::new();
        let mut ga: GlobalAllocations<'p, 'ctx> = GlobalAllocations::new(ctx);
        let ghost modules = project.modules@;
        let ghost mut l: Layout = empty_layout();
        proof {
            assert(ga.global_views() =~= l.globals);
            assert(ga.hook_views() =~= l.hooks);
            assert(ga.callable_views() =~= l.callables);
        }
        let mut m: usize = 0;
        while m < project.modules.len()
            invariant
                alloc.wf(),
                ga.wf(),
                ga.home() == context_id(*ctx),
                modules == project.modules@,
                0 <= m <= modules.len(),
                with_all_globals(Some(empty_layout()), modules, m as nat) == Some(l),
                holds_layout(alloc, ga, l),
            decreases modules.len() - m,
        {
            let module = &project.modules[m];
            let mut v: usize = 0;
            let ghost vars = module.global_vars@;
            let ghost before = Some(l);
            while v < module.global_vars.len()
                invariant
                    alloc.wf(),
                    ga.wf(),
                    ga.home() == context_id(*ctx),
                    vars == module.global_vars@,
                    0 <= v <= vars.len(),
                    with_globals_of(before, vars, v as nat) == Some(l),
                    holds_layout(alloc, ga, l),
                    modules == project.modules@,
                    0 <= m < modules.len(),
                    *module == modules[m as int],
                    with_all_globals(Some(empty_layout()), modules, m as nat) == before,
                decreases vars.len() - v,
            {
                let var = &module.global_vars[v];
                match &var.initializer {
                    None => {},
                    Some(initializer) => {
                        let placed_at = match bits_of_global(var) {
                            Some(bits) => place(ctx, &mut alloc, bits),
                            None => None,
                        };
                        match placed_at {
                            Some((addr, addr_bv)) => {
                                ga.allocate_global_var(var.name.clone(), initializer, addr_bv);
                                proof {
                                    l = with_global(Some(l), *var).unwrap();
                                }
                            },
                            None => {
                                proof {
                                    assert(with_globals_of(before, vars, (v + 1) as nat) is None);
                                    lemma_globals_of_none(before, vars, (v + 1) as nat, vars.len());
                                    lemma_all_globals_none(
                                        Some(empty_layout()),
                                        modules,
                                        (m + 1) as nat,
                                        modules.len(),
                                    );
                                    lemma_all_functions_none(modules, modules.len());
                                    lemma_hooks_none(
                                        config.function_hooks@,
                                        config.function_hooks@.len(),
                                    );
                                }
                                return Err(
                                    Error::other("a global variable cannot be laid out in memory"),
                                );
                            },
                        }
                    },
                }
                v = v + 1;
            }
            m = m + 1;
        }
        let ghost after_globals = Some(l);
        let mut m: usize = 0;
        while m < project.modules.len()
            invariant
                alloc.wf(),
                ga.wf(),
                ga.home() == context_id(*ctx),
                modules == project.modules@,
                0 <= m <= modules.len(),
                after_globals == with_all_globals(Some(empty_layout()), modules, modules.len()),
                with_all_functions(after_globals, modules, m as nat) == Some(l),
                holds_layout(alloc, ga, l),
            decreases modules.len() - m,
        {
            let module = &project.modules[m];
            let mut f: usize = 0;
            let ghost before = Some(l);
            while f < module.functions.len()
                invariant
                    alloc.wf(),
                    ga.wf(),
                    ga.home() == context_id(*ctx),
                    0 <= f <= module.functions@.len(),
                    with_functions_of(before, *module, f as nat) == Some(l),
                    holds_layout(alloc, ga, l),
                    modules == project.modules@,
                    0 <= m < modules.len(),
                    *module == modules[m as int],
                    with_all_functions(after_globals, modules, m as nat) == before,
                    after_globals == with_all_globals(Some(empty_layout()), modules, modules.len()),
                decreases module.functions@.len() - f,
            {
                let func = &module.functions[f];
                match place(ctx, &mut alloc, 64) {
                    Some((addr, addr_bv)) => {
                        ga.allocate_function(func, module, addr, addr_bv);
                        proof {
                            l = with_function(Some(l), *func, *module).unwrap();
                        }
                    },
                    None => {
                        proof {
                            assert(with_functions_of(before, *module, (f + 1) as nat) is None);
                            lemma_functions_of_none(
                                before,
                                *module,
                                (f + 1) as nat,
                                module.functions@.len(),
                            );
                            lemma_all_functions_none_from(
                                after_globals,
                                modules,
                                (m + 1) as nat,
                                modules.len(),
                            );
                            lemma_hooks_none(config.function_hooks@, config.function_hooks@.len());
                        }
                        return Err(Error::other("a function cannot be laid out in memory"));
                    },
                }
                f = f + 1;
            }
            m = m + 1;
        }
        let ghost after_functions = Some(l);
        let mut h: usize = 0;
        while h < config.function_hooks.len()
            invariant
                alloc.wf(),
                ga.wf(),
                ga.home() == context_id(*ctx),
                0 <= h <= config.function_hooks@.len(),
                after_functions == with_all_functions(
                    with_all_globals(Some(empty_layout()), modules, modules.len()),
                    modules,
                    modules.len(),
                ),
                modules == project.modules@,
                with_hooks(after_functions, config.function_hooks@, h as nat) == Some(l),
                holds_layout(alloc, ga, l),
            decreases config.function_hooks@.len() - h,
        {
            let (hooked, _) = config.function_hooks.get(h);
            match place(ctx, &mut alloc, 64) {
                Some((addr, addr_bv)) => {
                    ga.allocate_function_hook(hooked.clone(), addr, addr_bv);
                    proof {
                        l = with_hook(Some(l), hooked@).unwrap();
                    }
                },
                None => {
                    proof {
                        assert(with_hooks(after_functions, config.function_hooks@, (h + 1) as nat)
                            is None);
                        lemma_hooks_none_from(
                            after_functions,
                            config.function_hooks@,
                            (h + 1) as nat,
                            config.function_hooks@.len(),
                        );
                    }
                    return Err(Error::other("a function hook cannot be laid out in memory"));
                },
            }
            h = h + 1;
        }
        let mem = if config.zero_initialized_memory {
            Memory::new_zero_initialized(ctx)
        } else {
            Memory::new(ctx)
        };
        let state = State {
            solver: Facade::new(ctx),
            cur_loc: start_loc,
            ctx,
            varmap: VarMap::new(ctx, config.loop_bound),
            mem,
            alloc,
            global_allocations: ga,
            stack: Vec::new(),
            backtrack_points: Vec::new(),
            path: Vec::new(),
            mem_watchpoints: Watchpoints::from_iter(&config.initial_mem_watchpoints),
            watch_log: Vec::new(),
            config,
        };
        proof {
            assert(state@.stack =~= Seq::empty());
            assert(state@.backtrack =~= Seq::empty());
            assert(state@.path =~= Seq::empty());
            assert(state@.watch_log =~= Seq::empty());
        }
        Ok(state)
    }
}

proof fn lemma_globals_of_none(l: Option<Layout>, vars: Seq<GlobalVariable>, k: nat, upto: nat)
    requires
        k <= upto <= vars.len(),
        with_globals_of(l, vars, k) is None,
    ensures
        with_globals_of(l, vars, upto) is None,
    decreases upto - k,
{
    if k < upto {
        lemma_globals_of_none(l, vars, k, (upto - 1) as nat);
    }
}

proof fn lemma_globals_of_from_none(vars: Seq<GlobalVariable>, upto: nat)
    ensures
        with_globals_of(None, vars, upto) is None,
    decreases upto,
{
    if upto > 0 && upto <= vars.len() {
        lemma_globals_of_from_none(vars, (upto - 1) as nat);
    }
}

proof fn lemma_all_globals_none(l: Option<Layout>, modules: Seq<Module>, k: nat, upto: nat)
    requires
        k <= upto <= modules.len(),
        with_all_globals(l, modules, k) is None,
    ensures
        with_all_globals(l, modules, upto) is None,
    decreases upto - k,
{
    if k < upto {
        lemma_all_globals_none(l, modules, k, (upto - 1) as nat);
        lemma_globals_of_from_none(
            modules[upto - 1].global_vars@,
            modules[upto - 1].global_vars@.len(),
        );
    }
}

proof fn lemma_functions_of_none(l: Option<Layout>, module: Module, k: nat, upto: nat)
    requires
        k <= upto <= module.functions@.len(),
        with_functions_of(l, module, k) is None,
    ensures
        with_functions_of(l, module, upto) is None,
    decreases upto - k,
{
    if k < upto {
        lemma_functions_of_none(l, module, k, (upto - 1) as nat);
    }
}

proof fn lemma_functions_of_from_none(module: Module, upto: nat)
    ensures
        with_functions_of(None, module, upto) is None,
    decreases upto,
{
    if upto > 0 && upto <= module.functions@.len() {
        lemma_functions_of_from_none(module, (upto - 1) as nat);
    }
}

proof fn lemma_all_functions_none_from(l: Option<Layout>, modules: Seq<Module>, k: nat, upto: nat)
    requires
        k <= upto <= modules.len(),
        with_all_functions(l, modules, k) is None,
    ensures
        with_all_functions(l, modules, upto) is None,
    decreases upto - k,
{
    if k < upto {
        lemma_all_functions_none_from(l, modules, k, (upto - 1) as nat);
        lemma_functions_of_from_none(modules[upto - 1], modules[upto - 1].functions@.len());
    }
}

proof fn lemma_all_functions_none(modules: Seq<Module>, upto: nat)
    requires
        upto <= modules.len(),
    ensures
        with_all_functions(None, modules, upto) is None,
    decreases upto,
{
    if upto > 0 {
        lemma_all_functions_none(modules, (upto - 1) as nat);
        lemma_functions_of_from_none(modules[upto - 1], modules[upto - 1].functions@.len());
    }
}

proof fn lemma_hooks_none_from(
    l: Option<Layout>,
    hooks: Seq<(Seq<char>, Hook)>,
    k: nat,
    upto: nat,
)
    requires
        k <= upto <= hooks.len(),
        with_hooks(l, hooks, k) is None,
    ensures
        with_hooks(l, hooks, upto) is None,
    decreases upto - k,
{
    if k < upto {
        lemma_hooks_none_from(l, hooks, k, (upto - 1) as nat);
    }
}

proof fn lemma_hooks_none(hooks: Seq<(Seq<char>, Hook)>, upto: nat)
    requires
        upto <= hooks.len(),
    ensures
        with_hooks(None, hooks, upto) is None,
    decreases upto,
{
    if upto > 0 {
        lemma_hooks_none(hooks, (upto - 1) as nat);
    }
}

/// Whether `size` is what the allocator knows of the address: the size in
/// bits that was asked for at the allocation there, or nothing where none
/// is there. Allocations that are laid out have one size at an address.
pub open spec fn size_found(allocations: Seq<(u64, u64)>, addr: u64, size: Option<u64>) -> bool {
    match size {
        Some(bits) => allocations.contains((addr, bits)),
        None => forall|k: int| 0 <= k < allocations.len() ==> (#[trigger] allocations[k]).0 != addr,
    }
}

/// Whether `a` is the one value that `t` can have under `frames`.
pub open spec fn only_value(frames: Seq<Seq<Formula>>, t: Term, a: u64) -> bool {
    &&& possible(frames, t, a as nat)
    &&& forall|u: nat| possible(frames, t, u) ==> u == a
}

/// The size of the allocation at the one address among the solutions.
/// Fails with `OtherError` where there are more addresses than one, with
/// `Unsat` where there is none.
pub fn allocation_size_of_solutions(alloc: &Alloc, solutions: &PossibleSolutions<BVSolution>) -> (r:
    Result<Option<u64>, Error>)
    requires
        alloc.wf(),
    ensures
        match *solutions {
            PossibleSolutions::AtLeast(_) => r is Err && r->Err_0.kind() == ErrorKind::OtherError,
            PossibleSolutions::Exactly(v) => if v@.len() == 0 {
                r is Err && r->Err_0.kind() == ErrorKind::Unsat
            } else {
                r is Ok && size_found(alloc.allocations(), v@[0].value, r->Ok_0)
            },
        },
{
    match solutions {
        PossibleSolutions::AtLeast(_) => Err(Error::other("an address is not a constant")),
        PossibleSolutions::Exactly(v) => {
            if v.len() == 0 {
                Err(Error::Unsat)
            } else {
                let size = alloc.get_allocation_size(v[0].value);
                proof {
                    if size is None {
                        assert forall|k: int| 0 <= k < alloc.allocations().len() implies (
                        #[trigger] alloc.allocations()[k]).0 != v@[0].value by {
                            if alloc.allocations()[k].0 == v@[0].value {
                                assert(alloc.is_allocated(v@[0].value));
                            }
                        }
                    }
                }
                Ok(size)
            }
        },
    }
}

/// Whether each of the callables lies at the address of the solution at
/// its position.
pub open spec fn callables_at<'p>(
    table: Map<u64, CallableView>,
    solutions: Seq<BVSolution>,
    callables: Seq<Callable<'p>>,
) -> bool {
    &&& callables.len() == solutions.len()
    &&& forall|k: int|
        0 <= k < solutions.len() ==> table.contains_key((#[trigger] solutions[k]).value)
            && callables[k]@ == table[solutions[k].value]
}

/// The address that `t` is the numeral of, where a callable lies there.
pub open spec fn known_address(table: Map<u64, CallableView>, t: Term) -> Option<u64> {
    match numeral_of(t) {
        Some(a) => if table.contains_key(a) {
            Some(a)
        } else {
            None
        },
        None => None,
    }
}

/// Whether the callables are those at all the addresses that `t` can have
/// under `frames`, of which there are at most `n`, in ascending order of
/// the addresses.
pub open spec fn are_all_callables<'p>(
    table: Map<u64, CallableView>,
    frames: Seq<Seq<Formula>>,
    t: Term,
    n: usize,
    callables: Seq<Callable<'p>>,
) -> bool {
    exists|solutions: Seq<BVSolution>|
        {
            &&& #[trigger] callables_at(table, solutions, callables)
            &&& solutions.len() <= n
            &&& ascending(solutions)
            &&& all_possible(frames, t, solutions)
            &&& forall|u: nat|
                possible(frames, t, u) ==> exists|k: int|
                    0 <= k < solutions.len() && (#[trigger] solutions[k]).value == u
        }
}

/// Whether the callables are those at `n + 1` of the addresses that `t`
/// can have under `frames`, in ascending order of the addresses.
pub open spec fn are_some_callables<'p>(
    table: Map<u64, CallableView>,
    frames: Seq<Seq<Formula>>,
    t: Term,
    n: usize,
    callables: Seq<Callable<'p>>,
) -> bool {
    exists|solutions: Seq<BVSolution>|
        {
            &&& #[trigger] callables_at(table, solutions, callables)
            &&& solutions.len() == n + 1
            &&& ascending(solutions)
            &&& all_possible(frames, t, solutions)
        }
}

impl<'p, 'ctx> State<'p, 'ctx> {
    /// The size in bits of the allocation at an address, or nothing where
    /// nothing was allocated there. Where the address is no numeral, the
    /// solver is asked for the one value it can have: fails with
    /// `OtherError` where it can have more than one or a value of it does
    /// not fit 64 bits, with `Unsat` where it can have none.
    pub fn get_allocation_size(&mut self, addr: &BitVec<'ctx>) -> (r: Result<Option<u64>, Error>)
        requires
            old(self).wf(),
            addr.home() == old(self).home(),
        ensures
            final(self).wf(),
            final(self).home() == old(self).home(),
            final(self)@ == old(self)@,
            laid_out(old(self)@.cursor, old(self)@.allocations),
            match numeral_of(addr@) {
                Some(a) => r is Ok && size_found(old(self)@.allocations, a, r->Ok_0),
                None => match r {
                    Ok(size) => exists|a: u64| #[trigger]
                        size_found(old(self)@.allocations, a, size) && only_value(
                            old(self)@.frames,
                            addr@,
                            a,
                        ),
                    Err(e) => match e.kind() {
                        ErrorKind::Unsat => !old(self).satisfiable(),
                        ErrorKind::OtherError => addr.width() > 64 || (old(self).satisfiable()
                            && !(exists|a: u64| only_value(old(self)@.frames, addr@, a))),
                        ErrorKind::SolverError => true,
                        _ => false,
                    },
                },
            },
    {
        proof {
            self.alloc.lemma_laid_out();
        }
        match addr.as_u64() {
            Some(a) => {
                let size = self.alloc.get_allocation_size(a);
                proof {
                    if size is None {
                        assert forall|k: int| 0 <= k < self.alloc.allocations().len() implies (
                        #[trigger] self.alloc.allocations()[k]).0 != a by {
                            if self.alloc.allocations()[k].0 == a {
                                assert(self.alloc.is_allocated(a));
                            }
                        }
                    }
                    assert(size_found(old(self)@.allocations, a, size));
                }
                Ok(size)
            },
            None => {
                match self.solver.get_possible_solutions_for_bv(addr, 1) {
                    Err(e) => Err(e),
                    Ok(solutions) => {
                        let r = allocation_size_of_solutions(&self.alloc, &solutions);
                        proof {
                            match solutions {
                                PossibleSolutions::AtLeast(v) => {
                                    assert(v@[0].value < v@[1].value);
                                    assert(possible(old(self)@.frames, addr@, v@[0].value as nat));
                                    assert(possible(old(self)@.frames, addr@, v@[1].value as nat));
                                },
                                PossibleSolutions::Exactly(v) => {
                                    if v@.len() == 0 {
                                        if old(self).satisfiable() {
                                            let i = choose|i: Interp|
                                                satisfies(old(self)@.frames, i);
                                            assert(possible(
                                                old(self)@.frames,
                                                addr@,
                                                addr@.number(i),
                                            ));
                                        }
                                    } else {
                                        let a = v@[0].value;
                                        assert(possible(old(self)@.frames, addr@, a as nat));
                                        assert(only_value(old(self)@.frames, addr@, a));
                                        assert(size_found(old(self)@.allocations, a, r->Ok_0));
                                    }
                                },
                            }
                        }
                        r
                    },
                }
            },
        }
    }

    /// The callables at the addresses of the solutions, in the same order.
    /// Fails with `OtherError` where there is none at one of them.
    pub fn callables_of(&self, solutions: &Vec<BVSolution>) -> (r: Result<Vec<Callable<'p>>, Error>)
        requires
            self.wf(),
        ensures
            match r {
                Ok(callables) => callables_at(self@.callables, solutions@, callables@),
                Err(e) => e.kind() == ErrorKind::OtherError && exists|k: int|
                    0 <= k < solutions@.len() && !self@.callables.contains_key(
                        (#[trigger] solutions@[k]).value,
                    ),
            },
    {
        let mut callables: Vec<Callable<'p>> = Vec::new();
        let mut k: usize = 0;
        while k < solutions.len()
            invariant
                self.wf(),
                0 <= k <= solutions@.len(),
                callables@.len() == k,
                forall|m: int|
                    0 <= m < k ==> self@.callables.contains_key((#[trigger] solutions@[m]).value)
                        && callables@[m]@ == self@.callables[solutions@[m].value],
            decreases solutions@.len() - k,
        {
            match self.global_allocations.get_func_for_address(solutions[k].value) {
                Some(c) => {
                    callables.push(c);
                },
                None => {
                    proof {
                        assert(!self@.callables.contains_key(solutions@[k as int].value));
                    }
                    return Err(
                        Error::other(
                            "a value that a function pointer can have points to no function",
                        ),
                    );
                },
            }
            k = k + 1;
        }
        Ok(callables)
    }

    /// What a function pointer can point to: where it is the numeral of the
    /// address of a function or a hook, that one; else the callables at
    /// the addresses it can have under what is asserted, all of them where
    /// there are at most `n`, else `n + 1` of them. Fails with `OtherError`
    /// where one of the addresses that were found is that of no function
    /// or hook, or does not fit 64 bits.
    pub fn interpret_as_function_ptr(&mut self, bv: BitVec<'ctx>, n: usize) -> (r: Result<
        PossibleSolutions<Callable<'p>>,
        Error,
    >)
        requires
            old(self).wf(),
            bv.home() == old(self).home(),
            n > 0,
        ensures
            final(self).wf(),
            final(self).home() == old(self).home(),
            final(self)@ == old(self)@,
            match known_address(old(self)@.callables, bv@) {
                Some(a) => r matches Ok(PossibleSolutions::Exactly(callables)) && callables@.len()
                    == 1 && callables@[0]@ == old(self)@.callables[a],
                None => match r {
                    Ok(PossibleSolutions::Exactly(callables)) => are_all_callables(
                        old(self)@.callables,
                        old(self)@.frames,
                        bv@,
                        n,
                        callables@,
                    ),
                    Ok(PossibleSolutions::AtLeast(callables)) => are_some_callables(
                        old(self)@.callables,
                        old(self)@.frames,
                        bv@,
                        n,
                        callables@,
                    ),
                    Err(e) => match e.kind() {
                        ErrorKind::OtherError => bv.width() > 64 || exists|u: u64| #[trigger]
                            possible(old(self)@.frames, bv@, u as nat) && !old(
                                self,
                            )@.callables.contains_key(u),
                        ErrorKind::SolverError => true,
                        _ => false,
                    },
                },
            },
    {
        let known = match bv.as_u64() {
            Some(a) => match self.global_allocations.get_func_for_address(a) {
                Some(c) => Some((a, c)),
                None => None,
            },
            None => None,
        };
        match known {
            Some((a, c)) => {
                let mut only: Vec<Callable<'p>> = Vec::new();
                only.push(c);
                let ghost cs = only@;
                let result: Result<PossibleSolutions<Callable<'p>>, Error> = Ok(
                    PossibleSolutions::Exactly(only),
                );
                proof {
                    assert(result->Ok_0->Exactly_0@ == cs);
                    assert(known_address(old(self)@.callables, bv@) == Some(a));
                }
                result
            },
            None => {
                match self.solver.get_possible_solutions_for_bv(&bv, n) {
                    Err(e) => Err(e),
                    Ok(PossibleSolutions::Exactly(v)) => match self.callables_of(&v) {
                        Ok(callables) => {
                            proof {
                                let solutions = v@;
                                assert(callables_at(old(self)@.callables, solutions, callables@));
                                assert(solutions.len() <= n);
                                assert(ascending(solutions));
                                assert(all_possible(old(self)@.frames, bv@, solutions));
                                assert(forall|u: nat|
                                    possible(old(self)@.frames, bv@, u) ==> exists|k: int|
                                        0 <= k < solutions.len() && (#[trigger] solutions[k]).value
                                            == u);
                            }
                            let ghost cs = callables@;
                            let result: Result<PossibleSolutions<Callable<'p>>, Error> = Ok(
                                PossibleSolutions::Exactly(callables),
                            );
                            proof {
                                assert(result->Ok_0->Exactly_0@ == cs);
                                assert(callables_at(old(self)@.callables, v@, cs));
                                assert(are_all_callables(
                                    old(self)@.callables,
                                    old(self)@.frames,
                                    bv@,
                                    n,
                                    cs,
                                ));
                            }
                            result
                        },
                        Err(e) => {
                            proof {
                                let k = choose|k: int|
                                    0 <= k < v@.len() && !self@.callables.contains_key(
                                        (#[trigger] v@[k]).value,
                                    );
                                assert(possible(old(self)@.frames, bv@, v@[k].value as nat));
                            }
                            Err(e)
                        },
                    },
                    Ok(PossibleSolutions::AtLeast(v)) => match self.callables_of(&v) {
                        Ok(callables) => {
                            let ghost cs = callables@;
                            let result: Result<PossibleSolutions<Callable<'p>>, Error> = Ok(
                                PossibleSolutions::AtLeast(callables),
                            );
                            proof {
                                assert(result->Ok_0->AtLeast_0@ == cs);
                                assert(callables_at(old(self)@.callables, v@, cs));
                                assert(are_some_callables(
                                    old(self)@.callables,
                                    old(self)@.frames,
                                    bv@,
                                    n,
                                    cs,
                                ));
                            }
                            result
                        },
                        Err(e) => {
                            proof {
                                let k = choose|k: int|
                                    0 <= k < v@.len() && !self@.callables.contains_key(
                                        (#[trigger] v@[k]).value,
                                    );
                                assert(possible(old(self)@.frames, bv@, v@[k].value as nat));
                            }
                            Err(e)
                        },
                    },
                }
            },
        }
    }

    /// Whether the name is bound in the current function.
    pub fn is_bound(&self, name: &Name) -> (r: bool)
        requires
            self.wf(),
        ensures
            r == self@.vars.contains_key((self.cur_func(), name@)),
    {
        self.varmap.is_bound(&self.cur_loc.func.name, name)
    }

    /// Takes the log of the watchpoints that accesses triggered, and leaves
    /// it empty.
    pub fn take_watch_events(&mut self) -> (r: Vec<WatchEvent>)
        requires
            old(self).wf(),
        ensures
            final(self).wf(),
            final(self).home() == old(self).home(),
            log_view(r@) == old(self)@.watch_log,
            final(self)@ == (StateView { watch_log: Seq::empty(), ..old(self)@ }),
    {
        let mut log: Vec<WatchEvent> = Vec::new();
        std::mem::swap(&mut log, &mut self.watch_log);
        proof {
            assert(self@.watch_log =~= Seq::empty());
        }
        log
    }
}

/// Whether the state `now` still has the checkpoints of the state `then`,
/// and below the top level of its solver what `then` has there.
pub open spec fn keeps_checkpoints(then: StateView, now: StateView) -> bool {
    &&& now.backtrack == then.backtrack
    &&& now.frames.len() == then.frames.len()
    &&& now.frames.drop_last() == then.frames.drop_last()
}

/// Going back undoes what happened since the checkpoint: where a
/// checkpoint was saved in the state `before` and the state `now` still has
/// the checkpoints from right after, going back gives the memory, the
/// bindings, the call stack and the checkpoints of `before`, cuts the path
/// to its length in `before`, goes to the start of the block that was
/// named, and leaves in the solver what `before` had asserted and, once
/// more on top, the constraint of the checkpoint.
pub proof fn lemma_revert_undoes(before: StateView, bb: NameView, constraint: Term, now: StateView)
    requires
        before.frames.len() > 0,
        keeps_checkpoints(save_spec(before, bb, constraint), now),
    ensures
        revert_spec(now).mem == before.mem,
        revert_spec(now).vars == before.vars,
        revert_spec(now).stack == before.stack,
        revert_spec(now).backtrack == before.backtrack,
        revert_spec(now).path == truncated(now.path, before.path.len()),
        revert_spec(now).cur_loc == (LocationView {
            module: before.cur_loc.module,
            func: before.cur_loc.func,
            bbname: bb,
            instr: 0,
        }),
        revert_spec(now).frames == asserted(before.frames, holds(constraint)),
        revert_spec(now).frames.len() == before.frames.len(),
{
    let saved = save_spec(before, bb, constraint);
    assert(saved.backtrack.last() == now.backtrack.last());
    assert(saved.backtrack.drop_last() =~= before.backtrack);
    assert(saved.frames.drop_last() =~= before.frames);
}

/// Going back right after saving a checkpoint changes nothing but the
/// place and what is asserted: the constraint of the checkpoint is.
pub proof fn lemma_save_then_revert(before: StateView, bb: NameView, constraint: Term)
    requires
        before.frames.len() > 0,
    ensures
        revert_spec(save_spec(before, bb, constraint)) == (StateView {
            frames: asserted(before.frames, holds(constraint)),
            cur_loc: LocationView {
                module: before.cur_loc.module,
                func: before.cur_loc.func,
                bbname: bb,
                instr: 0,
            },
            ..before
        }),
{
    let saved = save_spec(before, bb, constraint);
    lemma_revert_undoes(before, bb, constraint, saved);
    assert(truncated(saved.path, before.path.len()) == before.path);
}

/// Asserting a constraint keeps the checkpoints.
pub proof fn lemma_assert_keeps_checkpoints(then: StateView, f: Formula)
    requires
        then.frames.len() > 0,
    ensures
        keeps_checkpoints(then, StateView { frames: asserted(then.frames, f), ..then }),
{
    assert(asserted(then.frames, f).drop_last() =~= then.frames.drop_last());
}

/// What keeps the checkpoints step by step keeps them.
pub proof fn lemma_keeps_checkpoints_trans(first: StateView, second: StateView, third: StateView)
    requires
        keeps_checkpoints(first, second),
        keeps_checkpoints(second, third),
    ensures
        keeps_checkpoints(first, third),
{
}

/// After going back, the solver holds what it held when the checkpoint
/// was saved and the constraint of the checkpoint, and nothing of what
/// was asserted since: an interpretation makes all of it true exactly
/// where it made true what was asserted then, and makes the constraint
/// true.
pub proof fn lemma_revert_satisfies(
    before: StateView,
    bb: NameView,
    constraint: Term,
    now: StateView,
    i: Interp,
)
    requires
        before.frames.len() > 0,
        keeps_checkpoints(save_spec(before, bb, constraint), now),
    ensures
        satisfies(revert_spec(now).frames, i) == (satisfies(before.frames, i) && holds(
            constraint,
        ).eval(i)),
{
    lemma_revert_undoes(before, bb, constraint, now);
    crate::solver::lemma_satisfies_asserted(before.frames, holds(constraint), i);
}

/// One more, unless that is too many to count.
pub open spec fn next_number(n: usize) -> usize {
    if n < usize::MAX {
        (n + 1) as usize
    } else {
        n
    }
}

/// A line of a backtrace: its number and the place.
pub open spec fn backtrace_line(number: usize, place: LocationView) -> Seq<char> {
    seq![' ', ' ', '#'] + crate::varmap::decimal(number as nat) + seq![':', ' ']
        + crate::text::entry_text(entry_of(place)) + seq!['\n']
}

/// The lines of a backtrace for the first `remaining` frames of the
/// stack, the last of them first, numbered from `number`.
pub open spec fn backtrace_frames(stack: Seq<FrameView>, remaining: nat, number: usize) -> Seq<char>
    decreases remaining,
{
    if remaining == 0 || remaining > stack.len() {
        Seq::empty()
    } else {
        backtrace_line(number, stack[remaining - 1].callsite) + backtrace_frames(
            stack,
            (remaining - 1) as nat,
            next_number(number),
        )
    }
}

/// The backtrace of a state: the current place as number 1, then the
/// places of the calls, the innermost first.
pub open spec fn backtrace_text(s: StateView) -> Seq<char> {
    backtrace_line(1, s.cur_loc) + backtrace_frames(s.stack, s.stack.len(), 2)
}

/// The text that stands for the assignments of a state that cannot hold.
pub open spec fn unsatisfiable_text() -> Seq<char> {
    "<state is unsatisfiable>"@
}

fn push_backtrace_line(text: &mut String, number: usize, place: &Location)
    ensures
        final(text)@ == old(text)@ + backtrace_line(number, place@),
{
    proof {
        reveal_strlit("  #");
        reveal_strlit(": ");
        reveal_strlit("\n");
    }
    text.append("  #");
    crate::varmap::push_decimal(text, number);
    text.append(": ");
    let entry = PathEntry::from_location(place);
    crate::text::push_entry(text, &entry);
    text.append("\n");
    proof {
        assert("  #"@ =~= seq![' ', ' ', '#']);
        assert(text@ =~= old(text)@ + backtrace_line(number, place@));
    }
}

impl<'p, 'ctx> State<'p, 'ctx> {
    /// The backtrace of the state as text: the current place as number 1,
    /// then the places of the calls, the innermost first, a line each.
    pub fn pretty_llvm_backtrace(&self) -> (r: String)
        ensures
            r@ == backtrace_text(self@),
    {
        let mut r = String::new();
        push_backtrace_line(&mut r, 1, &self.cur_loc);
        let mut remaining: usize = self.stack.len();
        let mut number: usize = 2;
        let ghost all = stack_view(self.stack@);
        while remaining > 0
            invariant
                0 <= remaining <= self.stack@.len(),
                all == stack_view(self.stack@),
                r@ + backtrace_frames(all, remaining as nat, number) == backtrace_text(self@),
            decreases remaining,
        {
            let ghost before = r@;
            push_backtrace_line(&mut r, number, &self.stack[remaining - 1].callsite);
            proof {
                assert(all[remaining - 1].callsite == self.stack@[remaining - 1].callsite@);
                assert(r@ + backtrace_frames(all, (remaining - 1) as nat, next_number(number))
                    =~= before + backtrace_frames(all, remaining as nat, number));
            }
            remaining = remaining - 1;
            number = if number < usize::MAX {
                number + 1
            } else {
                number
            };
        }
        proof {
            assert(r@ + backtrace_frames(all, 0, number) =~= r@);
        }
        r
    }

    /// A model of what is asserted, as text: the lines of the solver's
    /// model in ascending order, each after a line end; or the text that
    /// says that the state cannot hold.
    pub fn current_assignments_as_pretty_string(&mut self) -> (r: Result<String, Error>)
        requires
            old(self).wf(),
        ensures
            final(self).wf(),
            final(self).home() == old(self).home(),
            final(self)@ == old(self)@,
            match r {
                Ok(text) => if old(self).satisfiable() {
                    exists|model: Seq<char>| #[trigger] is_sorted_text(model, text@)
                } else {
                    text@ == unsatisfiable_text()
                },
                Err(e) => e.kind() == ErrorKind::SolverError,
            },
    {
        let printed = self.solver.print_model();
        proof {
            if self.solver.satisfiable() {
                let i = choose|i: Interp| satisfies(self.solver@, i);
                assert(satisfies(old(self)@.frames, i));
            }
            if old(self).satisfiable() {
                let i = choose|i: Interp| satisfies(old(self)@.frames, i);
                assert(satisfies(self.solver@, i));
            }
        }
        match printed {
            Ok(Some(model)) => {
                let text = sorted_lines(model.as_str());
                let ghost out = text@;
                let result: Result<String, Error> = Ok(text);
                proof {
                    assert(result->Ok_0@ == out);
                    assert(is_sorted_text(model@, out));
                }
                result
            },
            Ok(None) => Ok("<state is unsatisfiable>".to_owned()),
            Err(e) => Err(e),
        }
    }
}

} // verus!
