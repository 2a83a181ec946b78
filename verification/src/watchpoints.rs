//! Memory watchpoints: named ranges of addresses. An access that may touch
//! the range of an enabled watchpoint triggers it.

use crate::bv::BitVec;
use crate::error::{Error, ErrorKind};
use crate::smt::{all_hold, satisfies};
use crate::solver::{constraint_formulas, Facade};
use crate::table::{Replicate, Table, TableKey};
use crate::term::{holds, BinOp, Formula, Interp, Relation, Term};
use crate::text::{ascending_texts, sorted_strings, texts};
use vstd::arithmetic::power2::pow2;
use vstd::prelude::*;

verus! {

/// A range of addresses, both ends included.
#[derive(Debug, Clone, Copy, PartialEq, Eq, Structural)]
pub struct Watchpoint {
    pub low: u64,
    pub high: u64,
}

impl Watchpoint {
    /// The range of `bytes` bytes that starts at `addr`. It holds a byte
    /// and ends within the address space.
    pub fn new(addr: u64, bytes: u64) -> (r: Watchpoint)
        requires
            bytes > 0,
            addr + bytes - 1 <= u64::MAX,
        ensures
            r.low == addr,
            r.high == addr + bytes - 1,
    {
        Watchpoint { low: addr, high: addr + (bytes - 1) }
    }
}

/// A string as a key.
pub struct StrKey(pub String);

impl TableKey for StrKey {
    type Id = Seq<char>;

    open spec fn id(&self) -> Seq<char> {
        self.0@
    }

    fn same(&self, other: &Self) -> (r: bool) {
        self.0 == other.0
    }

    fn copy(&self) -> (r: Self) {
        StrKey(self.0.clone())
    }
}

impl Replicate for (Watchpoint, bool) {
    open spec fn alike(&self, other: &Self) -> bool {
        *self == *other
    }

    fn replicate(&self) -> (r: Self) {
        (self.0, self.1)
    }
}

/// The number of bytes that an access of `bits` bits counts for: the whole
/// bytes in it, and at least one.
pub open spec fn access_bytes(bits: nat) -> nat {
    if bits < 8 {
        1
    } else {
        bits / 8
    }
}

/// The address of the last byte of an access of `bits` bits at `a`,
/// wrapping at the end of the address space.
pub open spec fn access_end(a: nat, bits: nat) -> nat {
    ((a + access_bytes(bits) - 1) % 0x1_0000_0000_0000_0000) as nat
}

/// Whether the range from `low` to `high` touches the watchpoint: one of
/// its ends lies in the watchpoint's range, or it holds that range.
pub open spec fn touches(low: nat, high: nat, wp: Watchpoint) -> bool {
    ||| wp.low <= low <= wp.high
    ||| wp.low <= high <= wp.high
    ||| low <= wp.low && high >= wp.high
}

/// Whether, under what is asserted, an access of `bits` bits at `addr` can
/// touch the watchpoint.
pub open spec fn can_trigger(frames: Seq<Seq<Formula>>, addr: Term, bits: nat, wp: Watchpoint) -> bool {
    exists|i: Interp|
        satisfies(frames, i) && touches(addr.number(i), access_end(addr.number(i), bits), wp)
}

/// Whether the texts stand in ascending order, each once.
pub open spec fn in_order(names: Seq<Seq<char>>) -> bool {
    ascending_texts(names) && names.no_duplicates()
}

/// Two sequences that hold the same texts equally often hold the same
/// texts, and where the one holds none twice the other holds none twice.
pub proof fn lemma_same_texts(a: Seq<Seq<char>>, b: Seq<Seq<char>>)
    requires
        a.to_multiset() == b.to_multiset(),
    ensures
        forall|t: Seq<char>| a.contains(t) <==> b.contains(t),
        a.no_duplicates() ==> b.no_duplicates(),
{
    a.to_multiset_ensures();
    b.to_multiset_ensures();
    assert forall|t: Seq<char>| a.contains(t) <==> b.contains(t) by {
        assert(a.contains(t) <==> a.to_multiset().count(t) > 0);
        assert(b.contains(t) <==> b.to_multiset().count(t) > 0);
    }
    if a.no_duplicates() {
        a.lemma_multiset_has_no_duplicates();
        b.lemma_multiset_has_no_duplicates_conv();
    }
}

/// Whether none of the watchpoints is enabled.
pub open spec fn none_enabled(watchpoints: Map<Seq<char>, (Watchpoint, bool)>) -> bool {
    forall|id: Seq<char>| watchpoints.contains_key(id) ==> !(#[trigger] watchpoints[id]).1
}

/// The watchpoints of an execution state, by name, each enabled or not.
pub struct Watchpoints {
    table: Table<StrKey, (Watchpoint, bool)>,
}

impl Watchpoints {
    /// No name occurs twice.
    pub closed spec fn wf(&self) -> bool {
        self.table.wf()
    }

    /// For each name the watchpoint and whether it is enabled.
    pub closed spec fn view(&self) -> Map<Seq<char>, (Watchpoint, bool)> {
        self.table@
    }

    /// Whether no watchpoint is enabled.
    pub open spec fn none_enabled(&self) -> bool {
        none_enabled(self@)
    }

    /// Watchpoints of their own that are the same.
    pub fn duplicate(&self) -> (r: Watchpoints)
        requires
            self.wf(),
        ensures
            r.wf(),
            r@ == self@,
    {
        let r = Watchpoints { table: self.table.duplicate() };
        proof {
            assert(r@ =~= self@);
        }
        r
    }

    /// No watchpoints.
    pub fn new() -> (r: Watchpoints)
        ensures
            r.wf(),
            r@ == Map::<Seq<char>, (Watchpoint, bool)>::empty(),
    {
        Watchpoints { table: Table::new() }
    }

    /// The given watchpoints, all enabled; of two with one name the later.
    pub fn from_iter(initial: &Vec<(String, Watchpoint)>) -> (r: Watchpoints)
        ensures
            r.wf(),
            r@ == initial_watchpoints(initial@, initial@.len()),
    {
        let mut r = Watchpoints::new();
        let mut k: usize = 0;
        while k < initial.len()
            invariant
                r.wf(),
                0 <= k <= initial@.len(),
                r@ == initial_watchpoints(initial@, k as nat),
            decreases initial@.len() - k,
        {
            r.add(initial[k].0.clone(), initial[k].1);
            k = k + 1;
        }
        r
    }

    /// Adds an enabled watchpoint under a name; says whether it replaced
    /// one of that name.
    pub fn add(&mut self, name: String, watchpoint: Watchpoint) -> (r: bool)
        requires
            old(self).wf(),
        ensures
            final(self).wf(),
            final(self)@ == old(self)@.insert(name@, (watchpoint, true)),
            r == old(self)@.contains_key(name@),
    {
        self.table.insert(StrKey(name), (watchpoint, true)).is_some()
    }

    /// Removes the watchpoint of that name; says whether there was one.
    pub fn remove(&mut self, name: &str) -> (r: bool)
        requires
            old(self).wf(),
        ensures
            final(self).wf(),
            final(self)@ == old(self)@.remove(name@),
            r == old(self)@.contains_key(name@),
    {
        self.table.remove(&StrKey(name.to_owned())).is_some()
    }

    /// Sets whether the watchpoint of that name is enabled; says whether
    /// there is one.
    fn set_enabled(&mut self, name: &str, enabled: bool) -> (r: bool)
        requires
            old(self).wf(),
        ensures
            final(self).wf(),
            r == old(self)@.contains_key(name@),
            final(self)@ == if r {
                old(self)@.insert(name@, (old(self)@[name@].0, enabled))
            } else {
                old(self)@
            },
    {
        let key = StrKey(name.to_owned());
        let found = match self.table.get(&key) {
            Some(entry) => Some(entry.0),
            None => None,
        };
        match found {
            Some(watchpoint) => {
                self.table.insert(key, (watchpoint, enabled));
                true
            },
            None => false,
        }
    }

    /// Disables the watchpoint of that name; says whether there is one.
    pub fn disable(&mut self, name: &str) -> (r: bool)
        requires
            old(self).wf(),
        ensures
            final(self).wf(),
            r == old(self)@.contains_key(name@),
            final(self)@ == if r {
                old(self)@.insert(name@, (old(self)@[name@].0, false))
            } else {
                old(self)@
            },
    {
        self.set_enabled(name, false)
    }

    /// Enables the watchpoint of that name; says whether there is one.
    pub fn enable(&mut self, name: &str) -> (r: bool)
        requires
            old(self).wf(),
        ensures
            final(self).wf(),
            r == old(self)@.contains_key(name@),
            final(self)@ == if r {
                old(self)@.insert(name@, (old(self)@[name@].0, true))
            } else {
                old(self)@
            },
    {
        self.set_enabled(name, true)
    }

    /// Whether, under what is asserted, the range from `lower` to `upper`
    /// can touch the watchpoint.
    pub fn is_watchpoint_triggered<'ctx>(
        solver: &mut Facade<'ctx>,
        watchpoint: &Watchpoint,
        lower: &BitVec<'ctx>,
        upper: &BitVec<'ctx>,
    ) -> (r: Result<bool, Error>)
        requires
            old(solver).wf(),
            lower.home() == old(solver).home(),
            upper.home() == old(solver).home(),
            lower.width() == 64,
            upper.width() == 64,
        ensures
            final(solver).wf(),
            final(solver).home() == old(solver).home(),
            final(solver)@ == old(solver)@,
            match r {
                Ok(b) => b == (exists|i: Interp|
                    satisfies(old(solver)@, i) && touches(
                        lower.number(i),
                        upper.number(i),
                        *watchpoint,
                    )),
                Err(e) => e.kind() == ErrorKind::SolverError,
            },
    {
        let ctx = lower.context();
        let wl = BitVec::from_u64(ctx, watchpoint.low, 64);
        let wu = BitVec::from_u64(ctx, watchpoint.high, 64);
        let l_ge = lower.ugte(&wl);
        let l_le = lower.ulte(&wu);
        let lower_contained = l_ge.and(&l_le);
        let u_ge = upper.ugte(&wl);
        let u_le = upper.ulte(&wu);
        let upper_contained = u_ge.and(&u_le);
        let c_le = lower.ulte(&wl);
        let c_ge = upper.ugte(&wu);
        let contains_entire = c_le.and(&c_ge);
        let either = lower_contained.or(&upper_contained);
        let any = either.or(&contains_entire);
        let mut extras: Vec<BitVec<'ctx>> = Vec::new();
        let ghost any_term = any@;
        extras.push(any);
        let r = solver.sat_with_extra_constraints(extras.as_slice());
        proof {
            let extra = constraint_formulas(extras@);
            vstd::arithmetic::power2::lemma2_to64_rest();
            assert forall|i: Interp|
                all_hold(extra, i) == touches(lower.number(i), upper.number(i), *watchpoint) by {
                assert(extra.len() == 1);
                assert(extra[0] == holds(any_term));
                vstd::arithmetic::div_mod::lemma_small_mod(watchpoint.low as nat, pow2(64));
                vstd::arithmetic::div_mod::lemma_small_mod(watchpoint.high as nat, pow2(64));
                crate::term::lemma_const_number(watchpoint.low as nat, 64, i);
                crate::term::lemma_const_number(watchpoint.high as nat, 64, i);
                let f1 = Formula::rel(Relation::Uge, lower@, wl@);
                let f2 = Formula::rel(Relation::Ule, lower@, wu@);
                let f3 = Formula::rel(Relation::Uge, upper@, wl@);
                let f4 = Formula::rel(Relation::Ule, upper@, wu@);
                let f5 = Formula::rel(Relation::Ule, lower@, wl@);
                let f6 = Formula::rel(Relation::Uge, upper@, wu@);
                crate::term::lemma_holds_as_bit(f1, i);
                crate::term::lemma_holds_as_bit(f2, i);
                crate::term::lemma_holds_as_bit(f3, i);
                crate::term::lemma_holds_as_bit(f4, i);
                crate::term::lemma_holds_as_bit(f5, i);
                crate::term::lemma_holds_as_bit(f6, i);
                assert(f1.eval(i) == (lower.number(i) >= watchpoint.low));
                assert(f2.eval(i) == (lower.number(i) <= watchpoint.high));
                assert(f3.eval(i) == (upper.number(i) >= watchpoint.low));
                assert(f4.eval(i) == (upper.number(i) <= watchpoint.high));
                assert(f5.eval(i) == (lower.number(i) <= watchpoint.low));
                assert(f6.eval(i) == (upper.number(i) >= watchpoint.high));
                crate::term::lemma_holds_and(l_ge@, l_le@, i);
                crate::term::lemma_holds_and(u_ge@, u_le@, i);
                crate::term::lemma_holds_and(c_le@, c_ge@, i);
                crate::term::lemma_holds_or(lower_contained@, upper_contained@, i);
                crate::term::lemma_holds_or(either@, contains_entire@, i);
            }
        }
        r
    }

    /// The names of the enabled watchpoints that an access of `bits` bits
    /// at `addr` can touch under what is asserted, each once, in ascending
    /// order. The solver is asked for each enabled watchpoint, and only
    /// then: where none is enabled there is no failure.
    pub fn process_watchpoint_triggers<'ctx>(
        &self,
        solver: &mut Facade<'ctx>,
        addr: &BitVec<'ctx>,
        bits: u32,
    ) -> (r: Result<Vec<String>, Error>)
        requires
            self.wf(),
            old(solver).wf(),
            addr.home() == old(solver).home(),
            addr.width() == 64,
        ensures
            final(solver).wf(),
            final(solver).home() == old(solver).home(),
            final(solver)@ == old(solver)@,
            r matches Ok(names) ==> forall|k: int|
                0 <= k < names@.len() ==> self.triggered(
                    old(solver)@,
                    addr@,
                    bits as nat,
                    (#[trigger] names@[k])@,
                ),
            r matches Ok(names) ==> forall|id: Seq<char>|
                self.triggered(old(solver)@, addr@, bits as nat, id) ==> exists|k: int|
                    0 <= k < names@.len() && (#[trigger] names@[k])@ == id,
            r matches Ok(names) ==> in_order(texts(names@)),
            r matches Err(e) ==> e.kind() == ErrorKind::SolverError,
            self.none_enabled() ==> r is Ok,
    {
        let mut names: Vec<String> = Vec::new();
        let ghost mut picked: Seq<int> = Seq::empty();
        let n = self.table.len();
        if n == 0 {
            proof {
                self.table.lemma_pairs();
                assert forall|id: Seq<char>| !self@.contains_key(id) by {
                    if self@.contains_key(id) {
                        let a = choose|a: int|
                            0 <= a < self.table.pairs().len() && (
                            #[trigger] self.table.pairs()[a]).0.id() == id;
                    }
                }
            }
            proof {
                assert(texts(names@) =~= Seq::<Seq<char>>::empty());
            }
            return Ok(names);
        }
        let bytes: u64 = if bits < 8 {
            1
        } else {
            (bits / 8) as u64
        };
        let last = BitVec::from_u64(addr.context(), bytes - 1, 64);
        let upper = addr.add(&last);
        proof {
            vstd::arithmetic::power2::lemma2_to64_rest();
            assert forall|i: Interp| #[trigger] upper.number(i) == access_end(addr.number(i), bits as nat) by {
                vstd::arithmetic::div_mod::lemma_small_mod((bytes - 1) as nat, pow2(64));
                crate::term::lemma_const_number((bytes - 1) as nat, 64, i);
                assert(upper.eval(i) == crate::term::bin_value(
                    BinOp::Add,
                    addr.eval(i),
                    last.eval(i),
                    64,
                ));
                crate::bits::lemma_to_nat_from_nat(addr.number(i) + (bytes - 1) as nat, 64);
            }
        }
        let mut a: usize = 0;
        while a < n
            invariant
                self.wf(),
                solver.wf(),
                solver.home() == old(solver).home(),
                solver@ == old(solver)@,
                addr.home() == solver.home(),
                upper.home() == solver.home(),
                addr.width() == 64,
                upper.width() == 64,
                forall|i: Interp| #[trigger] upper.number(i) == access_end(addr.number(i), bits as nat),
                n == self.table.pairs().len(),
                0 <= a <= n,
                picked.len() == names@.len(),
                forall|k: int|
                    0 <= k < picked.len() ==> 0 <= #[trigger] picked[k] < a && names@[k]@
                        == self.table.pairs()[picked[k]].0.id(),
                forall|j: int, k: int| 0 <= j < k < picked.len() ==> picked[j] < picked[k],
                forall|k: int|
                    0 <= k < names@.len() ==> self.triggered(
                        old(solver)@,
                        addr@,
                        bits as nat,
                        (#[trigger] names@[k])@,
                    ),
                forall|b: int|
                    0 <= b < a && self.triggered(
                        old(solver)@,
                        addr@,
                        bits as nat,
                        (#[trigger] self.table.pairs()[b]).0.id(),
                    ) ==> exists|k: int|
                        0 <= k < names@.len() && (#[trigger] names@[k])@
                            == self.table.pairs()[b].0.id(),
            decreases n - a,
        {
            let (key, entry) = self.table.pair_at(a);
            proof {
                self.table.lemma_pairs();
                assert(self.table@.contains_key(self.table.pairs()[a as int].0.id()));
            }
            let ghost before = names@;
            if entry.1 {
                match Self::is_watchpoint_triggered(solver, &entry.0, addr, &upper) {
                    Ok(true) => {
                        proof {
                            let i = choose|i: Interp|
                                satisfies(old(solver)@, i) && touches(
                                    addr.number(i),
                                    upper.number(i),
                                    entry.0,
                                );
                            assert(upper.number(i) == access_end(addr.number(i), bits as nat));
                            assert(can_trigger(old(solver)@, addr@, bits as nat, entry.0));
                        }
                        names.push(key.0.clone());
                        proof {
                            picked = picked.push(a as int);
                        }
                    },
                    Ok(false) => {
                        proof {
                            if can_trigger(old(solver)@, addr@, bits as nat, entry.0) {
                                let i = choose|i: Interp|
                                    satisfies(old(solver)@, i) && touches(
                                        addr.number(i),
                                        access_end(addr.number(i), bits as nat),
                                        entry.0,
                                    );
                                assert(upper.number(i) == access_end(addr.number(i), bits as nat));
                            }
                        }
                    },
                    Err(e) => {
                        proof {
                            let id = self.table.pairs()[a as int].0.id();
                            assert(self@.contains_key(id) && self@[id].1);
                        }
                        return Err(e);
                    },
                }
            }
            proof {
                assert forall|k: int| 0 <= k < names@.len() implies self.triggered(
                    old(solver)@,
                    addr@,
                    bits as nat,
                    (#[trigger] names@[k])@,
                ) by {
                    if k < before.len() {
                        assert(names@[k] == before[k]);
                    }
                }
                assert forall|b: int|
                    0 <= b < a + 1 && self.triggered(
                        old(solver)@,
                        addr@,
                        bits as nat,
                        (#[trigger] self.table.pairs()[b]).0.id(),
                    ) implies exists|k: int|
                    0 <= k < names@.len() && (#[trigger] names@[k])@
                        == self.table.pairs()[b].0.id() by {
                    if b < a {
                        let k = choose|k: int|
                            0 <= k < before.len() && (#[trigger] before[k])@
                                == self.table.pairs()[b].0.id();
                        assert(names@[k] == before[k]);
                    } else {
                        assert(names@[before.len() as int]@ == key.0@);
                    }
                }
            }
            a = a + 1;
        }
        proof {
            self.table.lemma_pairs();
            assert forall|id: Seq<char>|
                self.triggered(old(solver)@, addr@, bits as nat, id) implies exists|k: int|
                0 <= k < names@.len() && (#[trigger] names@[k])@ == id by {
                let b = choose|b: int|
                    0 <= b < self.table.pairs().len() && (#[trigger] self.table.pairs()[b]).0.id()
                        == id;
                assert(self.triggered(old(solver)@, addr@, bits as nat, self.table.pairs()[b].0.id()));
            }
            assert(forall|id: Seq<char>|
                self.triggered(old(solver)@, addr@, bits as nat, id) ==> exists|k: int|
                    0 <= k < names@.len() && (#[trigger] names@[k])@ == id);
        }
        let ghost unsorted = names@;
        proof {
            assert forall|j: int, k: int|
                0 <= j < unsorted.len() && 0 <= k < unsorted.len() && j != k implies texts(
                unsorted,
            )[j] != texts(unsorted)[k] by {
                if j < k {
                    assert(picked[j] < picked[k]);
                } else {
                    assert(picked[k] < picked[j]);
                }
            }
        }
        let names = sorted_strings(names);
        let ghost ns = names@;
        proof {
            lemma_same_texts(texts(unsorted), texts(ns));
            assert forall|k: int| 0 <= k < ns.len() implies self.triggered(
                old(solver)@,
                addr@,
                bits as nat,
                (#[trigger] ns[k])@,
            ) by {
                assert(texts(ns)[k] == ns[k]@);
                assert(texts(unsorted).contains(texts(ns)[k]));
                let m = choose|m: int|
                    0 <= m < texts(unsorted).len() && texts(unsorted)[m] == texts(ns)[k];
                assert(unsorted[m]@ == ns[k]@);
            }
            assert forall|id: Seq<char>|
                self.triggered(old(solver)@, addr@, bits as nat, id) implies exists|k: int|
                0 <= k < ns.len() && (#[trigger] ns[k])@ == id by {
                let m = choose|m: int| 0 <= m < unsorted.len() && (#[trigger] unsorted[m])@ == id;
                assert(texts(unsorted)[m] == id);
                assert(texts(unsorted).contains(id));
                assert(texts(ns).contains(id));
                let k = choose|k: int| 0 <= k < texts(ns).len() && texts(ns)[k] == id;
                assert(ns[k]@ == id);
            }
        }
        let r: Result<Vec<String>, Error> = Ok(names);
        assert(r->Ok_0@ == ns);
        r
    }

    /// Whether there is an enabled watchpoint of that name which an access
    /// of `bits` bits at `addr` can touch under `frames`.
    pub open spec fn triggered(
        &self,
        frames: Seq<Seq<Formula>>,
        addr: Term,
        bits: nat,
        id: Seq<char>,
    ) -> bool {
        &&& self@.contains_key(id)
        &&& self@[id].1
        &&& can_trigger(frames, addr, bits, self@[id].0)
    }
}

/// The watchpoints that the first `upto` of the given ones make, all
/// enabled; of two with one name the later.
pub open spec fn initial_watchpoints(initial: Seq<(String, Watchpoint)>, upto: nat) -> Map<
    Seq<char>,
    (Watchpoint, bool),
>
    decreases upto,
{
    if upto == 0 || upto > initial.len() {
        Map::empty()
    } else {
        initial_watchpoints(initial, (upto - 1) as nat).insert(
            initial[upto - 1].0@,
            (initial[upto - 1].1, true),
        )
    }
}

} // verus!
