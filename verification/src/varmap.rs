//! The variable map: for each name of each function the symbolic value it
//! is bound to now, and how many versions of it were made.

use crate::bv::BitVec;
use crate::error::{Error, ErrorKind};
use crate::ir::{Name, NameView};
use crate::smt::context_id;
use crate::table::{Table, TableKey};
use crate::term::Term;
use vstd::prelude::*;
use vstd::string::*;

verus! {

/// The key of a binding: the name of the function and the name in it.
pub struct VarKey {
    pub func: String,
    pub name: Name,
}

impl TableKey for VarKey {
    type Id = (Seq<char>, NameView);

    open spec fn id(&self) -> (Seq<char>, NameView) {
        (self.func@, self.name@)
    }

    fn same(&self, other: &Self) -> (r: bool) {
        self.func == other.func && self.name.same(&other.name)
    }

    fn copy(&self) -> (r: Self) {
        VarKey { func: self.func.clone(), name: self.name.clone() }
    }
}

/// What a name is bound to, and how many versions of it were made.
pub struct VarEntry<'ctx> {
    pub current: BitVec<'ctx>,
    pub versions: usize,
}

/// The decimal digit `d`.
pub open spec fn digit(d: nat) -> char {
    if d == 0 {
        '0'
    } else if d == 1 {
        '1'
    } else if d == 2 {
        '2'
    } else if d == 3 {
        '3'
    } else if d == 4 {
        '4'
    } else if d == 5 {
        '5'
    } else if d == 6 {
        '6'
    } else if d == 7 {
        '7'
    } else if d == 8 {
        '8'
    } else {
        '9'
    }
}

/// The decimal numeral of `n`.
pub open spec fn decimal(n: nat) -> Seq<char>
    decreases n,
{
    if n < 10 {
        seq![digit(n)]
    } else {
        decimal(n / 10) + seq![digit(n % 10)]
    }
}

/// A name as text: a string as it is, a number as `%` and its numeral.
pub open spec fn name_text(name: NameView) -> Seq<char> {
    match name {
        NameView::Name(s) => s,
        NameView::Number(n) => seq!['%'] + decimal(n as nat),
    }
}

/// The name of the unknown that stands for a version of a variable.
pub open spec fn label(func: Seq<char>, name: NameView, version: nat) -> Seq<char> {
    func + seq!['_'] + name_text(name) + seq!['_'] + decimal(version)
}

fn digit_text(d: usize) -> (r: &'static str)
    requires
        d < 10,
    ensures
        r@ == seq![digit(d as nat)],
{
    proof {
        reveal_strlit("0");
        reveal_strlit("1");
        reveal_strlit("2");
        reveal_strlit("3");
        reveal_strlit("4");
        reveal_strlit("5");
        reveal_strlit("6");
        reveal_strlit("7");
        reveal_strlit("8");
        reveal_strlit("9");
    }
    let r = if d == 0 {
        "0"
    } else if d == 1 {
        "1"
    } else if d == 2 {
        "2"
    } else if d == 3 {
        "3"
    } else if d == 4 {
        "4"
    } else if d == 5 {
        "5"
    } else if d == 6 {
        "6"
    } else if d == 7 {
        "7"
    } else if d == 8 {
        "8"
    } else {
        "9"
    };
    assert(r@ =~= seq![digit(d as nat)]);
    r
}

/// Appends the decimal numeral of `n`.
pub fn push_decimal(s: &mut String, n: usize)
    ensures
        final(s)@ == old(s)@ + decimal(n as nat),
    decreases n,
{
    if n >= 10 {
        push_decimal(s, n / 10);
    }
    s.append(digit_text(n % 10));
    proof {
        assert(s@ =~= old(s)@ + decimal(n as nat));
    }
}

/// Builds the name of the unknown for a version of a variable.
pub fn make_label(func: &String, name: &Name, version: usize) -> (r: String)
    ensures
        r@ == label(func@, name@, version as nat),
{
    let mut r = func.clone();
    proof {
        reveal_strlit("_");
        reveal_strlit("%");
    }
    r.append("_");
    match name {
        Name::Name(s) => {
            r.append(s.as_str());
        },
        Name::Number(n) => {
            r.append("%");
            push_decimal(&mut r, *n);
        },
    }
    r.append("_");
    push_decimal(&mut r, version);
    proof {
        assert(r@ =~= label(func@, name@, version as nat));
    }
    r
}

/// Whether the text holds a NUL.
pub fn has_nul(s: &str) -> (r: bool)
    ensures
        r == s@.contains('\0'),
{
    let n = s.unicode_len();
    let mut k: usize = 0;
    while k < n
        invariant
            n == s@.len(),
            0 <= k <= n,
            forall|m: int| 0 <= m < k ==> s@[m] != '\0',
        decreases n - k,
    {
        if s.get_char(k) == '\0' {
            return true;
        }
        k = k + 1;
    }
    false
}

/// The current bindings of one function, to go back to later.
pub struct RestoreInfo<'ctx> {
    pub funcname: String,
    pub fn_vars: Vec<(Name, BitVec<'ctx>)>,
}

impl<'ctx> Clone for RestoreInfo<'ctx> {
    fn clone(&self) -> (r: Self)
        ensures
            r.funcname@ == self.funcname@,
            r@ == self@,
            forall|home: int| self.wf(home) ==> r.wf(home),
    {
        let mut fn_vars: Vec<(Name, BitVec<'ctx>)> = Vec::new();
        let mut k: usize = 0;
        while k < self.fn_vars.len()
            invariant
                0 <= k <= self.fn_vars@.len(),
                fn_vars@.len() == k,
                forall|m: int|
                    0 <= m < k ==> (#[trigger] fn_vars@[m]).0@ == self.fn_vars@[m].0@
                        && fn_vars@[m].1@ == self.fn_vars@[m].1@ && fn_vars@[m].1.home()
                        == self.fn_vars@[m].1.home(),
            decreases self.fn_vars@.len() - k,
        {
            fn_vars.push((self.fn_vars[k].0.clone(), self.fn_vars[k].1.clone()));
            k = k + 1;
        }
        let r = RestoreInfo { funcname: self.funcname.clone(), fn_vars };
        proof {
            assert(r@ =~= self@);
            assert forall|home: int| self.wf(home) implies r.wf(home) by {
                assert forall|m: int| 0 <= m < r.fn_vars@.len() implies (
                #[trigger] r.fn_vars@[m]).1.home() == home by {
                    assert(self.fn_vars@[m].1.home() == home);
                }
            }
        }
        r
    }
}

impl<'ctx> RestoreInfo<'ctx> {
    /// The names and the terms they were bound to.
    pub open spec fn view(&self) -> Seq<(NameView, Term)> {
        Seq::new(self.fn_vars@.len(), |k: int| (self.fn_vars@[k].0@, self.fn_vars@[k].1@))
    }

    /// Every term belongs to the context `home`.
    pub open spec fn wf(&self, home: int) -> bool {
        forall|k: int| 0 <= k < self.fn_vars@.len() ==> (#[trigger] self.fn_vars@[k]).1.home() == home
    }
}

/// The bindings with those of `pairs` up to `upto` put back for `func`; the
/// number of versions of a name stays, and is zero for a name that was not
/// bound.
pub open spec fn restored(
    m: Map<(Seq<char>, NameView), (Term, nat)>,
    func: Seq<char>,
    pairs: Seq<(NameView, Term)>,
    upto: nat,
) -> Map<(Seq<char>, NameView), (Term, nat)>
    decreases upto,
{
    if upto == 0 || upto > pairs.len() {
        m
    } else {
        let before = restored(m, func, pairs, (upto - 1) as nat);
        let key = (func, pairs[upto - 1].0);
        let versions = if before.contains_key(key) {
            before[key].1
        } else {
            0
        };
        before.insert(key, (pairs[upto - 1].1, versions))
    }
}

/// For each key the term it is bound to and the number of its versions.
pub open spec fn bindings_of<'ctx>(m: Map<(Seq<char>, NameView), VarEntry<'ctx>>) -> Map<
    (Seq<char>, NameView),
    (Term, nat),
> {
    Map::new(
        |id: (Seq<char>, NameView)| m.contains_key(id),
        |id: (Seq<char>, NameView)| (m[id].current@, m[id].versions as nat),
    )
}

/// The bindings of all variables.
pub struct VarMap<'ctx> {
    ctx: &'ctx z3::Context,
    table: Table<VarKey, VarEntry<'ctx>>,
    max_versions_of_name: usize,
}

impl<'ctx> VarMap<'ctx> {
    /// The context that the bound values belong to.
    pub closed spec fn home(&self) -> int {
        context_id(*self.ctx)
    }

    /// The greatest number of versions that a name may get.
    pub closed spec fn max_versions(&self) -> nat {
        self.max_versions_of_name as nat
    }

    /// For each bound name the term it is bound to and the number of its
    /// versions.
    pub closed spec fn view(&self) -> Map<(Seq<char>, NameView), (Term, nat)> {
        bindings_of(self.table@)
    }

    /// The number of versions made of a name.
    pub open spec fn versions_of(&self, func: Seq<char>, name: NameView) -> nat {
        if self@.contains_key((func, name)) {
            self@[(func, name)].1
        } else {
            0
        }
    }

    /// No key occurs twice, every value belongs to the context, and no
    /// name has more versions than allowed.
    pub closed spec fn wf(&self) -> bool {
        &&& self.table.wf()
        &&& forall|id: (Seq<char>, NameView)| #[trigger]
            self.table@.contains_key(id) ==> self.table@[id].current.home() == context_id(
                *self.ctx,
            ) && self.table@[id].versions <= self.max_versions_of_name
    }

    /// A map without bindings.
    pub fn new(ctx: &'ctx z3::Context, max_versions_of_name: usize) -> (r: VarMap<'ctx>)
        ensures
            r.wf(),
            r.home() == context_id(*ctx),
            r.max_versions() == max_versions_of_name,
            r@ == Map::<(Seq<char>, NameView), (Term, nat)>::empty(),
    {
        let r = VarMap { ctx, table: Table::new(), max_versions_of_name };
        assert(r@ =~= Map::<(Seq<char>, NameView), (Term, nat)>::empty());
        r
    }

    /// A map of its own with the same bindings.
    pub fn duplicate(&self) -> (r: VarMap<'ctx>)
        requires
            self.wf(),
        ensures
            r.wf(),
            r.home() == self.home(),
            r.max_versions() == self.max_versions(),
            r@ == self@,
    {
        let mut copy = VarMap::new(self.ctx, self.max_versions_of_name);
        let n = self.table.len();
        let mut a: usize = 0;
        proof {
            self.table.lemma_pairs();
            assert(bindings_of(crate::table::to_map(self.table.pairs().subrange(0, 0)))
                =~= Map::<(Seq<char>, NameView), (Term, nat)>::empty());
        }
        while a < n
            invariant
                self.wf(),
                copy.wf(),
                copy.home() == self.home(),
                copy.max_versions() == self.max_versions(),
                n == self.table.pairs().len(),
                0 <= a <= n,
                copy@ == bindings_of(
                    crate::table::to_map(self.table.pairs().subrange(0, a as int)),
                ),
            decreases n - a,
        {
            let (key, entry) = self.table.pair_at(a);
            proof {
                self.table.lemma_pairs();
                assert(self.table@.contains_key(self.table.pairs()[a as int].0.id()));
                let upto = self.table.pairs().subrange(0, a + 1);
                assert(upto.drop_last() =~= self.table.pairs().subrange(0, a as int));
                assert(upto.last() == self.table.pairs()[a as int]);
            }
            let ghost before = copy@;
            copy.table.insert(
                VarKey { func: key.func.clone(), name: key.name.clone() },
                VarEntry { current: entry.current.clone(), versions: entry.versions },
            );
            proof {
                assert(copy@ =~= before.insert(
                    key.id(),
                    (entry.current@, entry.versions as nat),
                ));
                assert(copy@ =~= bindings_of(
                    crate::table::to_map(self.table.pairs().subrange(0, a + 1)),
                ));
            }
            a = a + 1;
        }
        proof {
            assert(self.table.pairs().subrange(0, n as int) =~= self.table.pairs());
        }
        copy
    }

    /// The version number that the next version of a name gets, or nothing
    /// where the name has all the versions it may have.
    fn next_version(&self, key: &VarKey) -> (r: Option<usize>)
        requires
            self.wf(),
        ensures
            match r {
                Some(v) => v == self.versions_of(key.func@, key.name@) && v < self.max_versions(),
                None => self.versions_of(key.func@, key.name@) >= self.max_versions(),
            },
    {
        let made = match self.table.get(key) {
            Some(entry) => entry.versions,
            None => 0,
        };
        if made < self.max_versions_of_name {
            Some(made)
        } else {
            None
        }
    }

    /// Binds a new version of a name to `bv`.
    fn bind(&mut self, key: VarKey, bv: BitVec<'ctx>, version: usize)
        requires
            old(self).wf(),
            bv.home() == old(self).home(),
            version == old(self).versions_of(key.func@, key.name@),
            version < old(self).max_versions(),
        ensures
            final(self).wf(),
            final(self).home() == old(self).home(),
            final(self).max_versions() == old(self).max_versions(),
            final(self)@ == old(self)@.insert((key.func@, key.name@), (bv@, (version + 1) as nat)),
    {
        let ghost id = key.id();
        let ghost term = bv@;
        self.table.insert(key, VarEntry { current: bv, versions: version + 1 });
        proof {
            assert(self@ =~= old(self)@.insert(id, (term, (version + 1) as nat)));
        }
    }

    /// Makes a new unknown of `bits` bits and binds a new version of the
    /// name to it. Fails with `LoopBoundExceeded` where the name has all
    /// the versions it may have, else with `OtherError` where the name of
    /// the unknown would hold a NUL.
    pub fn new_bv_with_name(&mut self, funcname: String, name: Name, bits: u32) -> (r: Result<
        BitVec<'ctx>,
        Error,
    >)
        requires
            old(self).wf(),
            bits > 0,
        ensures
            final(self).wf(),
            final(self).home() == old(self).home(),
            final(self).max_versions() == old(self).max_versions(),
            match r {
                Ok(bv) => {
                    let version = old(self).versions_of(funcname@, name@);
                    &&& version < old(self).max_versions()
                    &&& bv.home() == old(self).home()
                    &&& bv@ == (Term::Var {
                        name: label(funcname@, name@, version),
                        width: bits as nat,
                    })
                    &&& final(self)@ == old(self)@.insert(
                        (funcname@, name@),
                        (bv@, (version + 1) as nat),
                    )
                },
                Err(e) => {
                    let version = old(self).versions_of(funcname@, name@);
                    &&& final(self)@ == old(self)@
                    &&& if version >= old(self).max_versions() {
                        e.kind() == ErrorKind::LoopBoundExceeded
                    } else {
                        e.kind() == ErrorKind::OtherError && label(
                            funcname@,
                            name@,
                            version,
                        ).contains('\0')
                    }
                },
            },
    {
        let key = VarKey { func: funcname, name };
        match self.next_version(&key) {
            None => Err(Error::LoopBoundExceeded),
            Some(version) => {
                let text = make_label(&key.func, &key.name, version);
                if has_nul(text.as_str()) {
                    return Err(Error::other("the name of a variable holds a NUL"));
                }
                let bv = BitVec::new(self.ctx, text.as_str(), bits);
                let r = bv.clone();
                self.bind(key, bv, version);
                Ok(r)
            },
        }
    }

    /// Binds a new version of the name to `bv`. Fails with
    /// `LoopBoundExceeded` where the name has all the versions it may have.
    pub fn assign_bv_to_name(&mut self, funcname: String, name: Name, bv: BitVec<'ctx>) -> (r:
        Result<(), Error>)
        requires
            old(self).wf(),
            bv.home() == old(self).home(),
        ensures
            final(self).wf(),
            final(self).home() == old(self).home(),
            final(self).max_versions() == old(self).max_versions(),
            match r {
                Ok(()) => {
                    let version = old(self).versions_of(funcname@, name@);
                    &&& version < old(self).max_versions()
                    &&& final(self)@ == old(self)@.insert(
                        (funcname@, name@),
                        (bv@, (version + 1) as nat),
                    )
                },
                Err(e) => {
                    &&& final(self)@ == old(self)@
                    &&& e.kind() == ErrorKind::LoopBoundExceeded
                    &&& old(self).versions_of(funcname@, name@) >= old(self).max_versions()
                },
            },
    {
        let key = VarKey { func: funcname, name };
        match self.next_version(&key) {
            None => Err(Error::LoopBoundExceeded),
            Some(version) => {
                self.bind(key, bv, version);
                Ok(())
            },
        }
    }

    /// Whether the name is bound.
    pub fn is_bound(&self, funcname: &String, name: &Name) -> (r: bool)
        requires
            self.wf(),
        ensures
            r == self@.contains_key((funcname@, name@)),
    {
        let key = VarKey { func: funcname.clone(), name: name.clone() };
        self.table.contains(&key)
    }

    /// What the name is bound to. The name must be bound.
    pub fn lookup_var(&self, funcname: &String, name: &Name) -> (r: &BitVec<'ctx>)
        requires
            self.wf(),
            self@.contains_key((funcname@, name@)),
        ensures
            r@ == self@[(funcname@, name@)].0,
            r.home() == self.home(),
    {
        let key = VarKey { func: funcname.clone(), name: name.clone() };
        match self.table.get(&key) {
            Some(entry) => &entry.current,
            None => {
                proof {
                    assert(false);
                }
                vstd::pervasive::unreached::<&BitVec<'ctx>>()
            },
        }
    }

    /// Binds the latest version of the name to `bv` instead. The name must
    /// be bound.
    pub fn overwrite_latest_version_of_bv(&mut self, funcname: &String, name: &Name, bv: BitVec<'ctx>)
        requires
            old(self).wf(),
            old(self)@.contains_key((funcname@, name@)),
            bv.home() == old(self).home(),
        ensures
            final(self).wf(),
            final(self).home() == old(self).home(),
            final(self).max_versions() == old(self).max_versions(),
            final(self)@ == old(self)@.insert(
                (funcname@, name@),
                (bv@, old(self)@[(funcname@, name@)].1),
            ),
    {
        let key = VarKey { func: funcname.clone(), name: name.clone() };
        let versions = match self.table.get(&key) {
            Some(entry) => entry.versions,
            None => 0,
        };
        let ghost id = key.id();
        let ghost term = bv@;
        self.table.insert(key, VarEntry { current: bv, versions });
        proof {
            assert(self@ =~= old(self)@.insert(id, (term, versions as nat)));
        }
    }

    /// The current bindings of the names of one function.
    pub fn get_restore_info_for_fn(&self, funcname: String) -> (r: RestoreInfo<'ctx>)
        requires
            self.wf(),
        ensures
            r.funcname@ == funcname@,
            r.wf(self.home()),
            forall|k: int|
                0 <= k < r@.len() ==> self@.contains_key((funcname@, (#[trigger] r@[k]).0))
                    && self@[(funcname@, r@[k].0)].0 == r@[k].1,
            forall|name: NameView|
                self@.contains_key((funcname@, name)) ==> exists|k: int|
                    0 <= k < r@.len() && (#[trigger] r@[k]).0 == name,
    {
        let mut fn_vars: Vec<(Name, BitVec<'ctx>)> = Vec::new();
        let mut a: usize = 0;
        let n = self.table.len();
        proof {
            self.table.lemma_pairs();
        }
        while a < n
            invariant
                self.wf(),
                n == self.table.pairs().len(),
                0 <= a <= n,
                forall|k: int|
                    0 <= k < fn_vars@.len() ==> self@.contains_key(
                        (funcname@, (#[trigger] fn_vars@[k]).0@),
                    ) && self@[(funcname@, fn_vars@[k].0@)].0 == fn_vars@[k].1@ && fn_vars@[k].1.home()
                        == self.home(),
                forall|b: int|
                    0 <= b < a && (#[trigger] self.table.pairs()[b]).0.func@ == funcname@
                        ==> exists|k: int|
                        0 <= k < fn_vars@.len() && (#[trigger] fn_vars@[k]).0@
                            == self.table.pairs()[b].0.name@,
            decreases n - a,
        {
            let (key, entry) = self.table.pair_at(a);
            proof {
                self.table.lemma_pairs();
                assert(self.table@.contains_key(self.table.pairs()[a as int].0.id()));
            }
            if key.func == funcname {
                let ghost before = fn_vars@;
                fn_vars.push((key.name.clone(), entry.current.clone()));
                proof {
                    assert forall|b: int|
                        0 <= b < a + 1 && (#[trigger] self.table.pairs()[b]).0.func@
                            == funcname@ implies exists|k: int|
                        0 <= k < fn_vars@.len() && (#[trigger] fn_vars@[k]).0@
                            == self.table.pairs()[b].0.name@ by {
                        if b < a {
                            let k = choose|k: int|
                                0 <= k < before.len() && (#[trigger] before[k]).0@
                                    == self.table.pairs()[b].0.name@;
                            assert(fn_vars@[k] == before[k]);
                        } else {
                            assert(fn_vars@[before.len() as int].0@ == key.name@);
                        }
                    }
                    assert forall|k: int| 0 <= k < fn_vars@.len() implies self@.contains_key(
                        (funcname@, (#[trigger] fn_vars@[k]).0@),
                    ) && self@[(funcname@, fn_vars@[k].0@)].0 == fn_vars@[k].1@
                        && fn_vars@[k].1.home() == self.home() by {
                        if k < before.len() {
                            assert(fn_vars@[k] == before[k]);
                        }
                    }
                }
            }
            a = a + 1;
        }
        let r = RestoreInfo { funcname, fn_vars };
        proof {
            self.table.lemma_pairs();
            assert forall|name: NameView| self@.contains_key((funcname@, name)) implies exists|
                k: int,
            |
                0 <= k < r@.len() && (#[trigger] r@[k]).0 == name by {
                let b = choose|b: int|
                    0 <= b < self.table.pairs().len() && (#[trigger] self.table.pairs()[b]).0.id() == (
                        funcname@,
                        name,
                    );
                let k = choose|k: int|
                    0 <= k < fn_vars@.len() && (#[trigger] fn_vars@[k]).0@
                        == self.table.pairs()[b].0.name@;
                assert(r@[k].0 == name);
            }
            assert forall|k: int| 0 <= k < r@.len() implies self@.contains_key(
                (funcname@, (#[trigger] r@[k]).0),
            ) && self@[(funcname@, r@[k].0)].0 == r@[k].1 by {
                assert(r@[k].0 == r.fn_vars@[k].0@);
            }
        }
        r
    }

    /// Puts the bindings of one function back as they were when `rinfo` was
    /// taken.
    pub fn restore_fn_vars(&mut self, rinfo: RestoreInfo<'ctx>)
        requires
            old(self).wf(),
            rinfo.wf(old(self).home()),
        ensures
            final(self).wf(),
            final(self).home() == old(self).home(),
            final(self).max_versions() == old(self).max_versions(),
            final(self)@ == restored(old(self)@, rinfo.funcname@, rinfo@, rinfo@.len()),
    {
        let RestoreInfo { funcname, fn_vars } = rinfo;
        let ghost pairs = rinfo@;
        let mut rest = fn_vars;
        let ghost mut done: nat = 0;
        let total = rest.len();
        while rest.len() > 0
            invariant
                self.wf(),
                self.home() == old(self).home(),
                self.max_versions() == old(self).max_versions(),
                done + rest@.len() == pairs.len(),
                forall|k: int|
                    0 <= k < rest@.len() ==> (#[trigger] rest@[k]).0@ == pairs[done + k].0
                        && rest@[k].1@ == pairs[done + k].1 && rest@[k].1.home() == self.home(),
                self@ == restored(old(self)@, funcname@, pairs, done),
            decreases rest@.len(),
        {
            let (name, bv) = rest.remove(0);
            let key = VarKey { func: funcname.clone(), name };
            let versions = match self.table.get(&key) {
                Some(entry) => entry.versions,
                None => 0,
            };
            let ghost id = key.id();
            let ghost term = bv@;
            let ghost before = self@;
            self.table.insert(key, VarEntry { current: bv, versions });
            proof {
                assert(self@ =~= before.insert(id, (term, versions as nat)));
                done = done + 1;
            }
        }
    }
}

} // verus!
