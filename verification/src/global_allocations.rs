//! Where the globals, the functions and the function hooks of a program
//! lie in memory.

use crate::bv::BitVec;
use crate::ir::{Constant, Function, Module, Name, NameView};
use crate::smt::context_id;
use crate::table::{Replicate, Table, TableKey};
use crate::term::Term;
use crate::watchpoints::StrKey;
use vstd::prelude::*;

verus! {

impl TableKey for Name {
    type Id = NameView;

    open spec fn id(&self) -> NameView {
        self@
    }

    fn same(&self, other: &Self) -> (r: bool) {
        Name::same(self, other)
    }

    fn copy(&self) -> (r: Self) {
        self.clone()
    }
}

/// An address as a key.
pub struct AddrKey(pub u64);

impl TableKey for AddrKey {
    type Id = u64;

    open spec fn id(&self) -> u64 {
        self.0
    }

    fn same(&self, other: &Self) -> (r: bool) {
        self.0 == other.0
    }

    fn copy(&self) -> (r: Self) {
        AddrKey(self.0)
    }
}

/// What lies at the address of a global name.
pub enum GlobalAllocation<'p, 'ctx> {
    /// A global variable: its address, its initializer, and whether the
    /// initializer was written to memory.
    GlobalVariable { addr: BitVec<'ctx>, initializer: &'p Constant, initialized: bool },
    /// A function, with its module.
    Function { addr: BitVec<'ctx>, func: &'p Function, module: &'p Module },
}

/// What lies at the address of a global name, as a value of specifications.
pub enum GlobalView {
    Variable { addr: Term, initializer: Constant, initialized: bool },
    Function { addr: Term, func: Function, module: Module },
}

/// What a function pointer can point to, as a value of specifications.
pub enum CallableView {
    Function(Function),
    Hook(Seq<char>),
}

impl<'p, 'ctx> Replicate for GlobalAllocation<'p, 'ctx> {
    open spec fn alike(&self, other: &Self) -> bool {
        self@ == other@ && self.addr().home() == other.addr().home()
    }

    fn replicate(&self) -> (r: Self) {
        match self {
            GlobalAllocation::GlobalVariable { addr, initializer, initialized } => {
                GlobalAllocation::GlobalVariable {
                    addr: addr.clone(),
                    initializer: *initializer,
                    initialized: *initialized,
                }
            },
            GlobalAllocation::Function { addr, func, module } => GlobalAllocation::Function {
                addr: addr.clone(),
                func: *func,
                module: *module,
            },
        }
    }
}

impl<'ctx> Replicate for BitVec<'ctx> {
    open spec fn alike(&self, other: &Self) -> bool {
        self@ == other@ && self.home() == other.home()
    }

    fn replicate(&self) -> (r: Self) {
        self.clone()
    }
}

impl<'p> Replicate for Callable<'p> {
    open spec fn alike(&self, other: &Self) -> bool {
        self@ == other@
    }

    fn replicate(&self) -> (r: Self) {
        self.clone()
    }
}

impl<'p, 'ctx> GlobalAllocation<'p, 'ctx> {
    /// The same as a value of specifications.
    pub open spec fn view(&self) -> GlobalView {
        match *self {
            GlobalAllocation::GlobalVariable { addr, initializer, initialized } => {
                GlobalView::Variable { addr: addr@, initializer: *initializer, initialized }
            },
            GlobalAllocation::Function { addr, func, module } => GlobalView::Function {
                addr: addr@,
                func: *func,
                module: *module,
            },
        }
    }

    /// The address.
    pub open spec fn addr(self) -> BitVec<'ctx> {
        match self {
            GlobalAllocation::GlobalVariable { addr, .. } => addr,
            GlobalAllocation::Function { addr, .. } => addr,
        }
    }

    /// The address.
    pub fn address(&self) -> (r: &BitVec<'ctx>)
        ensures
            *r == self.addr(),
    {
        match self {
            GlobalAllocation::GlobalVariable { addr, .. } => addr,
            GlobalAllocation::Function { addr, .. } => addr,
        }
    }
}

/// What is known of a global name, for a caller to keep.
pub enum GlobalInfo<'p, 'ctx> {
    Variable { addr: BitVec<'ctx>, initializer: &'p Constant, initialized: bool },
    Function { addr: BitVec<'ctx> },
}

/// What a function pointer can point to.
pub enum Callable<'p> {
    /// A function of the program.
    LLVMFunction(&'p Function),
    /// The hook that stands for the function of that name.
    FunctionHook(String),
}

impl<'p> Clone for Callable<'p> {
    fn clone(&self) -> (r: Self)
        ensures
            r@ == self@,
    {
        match self {
            Callable::LLVMFunction(f) => Callable::LLVMFunction(f),
            Callable::FunctionHook(name) => Callable::FunctionHook(name.clone()),
        }
    }
}

impl<'p> Callable<'p> {
    /// The same as a value of specifications.
    pub open spec fn view(&self) -> CallableView {
        match *self {
            Callable::LLVMFunction(f) => CallableView::Function(*f),
            Callable::FunctionHook(name) => CallableView::Hook(name@),
        }
    }
}

/// The addresses of all globals, functions and hooks.
pub struct GlobalAllocations<'p, 'ctx> {
    ctx: &'ctx z3::Context,
    allocated_globals: Table<Name, GlobalAllocation<'p, 'ctx>>,
    allocated_hooks: Table<StrKey, BitVec<'ctx>>,
    addr_to_callable: Table<AddrKey, Callable<'p>>,
}

impl<'p, 'ctx> GlobalAllocations<'p, 'ctx> {
    /// For each global name what lies at its address.
    pub closed spec fn globals(&self) -> Map<NameView, GlobalAllocation<'p, 'ctx>> {
        self.allocated_globals@
    }

    /// For each hooked function name the address of its hook.
    pub closed spec fn hooks(&self) -> Map<Seq<char>, BitVec<'ctx>> {
        self.allocated_hooks@
    }

    /// For each address of a function or a hook what is there.
    pub closed spec fn callables(&self) -> Map<u64, Callable<'p>> {
        self.addr_to_callable@
    }

    /// The context that the addresses belong to.
    pub closed spec fn home(&self) -> int {
        context_id(*self.ctx)
    }

    /// No key occurs twice, and every address has 64 bits and belongs to
    /// the context.
    pub closed spec fn wf(&self) -> bool {
        &&& self.allocated_globals.wf()
        &&& self.allocated_hooks.wf()
        &&& self.addr_to_callable.wf()
        &&& forall|id: NameView| #[trigger]
            self.allocated_globals@.contains_key(id) ==> self.allocated_globals@[id].addr().home()
                == context_id(*self.ctx) && self.allocated_globals@[id].addr().width() == 64
        &&& forall|id: Seq<char>| #[trigger]
            self.allocated_hooks@.contains_key(id) ==> self.allocated_hooks@[id].home() == context_id(*self.ctx)
                && self.allocated_hooks@[id].width() == 64
    }

    /// For each global name what lies at its address, as values of
    /// specifications.
    pub open spec fn global_views(&self) -> Map<NameView, GlobalView> {
        Map::new(
            |id: NameView| self.globals().contains_key(id),
            |id: NameView| self.globals()[id]@,
        )
    }

    /// For each hooked function name the term of the address of its hook.
    pub open spec fn hook_views(&self) -> Map<Seq<char>, Term> {
        Map::new(|id: Seq<char>| self.hooks().contains_key(id), |id: Seq<char>| self.hooks()[id]@)
    }

    /// For each address of a function or a hook what is there, as values of
    /// specifications.
    pub open spec fn callable_views(&self) -> Map<u64, CallableView> {
        Map::new(|a: u64| self.callables().contains_key(a), |a: u64| self.callables()[a]@)
    }

    /// Allocations of their own that are the same.
    pub fn duplicate(&self) -> (r: Self)
        requires
            self.wf(),
        ensures
            r.wf(),
            r.home() == self.home(),
            r.global_views() == self.global_views(),
            r.hook_views() == self.hook_views(),
            r.callable_views() == self.callable_views(),
    {
        let r = GlobalAllocations {
            ctx: self.ctx,
            allocated_globals: self.allocated_globals.duplicate(),
            allocated_hooks: self.allocated_hooks.duplicate(),
            addr_to_callable: self.addr_to_callable.duplicate(),
        };
        proof {
            assert forall|id: NameView| #[trigger]
                r.allocated_globals@.contains_key(id) implies r.allocated_globals@[id].addr().home()
                == context_id(*r.ctx) && r.allocated_globals@[id].addr().width() == 64 by {
                assert(self.allocated_globals@.contains_key(id));
                assert(self.allocated_globals@[id].alike(&r.allocated_globals@[id]));
            }
            assert forall|id: Seq<char>| #[trigger]
                r.allocated_hooks@.contains_key(id) implies r.allocated_hooks@[id].home()
                == context_id(*r.ctx) && r.allocated_hooks@[id].width() == 64 by {
                assert(self.allocated_hooks@.contains_key(id));
                assert(self.allocated_hooks@[id].alike(&r.allocated_hooks@[id]));
            }
            assert(r.global_views() =~= self.global_views()) by {
                assert forall|id: NameView| self.globals().contains_key(id) implies r.globals()[id]@
                    == self.globals()[id]@ by {
                    assert(self.allocated_globals@.contains_key(id));
                    assert(self.allocated_globals@[id].alike(&r.allocated_globals@[id]));
                }
            }
            assert(r.hook_views() =~= self.hook_views()) by {
                assert forall|id: Seq<char>| self.hooks().contains_key(id) implies r.hooks()[id]@
                    == self.hooks()[id]@ by {
                    assert(self.allocated_hooks@.contains_key(id));
                    assert(self.allocated_hooks@[id].alike(&r.allocated_hooks@[id]));
                }
            }
            assert(r.callable_views() =~= self.callable_views()) by {
                assert forall|a: u64| self.callables().contains_key(a) implies r.callables()[a]@
                    == self.callables()[a]@ by {
                    assert(self.addr_to_callable@.contains_key(a));
                    assert(self.addr_to_callable@[a].alike(&r.addr_to_callable@[a]));
                }
            }
        }
        r
    }

    /// Nothing allocated.
    pub fn new(ctx: &'ctx z3::Context) -> (r: Self)
        ensures
            r.wf(),
            r.home() == context_id(*ctx),
            r.globals() == Map::<NameView, GlobalAllocation<'p, 'ctx>>::empty(),
            r.hooks() == Map::<Seq<char>, BitVec<'ctx>>::empty(),
            r.callables() == Map::<u64, Callable<'p>>::empty(),
    {
        GlobalAllocations {
            ctx,
            allocated_globals: Table::new(),
            allocated_hooks: Table::new(),
            addr_to_callable: Table::new(),
        }
    }

    /// Records a global variable at an address, not yet initialized.
    pub fn allocate_global_var(
        &mut self,
        name: Name,
        initializer: &'p Constant,
        addr: BitVec<'ctx>,
    )
        requires
            old(self).wf(),
            addr.home() == old(self).home(),
            addr.width() == 64,
        ensures
            final(self).wf(),
            final(self).home() == old(self).home(),
            final(self).globals() == old(self).globals().insert(
                name@,
                GlobalAllocation::GlobalVariable { addr, initializer, initialized: false },
            ),
            final(self).hooks() == old(self).hooks(),
            final(self).callables() == old(self).callables(),
            final(self).global_views() == old(self).global_views().insert(
                name@,
                GlobalView::Variable { addr: addr@, initializer: *initializer, initialized: false },
            ),
    {
        self.allocated_globals.insert(
            name,
            GlobalAllocation::GlobalVariable { addr, initializer, initialized: false },
        );
        proof {
            assert(self.global_views() =~= old(self).global_views().insert(
                name@,
                GlobalView::Variable { addr: addr@, initializer: *initializer, initialized: false },
            ));
        }
    }

    /// Records a function at an address.
    pub fn allocate_function(
        &mut self,
        func: &'p Function,
        module: &'p Module,
        addr: u64,
        addr_bv: BitVec<'ctx>,
    )
        requires
            old(self).wf(),
            addr_bv.home() == old(self).home(),
            addr_bv.width() == 64,
        ensures
            final(self).wf(),
            final(self).home() == old(self).home(),
            final(self).globals() == old(self).globals().insert(
                NameView::Name(func.name@),
                GlobalAllocation::Function { addr: addr_bv, func, module },
            ),
            final(self).hooks() == old(self).hooks(),
            final(self).callables() == old(self).callables().insert(
                addr,
                Callable::LLVMFunction(func),
            ),
            final(self).global_views() == old(self).global_views().insert(
                NameView::Name(func.name@),
                GlobalView::Function { addr: addr_bv@, func: *func, module: *module },
            ),
            final(self).hook_views() == old(self).hook_views(),
            final(self).callable_views() == old(self).callable_views().insert(
                addr,
                CallableView::Function(*func),
            ),
    {
        self.allocated_globals.insert(
            Name::Name(func.name.clone()),
            GlobalAllocation::Function { addr: addr_bv, func, module },
        );
        self.addr_to_callable.insert(AddrKey(addr), Callable::LLVMFunction(func));
        proof {
            assert(self.global_views() =~= old(self).global_views().insert(
                NameView::Name(func.name@),
                GlobalView::Function { addr: addr_bv@, func: *func, module: *module },
            ));
            assert(self.callable_views() =~= old(self).callable_views().insert(
                addr,
                CallableView::Function(*func),
            ));
        }
    }

    /// Records the hook for the function of a name at an address.
    pub fn allocate_function_hook(
        &mut self,
        hooked: String,
        addr: u64,
        addr_bv: BitVec<'ctx>,
    )
        requires
            old(self).wf(),
            addr_bv.home() == old(self).home(),
            addr_bv.width() == 64,
        ensures
            final(self).wf(),
            final(self).home() == old(self).home(),
            final(self).globals() == old(self).globals(),
            final(self).hooks() == old(self).hooks().insert(hooked@, addr_bv),
            final(self).callables().dom() == old(self).callables().dom().insert(addr),
            final(self).callables()[addr]@ == CallableView::Hook(hooked@),
            forall|a: u64|
                a != addr && old(self).callables().contains_key(a) ==> final(self).callables()[a]
                    == old(self).callables()[a],
            final(self).global_views() == old(self).global_views(),
            final(self).hook_views() == old(self).hook_views().insert(hooked@, addr_bv@),
            final(self).callable_views() == old(self).callable_views().insert(
                addr,
                CallableView::Hook(hooked@),
            ),
    {
        let copy = hooked.clone();
        self.allocated_hooks.insert(StrKey(hooked), addr_bv);
        self.addr_to_callable.insert(AddrKey(addr), Callable::FunctionHook(copy));
        proof {
            assert(self.callables().dom() =~= old(self).callables().dom().insert(addr));
            assert(self.hook_views() =~= old(self).hook_views().insert(hooked@, addr_bv@));
            assert(self.callable_views() =~= old(self).callable_views().insert(
                addr,
                CallableView::Hook(hooked@),
            ));
        }
    }

    /// What lies at the address of a global name, if the name is known.
    pub fn get_global_address(&self, name: &Name) -> (r: Option<
        &GlobalAllocation<'p, 'ctx>,
    >)
        requires
            self.wf(),
        ensures
            match r {
                Some(ga) => self.globals().contains_key(name@) && self.globals()[name@] == *ga
                    && ga.addr().home() == self.home() && ga.addr().width() == 64,
                None => !self.globals().contains_key(name@),
            },
    {
        let r = self.allocated_globals.get(name);
        proof {
            if r is Some {
                assert(self.allocated_globals@.contains_key(name@));
            }
        }
        r
    }

    /// What is known of a global name, if the name is known.
    pub fn lookup(&self, name: &Name) -> (r: Option<GlobalInfo<'p, 'ctx>>)
        requires
            self.wf(),
        ensures
            match r {
                Some(GlobalInfo::Variable { addr, initializer, initialized }) => {
                    &&& self.global_views().contains_key(name@)
                    &&& self.global_views()[name@] == (GlobalView::Variable {
                        addr: addr@,
                        initializer: *initializer,
                        initialized,
                    })
                    &&& addr.home() == self.home()
                    &&& addr.width() == 64
                },
                Some(GlobalInfo::Function { addr }) => {
                    &&& self.global_views().contains_key(name@)
                    &&& self.global_views()[name@] is Function
                    &&& self.global_views()[name@]->Function_addr == addr@
                    &&& addr.home() == self.home()
                    &&& addr.width() == 64
                },
                None => !self.global_views().contains_key(name@),
            },
    {
        match self.allocated_globals.get(name) {
            Some(GlobalAllocation::GlobalVariable { addr, initializer, initialized }) => {
                proof {
                    assert(self.allocated_globals@.contains_key(name@));
                }
                Some(
                    GlobalInfo::Variable {
                        addr: addr.clone(),
                        initializer: *initializer,
                        initialized: *initialized,
                    },
                )
            },
            Some(GlobalAllocation::Function { addr, .. }) => {
                proof {
                    assert(self.allocated_globals@.contains_key(name@));
                }
                Some(GlobalInfo::Function { addr: addr.clone() })
            },
            None => None,
        }
    }

    /// The address of the hook for the function of a name, if there is one.
    pub fn get_function_hook_address(&self, hooked: &str) -> (r: Option<
        &BitVec<'ctx>,
    >)
        requires
            self.wf(),
        ensures
            match r {
                Some(addr) => self.hooks().contains_key(hooked@) && self.hooks()[hooked@] == *addr
                    && addr.home() == self.home() && addr.width() == 64,
                None => !self.hooks().contains_key(hooked@),
            },
    {
        let key = StrKey(hooked.to_owned());
        let r = self.allocated_hooks.get(&key);
        proof {
            if r is Some {
                assert(self.allocated_hooks@.contains_key(hooked@));
            }
        }
        r
    }

    /// The function or hook at an address, if there is one.
    pub fn get_func_for_address(&self, addr: u64) -> (r: Option<Callable<'p>>)
        requires
            self.wf(),
        ensures
            match r {
                Some(c) => self.callables().contains_key(addr) && c@ == self.callables()[addr]@,
                None => !self.callables().contains_key(addr),
            },
    {
        match self.addr_to_callable.get(&AddrKey(addr)) {
            Some(c) => Some(c.clone()),
            None => None,
        }
    }

    /// Marks a global variable as initialized. The name must be that of a
    /// global variable.
    pub fn mark_initialized(&mut self, name: &Name)
        requires
            old(self).wf(),
            old(self).globals().contains_key(name@),
            old(self).globals()[name@] is GlobalVariable,
        ensures
            final(self).wf(),
            final(self).home() == old(self).home(),
            final(self).globals().dom() == old(self).globals().dom(),
            final(self).globals()[name@] is GlobalVariable,
            final(self).globals()[name@]->initialized,
            final(self).globals()[name@].addr()@ == old(self).globals()[name@].addr()@,
            final(self).globals()[name@]->initializer == old(
                self,
            ).globals()[name@]->initializer,
            forall|id: NameView|
                id != name@ && old(self).globals().contains_key(id) ==> final(self).globals()[id]
                    == old(self).globals()[id],
            final(self).hooks() == old(self).hooks(),
            final(self).callables() == old(self).callables(),
            final(self).global_views() == old(self).global_views().insert(
                name@,
                GlobalView::Variable {
                    addr: old(self).globals()[name@].addr()@,
                    initializer: *old(self).globals()[name@]->initializer,
                    initialized: true,
                },
            ),
    {
        let found = match self.allocated_globals.get(name) {
            Some(GlobalAllocation::GlobalVariable { addr, initializer, .. }) => Some(
                (addr.clone(), *initializer),
            ),
            _ => None,
        };
        proof {
            assert(self.allocated_globals@.contains_key(name@));
        }
        match found {
            Some((addr, initializer)) => {
                self.allocated_globals.insert(
                    name.clone(),
                    GlobalAllocation::GlobalVariable { addr, initializer, initialized: true },
                );
                proof {
                    assert(self.globals().dom() =~= old(self).globals().dom());
                    assert(self.global_views() =~= old(self).global_views().insert(
                        name@,
                        GlobalView::Variable {
                            addr: old(self).globals()[name@].addr()@,
                            initializer: *old(self).globals()[name@]->initializer,
                            initialized: true,
                        },
                    ));
                }
            },
            None => {},
        }
    }
}

} // verus!
