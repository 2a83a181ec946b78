//! What an execution state is configured with.

use crate::watchpoints::Watchpoint;
use vstd::prelude::*;

verus! {

/// The routine that stands for a hooked function.
#[derive(Debug, Clone, Copy, PartialEq, Eq, Structural)]
pub enum Hook {
    Malloc,
    Calloc,
    Realloc,
    Free,
    /// A routine of the caller's own, by a number of the caller's choice.
    Custom(usize),
}

/// The hooks, by the name of the function each stands for. The first hook
/// of a name is the active one.
pub struct FunctionHooks {
    hooks: Vec<(String, Hook)>,
}

impl FunctionHooks {
    /// The hooks in order, with the names of the functions they stand for.
    pub closed spec fn view(&self) -> Seq<(Seq<char>, Hook)> {
        Seq::new(self.hooks@.len(), |k: int| (self.hooks@[k].0@, self.hooks@[k].1))
    }

    /// No hooks.
    pub fn new() -> (r: FunctionHooks)
        ensures
            r@ == Seq::<(Seq<char>, Hook)>::empty(),
    {
        let r = FunctionHooks { hooks: Vec::new() };
        assert(r@ =~= Seq::<(Seq<char>, Hook)>::empty());
        r
    }

    /// Adds a hook for the function of a name, after those that are there.
    pub fn add(&mut self, name: String, hook: Hook)
        ensures
            final(self)@ == old(self)@.push((name@, hook)),
    {
        self.hooks.push((name, hook));
        assert(self@ =~= old(self)@.push((name@, hook)));
    }

    /// The number of hooks.
    pub fn len(&self) -> (r: usize)
        ensures
            r == self@.len(),
    {
        self.hooks.len()
    }

    /// The hook at a position, with the name of the function it stands for.
    pub fn get(&self, at: usize) -> (r: (&String, Hook))
        requires
            at < self@.len(),
        ensures
            (r.0@, r.1) == self@[at as int],
    {
        (&self.hooks[at].0, self.hooks[at].1)
    }

    /// The hooks that are active by default: for `malloc`, `calloc`,
    /// `realloc` and `free`.
    pub fn with_defaults() -> (r: FunctionHooks)
        ensures
            r@ == seq![
                ("malloc"@, Hook::Malloc),
                ("calloc"@, Hook::Calloc),
                ("realloc"@, Hook::Realloc),
                ("free"@, Hook::Free),
            ],
    {
        let mut r = FunctionHooks::new();
        r.add("malloc".to_owned(), Hook::Malloc);
        r.add("calloc".to_owned(), Hook::Calloc);
        r.add("realloc".to_owned(), Hook::Realloc);
        r.add("free".to_owned(), Hook::Free);
        assert(r@ =~= seq![
            ("malloc"@, Hook::Malloc),
            ("calloc"@, Hook::Calloc),
            ("realloc"@, Hook::Realloc),
            ("free"@, Hook::Free),
        ]);
        r
    }

    /// The active hook for the function of a name: the first of that name.
    pub fn get_hook_for(&self, name: &str) -> (r: Option<Hook>)
        ensures
            match r {
                Some(h) => exists|k: int|
                    0 <= k < self@.len() && #[trigger] self@[k] == (name@, h) && forall|m: int|
                        0 <= m < k ==> (#[trigger] self@[m]).0 != name@,
                None => forall|k: int| 0 <= k < self@.len() ==> (#[trigger] self@[k]).0 != name@,
            },
    {
        let wanted = name.to_owned();
        let mut k: usize = 0;
        while k < self.hooks.len()
            invariant
                wanted@ == name@,
                0 <= k <= self.hooks@.len(),
                forall|m: int| 0 <= m < k ==> (#[trigger] self@[m]).0 != name@,
            decreases self.hooks@.len() - k,
        {
            if self.hooks[k].0 == wanted {
                assert(self@[k as int] == (name@, self.hooks@[k as int].1));
                return Some(self.hooks[k].1);
            }
            k = k + 1;
        }
        None
    }

    /// Hooks of their own that are the same.
    pub fn duplicate(&self) -> (r: FunctionHooks)
        ensures
            r@ == self@,
    {
        let mut hooks: Vec<(String, Hook)> = Vec::new();
        let mut k: usize = 0;
        while k < self.hooks.len()
            invariant
                0 <= k <= self.hooks@.len(),
                hooks@.len() == k,
                forall|m: int|
                    0 <= m < k ==> (#[trigger] hooks@[m]).0@ == self.hooks@[m].0@ && hooks@[m].1
                        == self.hooks@[m].1,
            decreases self.hooks@.len() - k,
        {
            hooks.push((self.hooks[k].0.clone(), self.hooks[k].1));
            k = k + 1;
        }
        let r = FunctionHooks { hooks };
        assert(r@ =~= self@);
        r
    }
}

/// The configuration of an execution state.
pub struct Config {
    /// The greatest number of versions that a name may get.
    pub loop_bound: usize,
    /// Whether memory starts out as all zero, and not as unknown.
    pub zero_initialized_memory: bool,
    /// The hooks that stand for functions.
    pub function_hooks: FunctionHooks,
    /// The watchpoints that are there from the start, all enabled.
    pub initial_mem_watchpoints: Vec<(String, Watchpoint)>,
}

impl Config {
    /// The watchpoints that are there from the start, by name.
    pub open spec fn watchpoint_views(&self) -> Seq<(Seq<char>, Watchpoint)> {
        Seq::new(
            self.initial_mem_watchpoints@.len(),
            |k: int| (self.initial_mem_watchpoints@[k].0@, self.initial_mem_watchpoints@[k].1),
        )
    }

    /// A configuration of its own that is the same.
    pub fn duplicate(&self) -> (r: Config)
        ensures
            r.loop_bound == self.loop_bound,
            r.zero_initialized_memory == self.zero_initialized_memory,
            r.function_hooks@ == self.function_hooks@,
            r.watchpoint_views() == self.watchpoint_views(),
    {
        let mut watchpoints: Vec<(String, Watchpoint)> = Vec::new();
        let mut k: usize = 0;
        while k < self.initial_mem_watchpoints.len()
            invariant
                0 <= k <= self.initial_mem_watchpoints@.len(),
                watchpoints@.len() == k,
                forall|m: int|
                    0 <= m < k ==> (#[trigger] watchpoints@[m]).0@
                        == self.initial_mem_watchpoints@[m].0@ && watchpoints@[m].1
                        == self.initial_mem_watchpoints@[m].1,
            decreases self.initial_mem_watchpoints@.len() - k,
        {
            watchpoints.push(
                (self.initial_mem_watchpoints[k].0.clone(), self.initial_mem_watchpoints[k].1),
            );
            k = k + 1;
        }
        let r = Config {
            loop_bound: self.loop_bound,
            zero_initialized_memory: self.zero_initialized_memory,
            function_hooks: self.function_hooks.duplicate(),
            initial_mem_watchpoints: watchpoints,
        };
        assert(r.watchpoint_views() =~= self.watchpoint_views());
        r
    }
}

impl Default for Config {
    /// Ten versions of a name at most, unknown memory, the default hooks and
    /// no watchpoints.
    fn default() -> (r: Config)
        ensures
            r.loop_bound == 10,
            !r.zero_initialized_memory,
            r.function_hooks@ == seq![
                ("malloc"@, Hook::Malloc),
                ("calloc"@, Hook::Calloc),
                ("realloc"@, Hook::Realloc),
                ("free"@, Hook::Free),
            ],
            r.initial_mem_watchpoints@.len() == 0,
    {
        Config {
            loop_bound: 10,
            zero_initialized_memory: false,
            function_hooks: FunctionHooks::with_defaults(),
            initial_mem_watchpoints: Vec::new(),
        }
    }
}

} // verus!
