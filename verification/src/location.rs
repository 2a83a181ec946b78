//! Places in the program, and the record of the places an execution went
//! through.

use crate::ir::{Function, Module, Name, NameView};
use vstd::prelude::*;
use vstd::std_specs::cmp::PartialEqSpecImpl;
use vstd::std_specs::convert::FromSpecImpl;

verus! {

/// A place in the program: an instruction of a block of a function of a
/// module.
pub struct Location<'p> {
    pub module: &'p Module,
    pub func: &'p Function,
    pub bbname: Name,
    /// The index of the instruction within the block, from zero.
    pub instr: usize,
}

/// A place in the program, as a value of specifications.
pub struct LocationView {
    pub module: Module,
    pub func: Function,
    pub bbname: NameView,
    pub instr: usize,
}

impl<'p> View for Location<'p> {
    type V = LocationView;

    open spec fn view(&self) -> LocationView {
        LocationView {
            module: *self.module,
            func: *self.func,
            bbname: self.bbname@,
            instr: self.instr,
        }
    }
}

impl<'p> Clone for Location<'p> {
    fn clone(&self) -> (r: Self)
        ensures
            r@ == self@,
    {
        Location {
            module: self.module,
            func: self.func,
            bbname: self.bbname.clone(),
            instr: self.instr,
        }
    }
}

impl LocationView {
    /// Whether two places are the same: by the names of module and
    /// function, the name of the block and the index.
    pub open spec fn same_place(self, other: LocationView) -> bool {
        &&& self.module.name@ == other.module.name@
        &&& self.func.name@ == other.func.name@
        &&& self.bbname == other.bbname
        &&& self.instr == other.instr
    }
}

impl<'p> PartialEq for Location<'p> {
    fn eq(&self, other: &Self) -> (r: bool) {
        self.module.name == other.module.name && self.func.name == other.func.name
            && self.bbname.same(&other.bbname) && self.instr == other.instr
    }
}

impl<'p> PartialEqSpecImpl for Location<'p> {
    open spec fn obeys_eq_spec() -> bool {
        true
    }

    open spec fn eq_spec(&self, other: &Self) -> bool {
        self@.same_place(other@)
    }
}

impl<'p> Eq for Location<'p> {

}

/// One step of the path of an execution: where it entered a block.
#[derive(Debug, PartialEq, Eq, PartialOrd, Ord, Hash)]
pub struct PathEntry {
    pub modname: String,
    pub funcname: String,
    pub bbname: Name,
    /// The index of the instruction within the block at which execution
    /// started.
    pub instr: usize,
}

/// A step of a path, as a value of specifications.
pub struct PathEntryView {
    pub modname: Seq<char>,
    pub funcname: Seq<char>,
    pub bbname: NameView,
    pub instr: usize,
}

impl View for PathEntry {
    type V = PathEntryView;

    open spec fn view(&self) -> PathEntryView {
        PathEntryView {
            modname: self.modname@,
            funcname: self.funcname@,
            bbname: self.bbname@,
            instr: self.instr,
        }
    }
}

impl Clone for PathEntry {
    fn clone(&self) -> (r: Self)
        ensures
            r@ == self@,
    {
        PathEntry {
            modname: self.modname.clone(),
            funcname: self.funcname.clone(),
            bbname: self.bbname.clone(),
            instr: self.instr,
        }
    }
}

/// The step of a path that a place stands for.
pub open spec fn entry_of(loc: LocationView) -> PathEntryView {
    PathEntryView {
        modname: loc.module.name@,
        funcname: loc.func.name@,
        bbname: loc.bbname,
        instr: loc.instr,
    }
}

impl<'p> From<Location<'p>> for PathEntry {
    /// The step of a path that a place stands for.
    fn from(loc: Location<'p>) -> (r: PathEntry) {
        PathEntry {
            modname: loc.module.name.clone(),
            funcname: loc.func.name.clone(),
            bbname: loc.bbname,
            instr: loc.instr,
        }
    }
}

impl<'p> FromSpecImpl<Location<'p>> for PathEntry {
    open spec fn obeys_from_spec() -> bool {
        true
    }

    open spec fn from_spec(loc: Location<'p>) -> PathEntry {
        PathEntry {
            modname: loc.module.name,
            funcname: loc.func.name,
            bbname: loc.bbname,
            instr: loc.instr,
        }
    }
}

impl PathEntry {
    /// The step of a path that a place stands for.
    pub fn from_location(loc: &Location) -> (r: PathEntry)
        ensures
            r@ == entry_of(loc@),
    {
        PathEntry {
            modname: loc.module.name.clone(),
            funcname: loc.func.name.clone(),
            bbname: loc.bbname.clone(),
            instr: loc.instr,
        }
    }
}

} // verus!
