pub mod allocator;
pub mod bits;
pub mod bv;
pub mod config;
pub mod const_eval;
pub mod default_hooks;
pub mod error;
pub mod global_allocations;
pub mod ir;
pub mod layout;
pub mod location;
pub mod memory;
pub mod memory_laws;
pub mod smt;
pub mod solver;
pub mod state;
pub mod table;
pub mod term;
pub mod text;
pub mod varmap;
pub mod watchpoints;
