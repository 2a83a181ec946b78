//! The parts of a program in SSA form that the execution state reads:
//! names, types, constants, operands, and the modules that hold them.

use crate::term::BinOp;
use vstd::prelude::*;

verus! {

/// The name of a value, a block or a global: a string or a number.
#[derive(Debug, PartialEq, Eq, Hash, PartialOrd, Ord)]
pub enum Name {
    Name(String),
    Number(usize),
}

/// A name as a value of specifications.
pub enum NameView {
    Name(Seq<char>),
    Number(usize),
}

impl View for Name {
    type V = NameView;

    open spec fn view(&self) -> NameView {
        match self {
            Name::Name(s) => NameView::Name(s@),
            Name::Number(n) => NameView::Number(*n),
        }
    }
}

impl Clone for Name {
    fn clone(&self) -> (r: Self)
        ensures
            r@ == self@,
    {
        match self {
            Name::Name(s) => Name::Name(s.clone()),
            Name::Number(n) => Name::Number(*n),
        }
    }
}

impl Name {
    /// Whether two names are the same.
    pub fn same(&self, other: &Name) -> (r: bool)
        ensures
            r == (self@ == other@),
    {
        match (self, other) {
            (Name::Name(a), Name::Name(b)) => *a == *b,
            (Name::Number(a), Name::Number(b)) => *a == *b,
            _ => false,
        }
    }

    /// The name that is the given string.
    pub fn from_str(s: &str) -> (r: Name)
        ensures
            r@ == NameView::Name(s@),
    {
        Name::Name(s.to_owned())
    }
}

/// The type of a value.
#[derive(Debug, PartialEq, Eq)]
#[allow(inconsistent_fields)]
pub enum Type {
    Void,
    /// An integer of `bits` bits.
    Integer { bits: u32 },
    Pointer { pointee: Box<Type> },
    Array { element: Box<Type>, num_elements: usize },
    Vector { element: Box<Type>, num_elements: usize },
    /// A struct; its fields lie one after the other.
    Struct { elements: Vec<Type>, is_packed: bool },
    /// A struct known by name, with its definition unless it is opaque.
    NamedStruct { name: String, ty: Option<Box<Type>> },
    /// Any other type: its size is not known here.
    Other,
}

/// The predicate of an integer comparison.
#[derive(Debug, Clone, Copy, PartialEq, Eq, Structural)]
pub enum IntPredicate {
    EQ,
    NE,
    UGT,
    UGE,
    ULT,
    ULE,
    SGT,
    SGE,
    SLT,
    SLE,
}

/// The kind of a conversion between types.
#[derive(Debug, Clone, Copy, PartialEq, Eq, Structural)]
pub enum CastOp {
    Trunc,
    ZExt,
    SExt,
    PtrToInt,
    IntToPtr,
    BitCast,
    AddrSpaceCast,
}

/// A constant of the program.
#[derive(Debug, PartialEq, Eq)]
#[allow(inconsistent_fields)]
pub enum Constant {
    Int { bits: u32, value: u64 },
    Null(Type),
    AggregateZero(Type),
    Undef(Type),
    Struct { name: Option<String>, values: Vec<Constant>, is_packed: bool },
    Array { element_type: Type, elements: Vec<Constant> },
    Vector(Vec<Constant>),
    GlobalReference { name: Name, ty: Type },
    Binary { op: BinOp, operand0: Box<Constant>, operand1: Box<Constant> },
    ExtractElement { vector: Box<Constant>, index: Box<Constant> },
    InsertElement { vector: Box<Constant>, element: Box<Constant>, index: Box<Constant> },
    ExtractValue { aggregate: Box<Constant>, indices: Vec<u32> },
    InsertValue { aggregate: Box<Constant>, element: Box<Constant>, indices: Vec<u32> },
    /// An address computed from `address`, whose type is `address_type`.
    GetElementPtr { address: Box<Constant>, address_type: Type, indices: Vec<Constant>, in_bounds: bool },
    Cast { op: CastOp, operand: Box<Constant>, to_type: Type },
    ICmp { predicate: IntPredicate, operand0: Box<Constant>, operand1: Box<Constant> },
    Select { condition: Box<Constant>, true_value: Box<Constant>, false_value: Box<Constant> },
}

/// An operand of an instruction.
#[derive(Debug, PartialEq, Eq)]
pub enum Operand {
    LocalOperand { name: Name, ty: Type },
    ConstantOperand(Constant),
    MetadataOperand,
}

/// A function of a module.
#[derive(Debug, Clone, PartialEq, Eq)]
pub struct Function {
    pub name: String,
}

/// A global variable: a definition where it has an initializer, else a
/// declaration.
#[derive(Debug, PartialEq, Eq)]
pub struct GlobalVariable {
    pub name: Name,
    pub ty: Type,
    pub initializer: Option<Constant>,
}

/// Another name for a constant.
#[derive(Debug, PartialEq, Eq)]
pub struct GlobalAlias {
    pub name: Name,
    pub aliasee: Constant,
}

/// A module of the program.
#[derive(Debug, PartialEq, Eq)]
pub struct Module {
    pub name: String,
    pub functions: Vec<Function>,
    pub global_vars: Vec<GlobalVariable>,
    pub global_aliases: Vec<GlobalAlias>,
}

/// The program under analysis: its modules.
#[derive(Debug, PartialEq, Eq)]
pub struct Project {
    pub modules: Vec<Module>,
}

/// A call instruction, as far as a hook reads it: the arguments with their
/// types, and the type of the result.
#[derive(Debug, PartialEq, Eq)]
pub struct Call {
    pub arguments: Vec<(Operand, Type)>,
    pub return_type: Type,
}

impl Function {
    /// A function with the given name.
    pub fn new(name: &str) -> (r: Function)
        ensures
            r.name@ == name@,
    {
        Function { name: name.to_owned() }
    }
}

impl Project {
    /// The project that consists of one module.
    pub fn from_module(module: Module) -> (r: Project)
        ensures
            r.modules@ == seq![module],
    {
        let mut modules = Vec::new();
        modules.push(module);
        Project { modules }
    }

    /// The first function of that name, with its module, searching the
    /// modules in order.
    pub fn get_func_by_name<'p>(&'p self, name: &str) -> (r: Option<(&'p Function, &'p Module)>)
        ensures
            match r {
                Some((f, m)) => exists|i: int, j: int|
                    0 <= i < self.modules@.len() && 0 <= j < self.modules@[i].functions@.len()
                        && *m == self.modules@[i] && *f == #[trigger] self.modules@[i].functions@[j]
                        && f.name@ == name@,
                None => forall|i: int, j: int|
                    0 <= i < self.modules@.len() && 0 <= j < self.modules@[i].functions@.len()
                        ==> (#[trigger] self.modules@[i].functions@[j]).name@ != name@,
            },
    {
        let wanted: String = name.to_owned();
        let mut i: usize = 0;
        while i < self.modules.len()
            invariant
                wanted@ == name@,
                0 <= i <= self.modules@.len(),
                forall|a: int, b: int|
                    0 <= a < i && 0 <= b < self.modules@[a].functions@.len() ==> (
                    #[trigger] self.modules@[a].functions@[b]).name@ != name@,
            decreases self.modules@.len() - i,
        {
            let module = &self.modules[i];
            let mut j: usize = 0;
            while j < module.functions.len()
                invariant
                    wanted@ == name@,
                    0 <= i < self.modules@.len(),
                    *module == self.modules@[i as int],
                    0 <= j <= module.functions@.len(),
                    forall|b: int| 0 <= b < j ==> (#[trigger] module.functions@[b]).name@ != name@,
                decreases module.functions@.len() - j,
            {
                let f = &module.functions[j];
                if f.name == wanted {
                    return Some((f, module));
                }
                j = j + 1;
            }
            i = i + 1;
        }
        None
    }
}

} // verus!
