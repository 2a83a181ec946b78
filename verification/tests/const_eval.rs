use symstate::bv::BitVec;
use symstate::config::Config;
use symstate::error::Error;
use symstate::ir::{
    CastOp, Constant, Function, GlobalAlias, GlobalVariable, IntPredicate, Module, Name, Operand,
    Project, Type,
};
use symstate::location::Location;
use symstate::state::{simplify_const_ev, State};
use symstate::term::BinOp;
use symstate::solver::new_context;

fn project_with(globals: Vec<GlobalVariable>, aliases: Vec<GlobalAlias>) -> Project {
    Project::from_module(Module {
        name: "m".to_owned(),
        functions: vec![Function::new("f"), Function::new("g")],
        global_vars: globals,
        global_aliases: aliases,
    })
}

fn state_of<'p, 'ctx>(ctx: &'ctx z3::Context, project: &'p Project) -> State<'p, 'ctx> {
    let (func, module) = project.get_func_by_name("f").unwrap();
    let loc = Location {
        module,
        func,
        bbname: Name::Number(0),
        instr: 0,
    };
    State::new(ctx, project, loc, Config::default()).unwrap()
}

fn value<'p, 'ctx>(state: &mut State<'p, 'ctx>, bv: &BitVec<'ctx>) -> u64 {
    state
        .get_a_solution_for_bv(bv)
        .unwrap()
        .unwrap()
        .as_u64()
        .unwrap()
}

fn num(bits: u32, value: u64) -> Constant {
    Constant::Int { bits, value }
}

fn bin(op: BinOp, bits: u32, a: u64, b: u64) -> Constant {
    Constant::Binary {
        op,
        operand0: Box::new(num(bits, a)),
        operand1: Box::new(num(bits, b)),
    }
}

fn eval(c: &Constant) -> Result<(u64, u32), Error> {
    let ctx = new_context();
    let project = project_with(vec![], vec![]);
    let mut state = state_of(&ctx, &project);
    let bv = state.const_to_bv(c)?;
    Ok((value(&mut state, &bv), bv.get_width()))
}

fn i8_type() -> Type {
    Type::Integer { bits: 8 }
}

fn pointer_to(t: Type) -> Type {
    Type::Pointer {
        pointee: Box::new(t),
    }
}

#[test]
fn integer_constants_keep_their_low_bits() {
    assert_eq!(eval(&num(64, 3)), Ok((3, 64)));
    assert_eq!(eval(&num(8, 0x1FF)), Ok((0xFF, 8)));
    assert_eq!(eval(&num(1, 1)), Ok((1, 1)));
    assert!(matches!(
        eval(&num(0, 1)),
        Err(Error::MalformedInstruction(_))
    ));
}

#[test]
fn arithmetic_on_constants() {
    assert_eq!(eval(&bin(BinOp::Add, 8, 200, 100)), Ok((44, 8)));
    assert_eq!(eval(&bin(BinOp::Sub, 8, 3, 5)), Ok((254, 8)));
    assert_eq!(eval(&bin(BinOp::Mul, 8, 20, 13)), Ok((4, 8)));
    assert_eq!(eval(&bin(BinOp::UDiv, 8, 200, 7)), Ok((28, 8)));
    assert_eq!(eval(&bin(BinOp::URem, 8, 200, 7)), Ok((4, 8)));
    // -56 / 7 == -8 and -56 % 7 == 0; -57 % 7 == -1
    assert_eq!(eval(&bin(BinOp::SDiv, 8, 200, 7)), Ok((248, 8)));
    assert_eq!(eval(&bin(BinOp::SRem, 8, 199, 7)), Ok((255, 8)));
    // 57 / -7 == -8 towards zero, 57 % -7 == 1
    assert_eq!(eval(&bin(BinOp::SDiv, 8, 57, 249)), Ok((248, 8)));
    assert_eq!(eval(&bin(BinOp::SRem, 8, 57, 249)), Ok((1, 8)));
}

#[test]
fn division_by_zero_has_a_value() {
    // which value is the solver's choice; it has the width of the operands
    // and is the same for the same operator and dividend
    for op in [BinOp::UDiv, BinOp::URem, BinOp::SDiv, BinOp::SRem] {
        for dividend in [5, 250] {
            let first = eval(&bin(op, 8, dividend, 0)).unwrap();
            let second = eval(&bin(op, 8, dividend, 0)).unwrap();
            assert_eq!(first.1, 8);
            assert!(first.0 < 256);
            assert_eq!(first, second);
        }
    }
}

#[test]
fn bitwise_operations_and_shifts_on_constants() {
    assert_eq!(eval(&bin(BinOp::And, 8, 0b1100, 0b1010)), Ok((0b1000, 8)));
    assert_eq!(eval(&bin(BinOp::Or, 8, 0b1100, 0b1010)), Ok((0b1110, 8)));
    assert_eq!(eval(&bin(BinOp::Xor, 8, 0b1100, 0b1010)), Ok((0b0110, 8)));
    assert_eq!(eval(&bin(BinOp::Shl, 8, 0b1000_0011, 1)), Ok((0b0000_0110, 8)));
    assert_eq!(eval(&bin(BinOp::Shl, 8, 0xFF, 8)), Ok((0, 8)));
    assert_eq!(eval(&bin(BinOp::LShr, 8, 0b1000_0011, 1)), Ok((0b0100_0001, 8)));
    assert_eq!(eval(&bin(BinOp::AShr, 8, 0b1000_0011, 1)), Ok((0b1100_0001, 8)));
    assert_eq!(eval(&bin(BinOp::AShr, 8, 0b0100_0011, 1)), Ok((0b0010_0001, 8)));
    assert_eq!(eval(&bin(BinOp::AShr, 8, 0x80, 200)), Ok((0xFF, 8)));
}

#[test]
fn operands_of_different_widths_are_malformed() {
    let c = Constant::Binary {
        op: BinOp::Add,
        operand0: Box::new(num(8, 1)),
        operand1: Box::new(num(16, 1)),
    };
    assert!(matches!(eval(&c), Err(Error::MalformedInstruction(_))));
}

fn icmp(predicate: IntPredicate, a: u64, b: u64) -> Constant {
    Constant::ICmp {
        predicate,
        operand0: Box::new(num(8, a)),
        operand1: Box::new(num(8, b)),
    }
}

#[test]
fn comparisons_give_one_bit() {
    // 200 is -56 as a signed byte
    assert_eq!(eval(&icmp(IntPredicate::EQ, 5, 5)), Ok((1, 1)));
    assert_eq!(eval(&icmp(IntPredicate::EQ, 5, 6)), Ok((0, 1)));
    assert_eq!(eval(&icmp(IntPredicate::NE, 5, 5)), Ok((0, 1)));
    assert_eq!(eval(&icmp(IntPredicate::NE, 5, 6)), Ok((1, 1)));
    assert_eq!(eval(&icmp(IntPredicate::UGT, 200, 5)), Ok((1, 1)));
    assert_eq!(eval(&icmp(IntPredicate::SGT, 200, 5)), Ok((0, 1)));
    assert_eq!(eval(&icmp(IntPredicate::UGE, 5, 5)), Ok((1, 1)));
    assert_eq!(eval(&icmp(IntPredicate::UGE, 4, 5)), Ok((0, 1)));
    assert_eq!(eval(&icmp(IntPredicate::SGE, 200, 200)), Ok((1, 1)));
    assert_eq!(eval(&icmp(IntPredicate::SGE, 200, 5)), Ok((0, 1)));
    assert_eq!(eval(&icmp(IntPredicate::ULT, 5, 200)), Ok((1, 1)));
    assert_eq!(eval(&icmp(IntPredicate::SLT, 5, 200)), Ok((0, 1)));
    assert_eq!(eval(&icmp(IntPredicate::SLT, 200, 5)), Ok((1, 1)));
    assert_eq!(eval(&icmp(IntPredicate::ULE, 5, 5)), Ok((1, 1)));
    assert_eq!(eval(&icmp(IntPredicate::ULE, 6, 5)), Ok((0, 1)));
    assert_eq!(eval(&icmp(IntPredicate::SLE, 200, 5)), Ok((1, 1)));
    assert_eq!(eval(&icmp(IntPredicate::SLE, 5, 200)), Ok((0, 1)));
}

fn cast(op: CastOp, operand: Constant, to: Type) -> Constant {
    Constant::Cast {
        op,
        operand: Box::new(operand),
        to_type: to,
    }
}

#[test]
fn casts_cut_widen_or_keep() {
    assert_eq!(
        eval(&cast(CastOp::Trunc, num(16, 0x1234), i8_type())),
        Ok((0x34, 8))
    );
    assert_eq!(
        eval(&cast(CastOp::ZExt, num(8, 0x80), Type::Integer { bits: 16 })),
        Ok((0x0080, 16))
    );
    assert_eq!(
        eval(&cast(CastOp::SExt, num(8, 0x80), Type::Integer { bits: 16 })),
        Ok((0xFF80, 16))
    );
    assert_eq!(
        eval(&cast(CastOp::SExt, num(8, 0x7F), Type::Integer { bits: 16 })),
        Ok((0x007F, 16))
    );
    assert_eq!(
        eval(&cast(CastOp::ZExt, num(8, 0x80), i8_type())),
        Ok((0x80, 8))
    );
    assert_eq!(
        eval(&cast(CastOp::PtrToInt, num(64, 77), Type::Integer { bits: 64 })),
        Ok((77, 64))
    );
    assert_eq!(
        eval(&cast(CastOp::IntToPtr, num(64, 77), pointer_to(i8_type()))),
        Ok((77, 64))
    );
    assert_eq!(
        eval(&cast(CastOp::BitCast, num(64, 77), pointer_to(Type::Void))),
        Ok((77, 64))
    );
    assert_eq!(
        eval(&cast(
            CastOp::AddrSpaceCast,
            num(64, 77),
            pointer_to(i8_type())
        )),
        Ok((77, 64))
    );
}

#[test]
fn casts_of_the_wrong_size_are_malformed() {
    let bad = vec![
        cast(CastOp::Trunc, num(8, 1), Type::Integer { bits: 16 }),
        cast(CastOp::ZExt, num(16, 1), i8_type()),
        cast(CastOp::SExt, num(16, 1), i8_type()),
        cast(CastOp::BitCast, num(32, 1), pointer_to(i8_type())),
        cast(CastOp::PtrToInt, num(64, 1), Type::Integer { bits: 32 }),
        cast(CastOp::ZExt, num(16, 1), Type::Other),
    ];
    for c in &bad {
        assert!(matches!(eval(c), Err(Error::MalformedInstruction(_))));
    }
}

#[test]
fn zero_values_have_the_size_of_their_type() {
    let pair = Type::Struct {
        elements: vec![i8_type(), Type::Integer { bits: 32 }],
        is_packed: false,
    };
    assert_eq!(eval(&Constant::Null(pointer_to(i8_type()))), Ok((0, 64)));
    assert_eq!(eval(&Constant::AggregateZero(pair)), Ok((0, 40)));
    assert_eq!(
        eval(&Constant::Undef(Type::Array {
            element: Box::new(i8_type()),
            num_elements: 3
        })),
        Ok((0, 24))
    );
    assert!(matches!(
        eval(&Constant::Undef(Type::Other)),
        Err(Error::MalformedInstruction(_))
    ));
    assert!(matches!(
        eval(&Constant::AggregateZero(Type::Struct {
            elements: vec![],
            is_packed: false
        })),
        Err(Error::MalformedInstruction(_))
    ));
}

#[test]
fn aggregates_hold_their_first_element_lowest() {
    let s = Constant::Struct {
        name: None,
        values: vec![num(8, 0x11), num(16, 0x3322), num(8, 0x44)],
        is_packed: false,
    };
    assert_eq!(eval(&s), Ok((0x44332211, 32)));
    let a = Constant::Array {
        element_type: i8_type(),
        elements: vec![num(8, 1), num(8, 2)],
    };
    assert_eq!(eval(&a), Ok((0x0201, 16)));
    let v = Constant::Vector(vec![num(4, 0xA), num(4, 0xB), num(4, 0xC)]);
    assert_eq!(eval(&v), Ok((0xCBA, 12)));
    assert_eq!(eval(&Constant::Vector(vec![num(4, 0xA)])), Ok((0xA, 4)));
}

#[test]
fn aggregates_without_elements_are_malformed() {
    assert!(matches!(
        eval(&Constant::Vector(vec![])),
        Err(Error::MalformedInstruction(_))
    ));
}

#[test]
fn the_last_failing_element_gives_the_error() {
    let missing = Constant::GlobalReference {
        name: Name::from_str("nowhere"),
        ty: pointer_to(i8_type()),
    };
    let v = Constant::Vector(vec![num(0, 1), num(8, 1), missing]);
    assert!(matches!(eval(&v), Err(Error::OtherError(_))));
    let missing = Constant::GlobalReference {
        name: Name::from_str("nowhere"),
        ty: pointer_to(i8_type()),
    };
    let v = Constant::Vector(vec![missing, num(8, 1), num(0, 1), num(8, 1)]);
    assert!(matches!(eval(&v), Err(Error::MalformedInstruction(_))));
}

#[test]
fn elements_of_vectors_are_picked_and_replaced() {
    let vector = || Box::new(Constant::Vector(vec![num(8, 1), num(8, 2), num(8, 3)]));
    let pick = Constant::ExtractElement {
        vector: vector(),
        index: Box::new(num(32, 2)),
    };
    assert_eq!(eval(&pick), Ok((3, 8)));
    let put = Constant::InsertElement {
        vector: vector(),
        element: Box::new(num(8, 9)),
        index: Box::new(num(32, 1)),
    };
    assert_eq!(eval(&put), Ok((0x030901, 24)));
    let out_of_range = Constant::ExtractElement {
        vector: vector(),
        index: Box::new(num(32, 3)),
    };
    assert!(matches!(
        eval(&out_of_range),
        Err(Error::MalformedInstruction(_))
    ));
    let out_of_range = Constant::InsertElement {
        vector: vector(),
        element: Box::new(num(8, 9)),
        index: Box::new(num(32, 3)),
    };
    assert!(matches!(
        eval(&out_of_range),
        Err(Error::MalformedInstruction(_))
    ));
    let no_vector = Constant::ExtractElement {
        vector: Box::new(num(8, 1)),
        index: Box::new(num(32, 0)),
    };
    assert!(matches!(
        eval(&no_vector),
        Err(Error::MalformedInstruction(_))
    ));
    let no_index = Constant::ExtractElement {
        vector: vector(),
        index: Box::new(Constant::Null(i8_type())),
    };
    assert!(matches!(
        eval(&no_index),
        Err(Error::MalformedInstruction(_))
    ));
}

fn nested() -> Constant {
    Constant::Struct {
        name: None,
        values: vec![
            num(8, 0x11),
            Constant::Struct {
                name: None,
                values: vec![num(8, 0x22), num(16, 0x4433)],
                is_packed: false,
            },
            num(8, 0x55),
        ],
        is_packed: false,
    }
}

#[test]
fn values_of_structs_are_picked_and_replaced() {
    assert_eq!(eval(&nested()), Ok((0x5544332211, 40)));
    let pick = Constant::ExtractValue {
        aggregate: Box::new(nested()),
        indices: vec![1, 1],
    };
    assert_eq!(eval(&pick), Ok((0x4433, 16)));
    let pick_all = Constant::ExtractValue {
        aggregate: Box::new(nested()),
        indices: vec![],
    };
    assert_eq!(eval(&pick_all), Ok((0x5544332211, 40)));
    let put = Constant::InsertValue {
        aggregate: Box::new(nested()),
        element: Box::new(num(16, 0xBBAA)),
        indices: vec![1, 1],
    };
    assert_eq!(eval(&put), Ok((0x55BBAA2211, 40)));
    let put_first = Constant::InsertValue {
        aggregate: Box::new(nested()),
        element: Box::new(num(8, 0xEE)),
        indices: vec![0],
    };
    assert_eq!(eval(&put_first), Ok((0x55443322EE, 40)));
    let put_whole = Constant::InsertValue {
        aggregate: Box::new(nested()),
        element: Box::new(num(8, 0xEE)),
        indices: vec![],
    };
    assert_eq!(eval(&put_whole), Ok((0xEE, 8)));
}

#[test]
fn paths_that_lead_nowhere_are_malformed() {
    for indices in vec![vec![3], vec![1, 2], vec![0, 0]] {
        let pick = Constant::ExtractValue {
            aggregate: Box::new(nested()),
            indices: indices.clone(),
        };
        assert!(matches!(eval(&pick), Err(Error::MalformedInstruction(_))));
        let put = Constant::InsertValue {
            aggregate: Box::new(nested()),
            element: Box::new(num(8, 0)),
            indices,
        };
        assert!(matches!(eval(&put), Err(Error::MalformedInstruction(_))));
    }
    let c = nested();
    assert!(simplify_const_ev(&c, &vec![1, 0], 0).is_ok());
    assert!(simplify_const_ev(&c, &vec![9, 9, 1, 0], 2).is_ok());
    assert!(matches!(
        simplify_const_ev(&c, &vec![1, 5], 0),
        Err(Error::MalformedInstruction(_))
    ));
}

#[test]
fn select_needs_a_constant_condition() {
    let select = |condition: Constant| Constant::Select {
        condition: Box::new(condition),
        true_value: Box::new(num(8, 10)),
        false_value: Box::new(num(8, 20)),
    };
    assert_eq!(eval(&select(num(1, 1))), Ok((10, 8)));
    assert_eq!(eval(&select(num(1, 0))), Ok((20, 8)));
    assert!(matches!(
        eval(&select(num(8, 1))),
        Err(Error::MalformedInstruction(_))
    ));
    assert!(matches!(
        eval(&select(icmp(IntPredicate::EQ, 1, 1))),
        Err(Error::MalformedInstruction(_))
    ));
}

fn gep(address_type: Type, indices: Vec<Constant>) -> Constant {
    Constant::GetElementPtr {
        address: Box::new(num(64, 0x1000)),
        address_type,
        indices,
        in_bounds: true,
    }
}

#[test]
fn offsets_of_elements_add_up() {
    let inner = Type::Struct {
        elements: vec![
            Type::Integer { bits: 16 },
            Type::Array {
                element: Box::new(Type::Integer { bits: 32 }),
                num_elements: 4,
            },
            i8_type(),
        ],
        is_packed: false,
    };
    // no index: the address itself
    assert_eq!(eval(&gep(pointer_to(inner), vec![])), Ok((0x1000, 64)));
    let inner = || Type::Struct {
        elements: vec![
            Type::Integer { bits: 16 },
            Type::Array {
                element: Box::new(Type::Integer { bits: 32 }),
                num_elements: 4,
            },
            i8_type(),
        ],
        is_packed: false,
    };
    // the struct has 2 + 16 + 1 bytes
    assert_eq!(
        eval(&gep(pointer_to(inner()), vec![num(64, 2)])),
        Ok((0x1000 + 2 * 19, 64))
    );
    assert_eq!(
        eval(&gep(pointer_to(inner()), vec![num(64, 1), num(32, 1)])),
        Ok((0x1000 + 19 + 2, 64))
    );
    assert_eq!(
        eval(&gep(
            pointer_to(inner()),
            vec![num(64, 1), num(32, 1), num(64, 3)]
        )),
        Ok((0x1000 + 19 + 2 + 12, 64))
    );
    assert_eq!(
        eval(&gep(pointer_to(inner()), vec![num(32, 0), num(32, 2)])),
        Ok((0x1000 + 18, 64))
    );
    let named = Type::NamedStruct {
        name: "pair".to_owned(),
        ty: Some(Box::new(inner())),
    };
    assert_eq!(
        eval(&gep(pointer_to(named), vec![num(64, 0), num(32, 2)])),
        Ok((0x1000 + 18, 64))
    );
}

#[test]
fn offsets_that_cannot_be_had_are_malformed() {
    let pair = || Type::Struct {
        elements: vec![i8_type(), i8_type()],
        is_packed: false,
    };
    let bad = vec![
        // a field that is not there
        gep(pointer_to(pair()), vec![num(64, 0), num(32, 2)]),
        // an index into a struct that is no integer constant
        gep(
            pointer_to(pair()),
            vec![num(64, 0), Constant::Null(Type::Integer { bits: 32 })],
        ),
        // elements of no whole number of bytes
        gep(pointer_to(Type::Integer { bits: 1 }), vec![num(64, 1)]),
        // elements of unknown size
        gep(pointer_to(Type::Other), vec![num(64, 1)]),
        // an opaque struct
        gep(
            pointer_to(Type::NamedStruct {
                name: "opaque".to_owned(),
                ty: None,
            }),
            vec![num(64, 0), num(32, 0)],
        ),
        // a type without elements
        gep(i8_type(), vec![num(64, 0)]),
        // an index wider than the address
        gep(pointer_to(i8_type()), vec![num(128, 0)]),
    ];
    for c in &bad {
        assert!(matches!(eval(c), Err(Error::MalformedInstruction(_))));
    }
}

fn global(name: &str, bits: u32, initializer: Option<Constant>) -> GlobalVariable {
    GlobalVariable {
        name: Name::from_str(name),
        ty: pointer_to(Type::Integer { bits }),
        initializer,
    }
}

fn reference(name: &str) -> Constant {
    Constant::GlobalReference {
        name: Name::from_str(name),
        ty: pointer_to(Type::Integer { bits: 64 }),
    }
}

#[test]
fn globals_are_initialized_when_first_referred_to() {
    let ctx = new_context();
    let project = project_with(
        vec![
            global("a", 32, Some(num(32, 0xAABBCCDD))),
            global("b", 16, Some(num(16, 0x1234))),
            global("declared", 16, None),
        ],
        vec![],
    );
    let mut state = state_of(&ctx, &project);
    let a = state.const_to_bv(&reference("a")).unwrap();
    let b = state.const_to_bv(&reference("b")).unwrap();
    let a_addr = value(&mut state, &a);
    let b_addr = value(&mut state, &b);
    assert_ne!(a_addr, b_addr);
    assert_eq!(a_addr % 8, 0);
    let a_value = state.read(&a, 32).unwrap();
    assert_eq!(value(&mut state, &a_value), 0xAABBCCDD);
    let b_value = state.read(&b, 16).unwrap();
    assert_eq!(value(&mut state, &b_value), 0x1234);
    // the address stays, and what was written since is not written over
    state.write(&a, BitVec::from_u64(&ctx, 7, 32)).unwrap();
    let again = state.const_to_bv(&reference("a")).unwrap();
    assert_eq!(value(&mut state, &again), a_addr);
    let a_value = state.read(&a, 32).unwrap();
    assert_eq!(value(&mut state, &a_value), 7);
    // a declaration has no address
    assert!(matches!(
        state.const_to_bv(&reference("declared")),
        Err(Error::OtherError(_))
    ));
}

#[test]
fn globals_may_hold_the_addresses_of_each_other() {
    let ctx = new_context();
    let project = project_with(
        vec![
            global("first", 64, Some(reference("second"))),
            global("second", 64, Some(reference("first"))),
        ],
        vec![],
    );
    let mut state = state_of(&ctx, &project);
    let first = state.const_to_bv(&reference("first")).unwrap();
    let second = state.const_to_bv(&reference("second")).unwrap();
    let in_first = state.read(&first, 64).unwrap();
    let in_second = state.read(&second, 64).unwrap();
    assert_eq!(value(&mut state, &in_first), value(&mut state, &second));
    assert_eq!(value(&mut state, &in_second), value(&mut state, &first));
}

#[test]
fn aliases_stand_for_their_constants() {
    let ctx = new_context();
    let project = project_with(
        vec![global("a", 8, Some(num(8, 0x5A)))],
        vec![
            GlobalAlias {
                name: Name::from_str("other_a"),
                aliasee: reference("a"),
            },
            GlobalAlias {
                name: Name::from_str("loop"),
                aliasee: reference("loop"),
            },
        ],
    );
    let mut state = state_of(&ctx, &project);
    let through = state.const_to_bv(&reference("other_a")).unwrap();
    let direct = state.const_to_bv(&reference("a")).unwrap();
    assert_eq!(value(&mut state, &through), value(&mut state, &direct));
    let held = state.read(&through, 8).unwrap();
    assert_eq!(value(&mut state, &held), 0x5A);
    // an alias of itself leads nowhere
    assert!(matches!(
        state.const_to_bv(&reference("loop")),
        Err(Error::MalformedInstruction(_))
    ));
}

#[test]
fn functions_have_addresses() {
    let ctx = new_context();
    let project = project_with(vec![global("a", 8, Some(num(8, 1)))], vec![]);
    let mut state = state_of(&ctx, &project);
    let f = state.const_to_bv(&reference("f")).unwrap();
    let g = state.const_to_bv(&reference("g")).unwrap();
    let f_ptr = state.get_pointer_to_function("f").unwrap().clone();
    assert!(f.is_same(&f_ptr));
    assert_ne!(value(&mut state, &f), value(&mut state, &g));
    assert!(state.get_pointer_to_function("nowhere").is_none());
}

#[test]
fn operands_are_constants_names_or_refused() {
    let ctx = new_context();
    let project = project_with(vec![], vec![]);
    let mut state = state_of(&ctx, &project);
    let x = state.new_bv_with_name(Name::Number(3), 8).unwrap();
    let local = Operand::LocalOperand {
        name: Name::Number(3),
        ty: i8_type(),
    };
    assert!(state.operand_to_bv(&local).unwrap().is_same(&x));
    let constant = Operand::ConstantOperand(num(8, 9));
    let nine = state.operand_to_bv(&constant).unwrap();
    assert_eq!(value(&mut state, &nine), 9);
    assert!(matches!(
        state.operand_to_bv(&Operand::MetadataOperand),
        Err(Error::MalformedInstruction(_))
    ));
}
