use symstate::bv::BitVec;
use symstate::config::Config;
use symstate::default_hooks::{
    allocate_bytes, calloc_hook, concrete_size, free_hook, malloc_hook, realloc_hook, ReturnValue,
};
use symstate::error::Error;
use symstate::ir::{Call, Constant, Function, Module, Name, Operand, Project, Type};
use symstate::location::Location;
use symstate::state::State;
use symstate::solver::new_context;

fn project() -> Project {
    Project::from_module(Module {
        name: "m".to_owned(),
        functions: vec![Function::new("f")],
        global_vars: vec![],
        global_aliases: vec![],
    })
}

fn start<'p, 'ctx>(ctx: &'ctx z3::Context, project: &'p Project) -> State<'p, 'ctx> {
    let (func, module) = project.get_func_by_name("f").unwrap();
    let loc = Location {
        module,
        func,
        bbname: Name::Number(0),
        instr: 0,
    };
    State::new(ctx, project, loc, Config::default()).unwrap()
}

fn size(value: u64) -> (Operand, Type) {
    (
        Operand::ConstantOperand(Constant::Int { bits: 64, value }),
        Type::Integer { bits: 64 },
    )
}

fn pointer() -> Type {
    Type::Pointer {
        pointee: Box::new(Type::Integer { bits: 8 }),
    }
}

fn null() -> (Operand, Type) {
    (Operand::ConstantOperand(Constant::Null(pointer())), pointer())
}

fn returned<'ctx>(r: Result<ReturnValue<BitVec<'ctx>>, Error>) -> BitVec<'ctx> {
    match r {
        Ok(ReturnValue::Return(bv)) => bv,
        _ => panic!("expected a value"),
    }
}

#[test]
fn malloc_allocates_the_bytes_asked_for() {
    let ctx = new_context();
    let project = project();
    let mut state = start(&ctx, &project);
    let call = Call {
        arguments: vec![size(10)],
        return_type: pointer(),
    };
    let a = returned(malloc_hook(&project, &mut state, &call));
    let b = returned(malloc_hook(&project, &mut state, &call));
    assert_eq!(state.get_allocation_size(&a), Ok(Some(80)));
    assert_eq!(state.get_allocation_size(&b), Ok(Some(80)));
    assert_eq!(b.as_u64().unwrap() - a.as_u64().unwrap(), 16);
}

#[test]
fn malloc_of_a_symbolic_size_allocates_the_most_it_can_be() {
    let ctx = new_context();
    let project = project();
    let mut state = start(&ctx, &project);
    let n = state.new_bv_with_name(Name::from_str("n"), 64).unwrap();
    state.add_constraint(&n.ult(&BitVec::from_u64(&ctx, 100, 64)));
    let call = Call {
        arguments: vec![(
            Operand::LocalOperand {
                name: Name::from_str("n"),
                ty: Type::Integer { bits: 64 },
            },
            Type::Integer { bits: 64 },
        )],
        return_type: pointer(),
    };
    let a = returned(malloc_hook(&project, &mut state, &call));
    assert_eq!(state.get_allocation_size(&a), Ok(Some(99 * 8)));
    assert_eq!(concrete_size(&mut state, &n), Ok(99));
    state.add_constraint(&BitVec::from_bool(&ctx, false));
    assert_eq!(concrete_size(&mut state, &n), Err(Error::Unsat));
    assert_eq!(concrete_size(&mut state, &BitVec::from_u64(&ctx, 5, 8)), Ok(5));
}

#[test]
fn calloc_allocates_the_product() {
    let ctx = new_context();
    let project = project();
    let mut state = start(&ctx, &project);
    let call = Call {
        arguments: vec![size(3), size(5)],
        return_type: pointer(),
    };
    let a = returned(calloc_hook(&project, &mut state, &call));
    assert_eq!(state.get_allocation_size(&a), Ok(Some(120)));
    // a count that is no numeral
    let n = state.new_bv_with_name(Name::from_str("n"), 32).unwrap();
    state.add_constraint(&n.ulte(&BitVec::from_u64(&ctx, 4, 32)));
    let call = Call {
        arguments: vec![
            (
                Operand::LocalOperand {
                    name: Name::from_str("n"),
                    ty: Type::Integer { bits: 32 },
                },
                Type::Integer { bits: 32 },
            ),
            size(6),
        ],
        return_type: pointer(),
    };
    let b = returned(calloc_hook(&project, &mut state, &call));
    assert_eq!(state.get_allocation_size(&b), Ok(Some(4 * 6 * 8)));
    // a product that does not fit
    let call = Call {
        arguments: vec![size(1 << 40), size(1 << 40)],
        return_type: pointer(),
    };
    assert!(matches!(
        calloc_hook(&project, &mut state, &call),
        Err(Error::OtherError(_))
    ));
}

#[test]
fn realloc_allocates_anew() {
    let ctx = new_context();
    let project = project();
    let mut state = start(&ctx, &project);
    let first = state.allocate(64);
    state.write(&first, BitVec::from_u64(&ctx, 9, 64)).unwrap();
    let call = Call {
        arguments: vec![null(), size(32)],
        return_type: pointer(),
    };
    let a = returned(realloc_hook(&project, &mut state, &call));
    assert_eq!(state.get_allocation_size(&a), Ok(Some(256)));
    assert_ne!(a.as_u64(), first.as_u64());
    // the old region is as it was
    assert_eq!(state.get_allocation_size(&first), Ok(Some(64)));
    let held = state.read(&first, 64).unwrap();
    assert_eq!(state.max_possible_solution_for_bv(&held), Ok(Some(9)));
}

#[test]
fn free_does_nothing() {
    let ctx = new_context();
    let project = project();
    let mut state = start(&ctx, &project);
    let a = state.allocate(64);
    let call = Call {
        arguments: vec![null()],
        return_type: Type::Void,
    };
    assert!(matches!(
        free_hook(&project, &mut state, &call),
        Ok(ReturnValue::ReturnVoid)
    ));
    assert_eq!(state.get_allocation_size(&a), Ok(Some(64)));
    let b = state.allocate(64);
    assert_ne!(a.as_u64(), b.as_u64());
}

#[test]
fn calls_of_the_wrong_shape_are_refused() {
    let ctx = new_context();
    let project = project();
    let mut state = start(&ctx, &project);
    let before = state.allocate(8).as_u64().unwrap();
    let bad_malloc = vec![
        Call {
            arguments: vec![null()],
            return_type: pointer(),
        },
        Call {
            arguments: vec![size(1)],
            return_type: Type::Integer { bits: 64 },
        },
    ];
    for call in &bad_malloc {
        assert!(matches!(
            malloc_hook(&project, &mut state, call),
            Err(Error::OtherError(_))
        ));
    }
    let bad_calloc = vec![
        Call {
            arguments: vec![null(), size(1)],
            return_type: pointer(),
        },
        Call {
            arguments: vec![size(1), null()],
            return_type: pointer(),
        },
        Call {
            arguments: vec![size(1), size(1)],
            return_type: Type::Void,
        },
    ];
    for call in &bad_calloc {
        assert!(matches!(
            calloc_hook(&project, &mut state, call),
            Err(Error::OtherError(_))
        ));
    }
    let bad_realloc = vec![
        Call {
            arguments: vec![size(1), size(1)],
            return_type: pointer(),
        },
        Call {
            arguments: vec![null(), null()],
            return_type: pointer(),
        },
        Call {
            arguments: vec![null(), size(1)],
            return_type: Type::Void,
        },
    ];
    for call in &bad_realloc {
        assert!(matches!(
            realloc_hook(&project, &mut state, call),
            Err(Error::OtherError(_))
        ));
    }
    // nothing was allocated
    assert_eq!(state.allocate(8).as_u64().unwrap(), before + 8);
}

#[test]
fn allocations_that_are_too_large_are_refused() {
    let ctx = new_context();
    let project = project();
    let mut state = start(&ctx, &project);
    assert!(matches!(
        allocate_bytes(&mut state, 1 << 61),
        Err(Error::OtherError(_))
    ));
    let a = allocate_bytes(&mut state, (1 << 61) - 1).unwrap();
    assert_eq!(state.get_allocation_size(&a), Ok(Some(u64::MAX - 7)));
}

#[test]
fn a_size_without_a_value_fails_the_allocation() {
    let ctx = new_context();
    let project = project();
    let mut state = start(&ctx, &project);
    let before = state.allocate(8).as_u64().unwrap();
    let call = Call {
        arguments: vec![(Operand::MetadataOperand, Type::Integer { bits: 64 })],
        return_type: pointer(),
    };
    assert!(matches!(
        malloc_hook(&project, &mut state, &call),
        Err(Error::MalformedInstruction(_))
    ));
    let call = Call {
        arguments: vec![size(2), (Operand::MetadataOperand, Type::Integer { bits: 64 })],
        return_type: pointer(),
    };
    assert!(matches!(
        calloc_hook(&project, &mut state, &call),
        Err(Error::MalformedInstruction(_))
    ));
    assert_eq!(state.allocate(8).as_u64().unwrap(), before + 8);
}

#[test]
fn a_symbolic_size_wider_than_a_word_is_refused() {
    let ctx = new_context();
    let project = project();
    let mut state = start(&ctx, &project);
    let wide = state.new_bv_with_name(Name::from_str("wide"), 65).unwrap();
    assert!(matches!(
        concrete_size(&mut state, &wide),
        Err(Error::OtherError(_))
    ));
    // a numeral has its value whatever its width
    assert_eq!(
        concrete_size(&mut state, &BitVec::from_u64(&ctx, 12, 65)),
        Ok(12)
    );
}
