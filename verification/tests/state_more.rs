use symstate::bv::BitVec;
use symstate::config::{Config, FunctionHooks, Hook};
use symstate::error::Error;
use symstate::global_allocations::Callable;
use symstate::ir::{Constant, Function, GlobalVariable, Module, Name, Project, Type};
use symstate::location::Location;
use symstate::solver::PossibleSolutions;
use symstate::state::State;
use symstate::watchpoints::Watchpoint;
use symstate::solver::new_context;

fn small_project() -> Project {
    Project {
        modules: vec![
            Module {
                name: "one".to_owned(),
                functions: vec![Function::new("main"), Function::new("helper")],
                global_vars: vec![],
                global_aliases: vec![],
            },
            Module {
                name: "two".to_owned(),
                functions: vec![Function::new("other")],
                global_vars: vec![],
                global_aliases: vec![],
            },
        ],
    }
}

fn start<'p, 'ctx>(
    ctx: &'ctx z3::Context,
    project: &'p Project,
    config: Config,
) -> State<'p, 'ctx> {
    let (func, module) = project.get_func_by_name("main").unwrap();
    let loc = Location {
        module,
        func,
        bbname: Name::from_str("entry"),
        instr: 0,
    };
    State::new(ctx, project, loc, config).unwrap()
}

fn value<'p, 'ctx>(state: &mut State<'p, 'ctx>, bv: &BitVec<'ctx>) -> u64 {
    state
        .get_a_solution_for_bv(bv)
        .unwrap()
        .unwrap()
        .as_u64()
        .unwrap()
}

#[test]
fn functions_are_found_by_name() {
    let project = small_project();
    let (f, m) = project.get_func_by_name("other").unwrap();
    assert_eq!(f.name, "other");
    assert_eq!(m.name, "two");
    assert!(project.get_func_by_name("nothing").is_none());
}

#[test]
fn locations_are_equal_by_names() {
    let project = small_project();
    let other = small_project();
    let (f, m) = project.get_func_by_name("main").unwrap();
    let (f2, m2) = other.get_func_by_name("main").unwrap();
    let a = Location {
        module: m,
        func: f,
        bbname: Name::Number(1),
        instr: 4,
    };
    let b = Location {
        module: m2,
        func: f2,
        bbname: Name::Number(1),
        instr: 4,
    };
    assert!(a == b);
    let c = Location {
        module: m2,
        func: f2,
        bbname: Name::Number(1),
        instr: 5,
    };
    assert!(a != c);
    let (g, _) = project.get_func_by_name("helper").unwrap();
    let d = Location {
        module: m,
        func: g,
        bbname: Name::Number(1),
        instr: 4,
    };
    assert!(a != d);
    let e = Location {
        module: m,
        func: f,
        bbname: Name::from_str("1"),
        instr: 4,
    };
    assert!(a != e);
}

#[test]
fn constants_of_every_kind_are_made() {
    let ctx = new_context();
    let project = small_project();
    let mut state = start(&ctx, &project, Config::default());
    let made = vec![
        (state.bv_from_bool(true), 1, 1),
        (state.bv_from_bool(false), 0, 1),
        (state.bv_from_i32(-1, 8), 0xFF, 8),
        (state.bv_from_i32(-2, 40), 0xFF_FFFF_FFFE, 40),
        (state.bv_from_u32(0x1_23, 8), 0x23, 8),
        (state.bv_from_i64(-3, 64), u64::MAX - 2, 64),
        (state.bv_from_i64(i64::MIN, 64), 1 << 63, 64),
        (state.bv_from_u64(u64::MAX, 4), 0xF, 4),
        (state.zero(13), 0, 13),
        (state.one(13), 1, 13),
        (state.ones(13), 0x1FFF, 13),
    ];
    for (bv, expected, width) in &made {
        assert_eq!(bv.get_width(), *width);
        assert_eq!(value(&mut state, bv), *expected);
    }
}

#[test]
fn numerals_are_known_without_the_solver() {
    let ctx = new_context();
    assert_eq!(BitVec::from_u64(&ctx, 300, 8).as_u64(), Some(44));
    assert_eq!(BitVec::from_i64(&ctx, -1, 16).as_u64(), Some(0xFFFF));
    assert_eq!(BitVec::from_bool(&ctx, true).as_bool(), Some(true));
    assert_eq!(BitVec::from_bool(&ctx, false).as_bool(), Some(false));
    assert_eq!(BitVec::from_u64(&ctx, 1, 2).as_bool(), None);
    let x = BitVec::new(&ctx, "x", 8);
    assert_eq!(x.as_u64(), None);
    assert_eq!(x.as_bool(), None);
    let sum = BitVec::from_u64(&ctx, 3, 8).add(&BitVec::from_u64(&ctx, 4, 8));
    assert_eq!(sum.as_u64(), None);
    assert_eq!(sum.simplify().as_u64(), None);
    assert_eq!(BitVec::from_u64(&ctx, 7, 8).simplify().as_u64(), Some(7));
    // a numeral that does not fit 64 bits
    assert_eq!(BitVec::from_i64(&ctx, -1, 72).as_u64(), None);
}

#[test]
fn slices_and_extensions() {
    let ctx = new_context();
    let project = small_project();
    let mut state = start(&ctx, &project, Config::default());
    let v = BitVec::from_u64(&ctx, 0b1011_0110, 8);
    let cases = vec![
        (v.slice(7, 4), 0b1011, 4),
        (v.slice(3, 0), 0b0110, 4),
        (v.slice(4, 4), 1, 1),
        (v.zext(4), 0b0000_1011_0110, 12),
        (v.sext(4), 0b1111_1011_0110, 12),
        (v.slice(6, 0).sext(2), 0b0_0011_0110, 9),
        (v.not(), 0b0100_1001, 8),
        (v.xor(&v.not()), 0xFF, 8),
        (v.sub(&BitVec::one(&ctx, 8)), 0b1011_0101, 8),
        (v.mul(&BitVec::from_u64(&ctx, 2, 8)), 0b0110_1100, 8),
        (v.udiv(&BitVec::from_u64(&ctx, 3, 8)), 60, 8),
        (v.urem(&BitVec::from_u64(&ctx, 3, 8)), 2, 8),
        (v.sdiv(&BitVec::from_u64(&ctx, 3, 8)), 232, 8),
        (v.srem(&BitVec::from_u64(&ctx, 3, 8)), 254, 8),
        (v.sll(&BitVec::from_u64(&ctx, 2, 8)), 0b1101_1000, 8),
        (v.srl(&BitVec::from_u64(&ctx, 2, 8)), 0b0010_1101, 8),
        (v.sra(&BitVec::from_u64(&ctx, 2, 8)), 0b1110_1101, 8),
        (
            symstate::bv::zero_extend_to_bits(v.clone(), 8),
            0b1011_0110,
            8,
        ),
        (
            symstate::bv::zero_extend_to_bits(v.clone(), 16),
            0b1011_0110,
            16,
        ),
        (
            symstate::bv::sign_extend_to_bits(v.clone(), 16),
            0xFFB6,
            16,
        ),
    ];
    for (bv, expected, width) in &cases {
        assert_eq!(bv.get_width(), *width);
        assert_eq!(value(&mut state, bv), *expected);
    }
}

#[test]
fn names_bind_in_the_current_function() {
    let ctx = new_context();
    let project = small_project();
    let mut state = start(&ctx, &project, Config::default());
    let x = Name::from_str("x");
    assert!(!state.is_bound(&x));
    state
        .assign_bv_to_name(x.clone(), BitVec::from_u64(&ctx, 5, 8))
        .unwrap();
    assert!(state.is_bound(&x));
    assert_eq!(
        state
            .get_a_solution_for_irname(&"main".to_owned(), &x)
            .unwrap()
            .unwrap()
            .as_u64(),
        Some(5)
    );
    state.overwrite_latest_version_of_bv(&x, BitVec::from_u64(&ctx, 6, 8));
    assert_eq!(
        state.max_possible_solution_for_irname(&"main".to_owned(), &x),
        Ok(Some(6))
    );
    assert_eq!(
        state.min_possible_solution_for_irname(&"main".to_owned(), &x),
        Ok(Some(6))
    );
    let all = state
        .get_possible_solutions_for_irname(&"main".to_owned(), &x, 3)
        .unwrap();
    assert_eq!(all.as_u64_solutions(), Some(PossibleSolutions::Exactly(vec![6])));
}

#[test]
fn the_loop_bound_of_the_configuration_holds() {
    let ctx = new_context();
    let project = small_project();
    let mut config = Config::default();
    config.loop_bound = 2;
    let mut state = start(&ctx, &project, config);
    let x = Name::from_str("x");
    assert!(state.new_bv_with_name(x.clone(), 8).is_ok());
    assert!(state.new_bv_with_name(x.clone(), 8).is_ok());
    assert_eq!(
        state.new_bv_with_name(x.clone(), 8).err(),
        Some(Error::LoopBoundExceeded)
    );
}

#[test]
fn results_are_recorded_where_the_size_fits() {
    let ctx = new_context();
    let project = small_project();
    let mut state = start(&ctx, &project, Config::default());
    let r = Name::Number(1);
    assert_eq!(
        state.record_bv_result(&r, &Type::Integer { bits: 8 }, BitVec::from_u64(&ctx, 1, 8)),
        Ok(())
    );
    assert!(state.is_bound(&r));
    let other = Name::Number(2);
    assert!(matches!(
        state.record_bv_result(
            &other,
            &Type::Integer { bits: 16 },
            BitVec::from_u64(&ctx, 1, 8)
        ),
        Err(Error::OtherError(_))
    ));
    assert!(matches!(
        state.record_bv_result(&other, &Type::Other, BitVec::from_u64(&ctx, 1, 8)),
        Err(Error::OtherError(_))
    ));
    assert!(!state.is_bound(&other));
}

#[test]
fn callsites_put_the_bindings_of_the_caller_back() {
    let ctx = new_context();
    let project = small_project();
    let mut state = start(&ctx, &project, Config::default());
    let x = Name::from_str("x");
    state
        .assign_bv_to_name(x.clone(), BitVec::from_u64(&ctx, 1, 8))
        .unwrap();
    state.cur_loc.instr = 3;
    state.push_callsite();
    // the callee is the same function
    state.cur_loc.instr = 0;
    state
        .assign_bv_to_name(x.clone(), BitVec::from_u64(&ctx, 2, 8))
        .unwrap();
    state.push_callsite();
    state
        .assign_bv_to_name(x.clone(), BitVec::from_u64(&ctx, 3, 8))
        .unwrap();
    let back = state.pop_callsite().unwrap();
    assert_eq!(back.instr, 0);
    let now = state.operand_to_bv(&symstate::ir::Operand::LocalOperand {
        name: x.clone(),
        ty: Type::Integer { bits: 8 },
    });
    assert_eq!(value(&mut state, &now.unwrap()), 2);
    let back = state.pop_callsite().unwrap();
    assert_eq!(back.instr, 3);
    assert_eq!(back.func.name, "main");
    assert_eq!(
        state
            .get_a_solution_for_irname(&"main".to_owned(), &x)
            .unwrap()
            .unwrap()
            .as_u64(),
        Some(1)
    );
    assert!(state.pop_callsite().is_none());
}

#[test]
fn checkpoints_nest() {
    let ctx = new_context();
    let project = small_project();
    let mut state = start(&ctx, &project, Config::default());
    let x = state.new_bv_with_name(Name::from_str("x"), 8).unwrap();
    let addr = state.allocate(8);
    state.write(&addr, BitVec::from_u64(&ctx, 1, 8)).unwrap();
    state.record_path_entry();
    state.save_backtracking_point(
        Name::from_str("outer"),
        x.ult(&BitVec::from_u64(&ctx, 10, 8)),
    );
    assert_eq!(state.count_backtracking_points(), 1);
    state.write(&addr, BitVec::from_u64(&ctx, 2, 8)).unwrap();
    state.record_path_entry();
    state.push_callsite();
    state.save_backtracking_point(
        Name::from_str("inner"),
        x.ugt(&BitVec::from_u64(&ctx, 5, 8)),
    );
    assert_eq!(state.count_backtracking_points(), 2);
    state.write(&addr, BitVec::from_u64(&ctx, 3, 8)).unwrap();
    state.record_path_entry();
    state
        .assign_bv_to_name(Name::from_str("x"), BitVec::zero(&ctx, 8))
        .unwrap();
    state.add_constraint(&BitVec::from_bool(&ctx, false));
    assert_eq!(state.sat(), Ok(false));

    assert_eq!(state.revert_to_backtracking_point(), Ok(true));
    assert_eq!(state.count_backtracking_points(), 1);
    assert_eq!(state.cur_loc.bbname, Name::from_str("inner"));
    assert_eq!(state.cur_loc.instr, 0);
    assert_eq!(state.get_path().len(), 2);
    let held = state.read(&addr, 8).unwrap();
    assert_eq!(value(&mut state, &held), 2);
    assert!(state
        .operand_to_bv(&symstate::ir::Operand::LocalOperand {
            name: Name::from_str("x"),
            ty: Type::Integer { bits: 8 },
        })
        .unwrap()
        .is_same(&x));
    assert_eq!(state.min_possible_solution_for_bv(&x), Ok(Some(6)));
    assert_eq!(state.max_possible_solution_for_bv(&x), Ok(Some(255)));
    assert!(state.pop_callsite().is_some());

    assert_eq!(state.revert_to_backtracking_point(), Ok(true));
    assert_eq!(state.count_backtracking_points(), 0);
    assert_eq!(state.cur_loc.bbname, Name::from_str("outer"));
    assert_eq!(state.get_path().len(), 1);
    let held = state.read(&addr, 8).unwrap();
    assert_eq!(value(&mut state, &held), 1);
    // the constraint of the inner checkpoint is gone with its level
    assert_eq!(state.min_possible_solution_for_bv(&x), Ok(Some(0)));
    assert_eq!(state.max_possible_solution_for_bv(&x), Ok(Some(9)));
    assert!(state.pop_callsite().is_none());
    assert_eq!(state.revert_to_backtracking_point(), Ok(false));
    // allocations are not undone
    let next = state.allocate(8);
    assert_ne!(value(&mut state, &next), value(&mut state, &addr));
}

#[test]
fn a_fork_has_its_own_memory_and_checkpoints() {
    let ctx = new_context();
    let project = small_project();
    let mut state = start(&ctx, &project, Config::default());
    let addr = state.allocate(16);
    state.write(&addr, BitVec::from_u64(&ctx, 0xAAAA, 16)).unwrap();
    state.save_backtracking_point(Name::Number(1), BitVec::from_bool(&ctx, true));
    let mut fork = state.fork();
    fork.write(&addr, BitVec::from_u64(&ctx, 0xBBBB, 16)).unwrap();
    fork.add_constraint(&BitVec::from_bool(&ctx, false));
    assert_eq!(fork.sat(), Ok(false));
    assert_eq!(state.sat(), Ok(true));
    let held = state.read(&addr, 16).unwrap();
    assert_eq!(value(&mut state, &held), 0xAAAA);
    assert_eq!(fork.count_backtracking_points(), 1);
    assert_eq!(fork.revert_to_backtracking_point(), Ok(true));
    assert_eq!(fork.sat(), Ok(true));
    let held = fork.read(&addr, 16).unwrap();
    assert_eq!(value(&mut fork, &held), 0xAAAA);
    assert_eq!(state.count_backtracking_points(), 1);
    // both go on allocating from the same address
    let a = state.allocate(8);
    let b = fork.allocate(8);
    assert_eq!(value(&mut state, &a), value(&mut fork, &b));
}

#[test]
fn allocation_sizes_are_found_by_address() {
    let ctx = new_context();
    let project = small_project();
    let mut state = start(&ctx, &project, Config::default());
    let addr = state.allocate(100);
    assert_eq!(state.get_allocation_size(&addr), Ok(Some(100)));
    let elsewhere = addr.add(&BitVec::one(&ctx, 64));
    assert_eq!(state.get_allocation_size(&elsewhere), Ok(None));
    // an address that is no numeral, but can be one value only
    let x = BitVec::new(&ctx, "p", 64);
    state.add_constraint(&x._eq(&addr));
    assert_eq!(state.get_allocation_size(&x), Ok(Some(100)));
    // one that can be two values
    let y = BitVec::new(&ctx, "q", 64);
    state.add_constraint(&y.ulte(&BitVec::one(&ctx, 64)));
    assert!(matches!(
        state.get_allocation_size(&y),
        Err(Error::OtherError(_))
    ));
    // one that can be none
    state.add_constraint(&BitVec::from_bool(&ctx, false));
    assert_eq!(state.get_allocation_size(&y), Err(Error::Unsat));
}

#[test]
fn function_pointers_are_interpreted() {
    let ctx = new_context();
    let project = small_project();
    let mut state = start(&ctx, &project, Config::default());
    let main = state.get_pointer_to_function("main").unwrap().clone();
    let other = state.get_pointer_to_function("other").unwrap().clone();
    let malloc = state.get_pointer_to_function_hook("malloc").unwrap().clone();
    assert!(state.get_pointer_to_function_hook("main").is_none());

    match state.interpret_as_function_ptr(main.clone(), 1) {
        Ok(PossibleSolutions::Exactly(v)) => {
            assert_eq!(v.len(), 1);
            assert!(matches!(&v[0], Callable::LLVMFunction(f) if f.name == "main"));
        }
        _ => panic!("expected the function"),
    }
    match state.interpret_as_function_ptr(malloc.clone(), 1) {
        Ok(PossibleSolutions::Exactly(v)) => {
            assert_eq!(v.len(), 1);
            assert!(matches!(&v[0], Callable::FunctionHook(name) if name == "malloc"));
        }
        _ => panic!("expected the hook"),
    }
    // a pointer that can be one of two functions
    let p = BitVec::new(&ctx, "p", 64);
    let either = BitVec::from_cond(&p.relate(symstate::term::Relation::Eq, &main))
        .or(&BitVec::from_cond(&p.relate(symstate::term::Relation::Eq, &other)));
    state.add_constraint(&either);
    match state.interpret_as_function_ptr(p.clone(), 2) {
        Ok(PossibleSolutions::Exactly(v)) => {
            assert_eq!(v.len(), 2);
            assert!(matches!(&v[0], Callable::LLVMFunction(f) if f.name == "main"));
            assert!(matches!(&v[1], Callable::LLVMFunction(f) if f.name == "other"));
        }
        _ => panic!("expected two functions"),
    }
    match state.interpret_as_function_ptr(p.clone(), 1) {
        Ok(PossibleSolutions::AtLeast(v)) => assert_eq!(v.len(), 2),
        _ => panic!("expected more than one function"),
    }
    // a pointer to no function
    let nowhere = BitVec::from_u64(&ctx, 0x42, 64);
    assert!(matches!(
        state.interpret_as_function_ptr(nowhere, 1),
        Err(Error::OtherError(_))
    ));
}

#[test]
fn hooks_of_the_configuration_have_addresses() {
    let ctx = new_context();
    let project = small_project();
    let mut hooks = FunctionHooks::new();
    hooks.add("special".to_owned(), Hook::Custom(7));
    assert_eq!(hooks.get_hook_for("special"), Some(Hook::Custom(7)));
    assert_eq!(hooks.get_hook_for("malloc"), None);
    let config = Config {
        loop_bound: 5,
        zero_initialized_memory: true,
        function_hooks: hooks,
        initial_mem_watchpoints: vec![("w".to_owned(), Watchpoint::new(0x100, 8))],
    };
    let mut state = start(&ctx, &project, config);
    assert!(state.get_pointer_to_function_hook("special").is_some());
    assert!(state.get_pointer_to_function_hook("malloc").is_none());
    // memory starts out as zero
    let anywhere = BitVec::from_u64(&ctx, 0x5000, 64);
    let held = state.read(&anywhere, 64).unwrap();
    assert_eq!(state.max_possible_solution_for_bv(&held), Ok(Some(0)));
    // the watchpoint is there from the start
    assert!(state.disable_watchpoint("w"));
}

#[test]
fn unknown_memory_can_hold_anything() {
    let ctx = new_context();
    let project = small_project();
    let mut state = start(&ctx, &project, Config::default());
    let anywhere = BitVec::from_u64(&ctx, 0x5000, 64);
    let held = state.read(&anywhere, 8).unwrap();
    assert_eq!(state.max_possible_solution_for_bv(&held), Ok(Some(255)));
    assert_eq!(state.min_possible_solution_for_bv(&held), Ok(Some(0)));
}

#[test]
fn a_state_needs_globals_that_can_be_laid_out() {
    let ctx = new_context();
    let bad = vec![
        Type::Integer { bits: 32 },
        Type::Pointer {
            pointee: Box::new(Type::Other),
        },
    ];
    for ty in bad {
        let project = Project::from_module(Module {
            name: "m".to_owned(),
            functions: vec![Function::new("main")],
            global_vars: vec![GlobalVariable {
                name: Name::from_str("g"),
                ty,
                initializer: Some(Constant::Int { bits: 32, value: 1 }),
            }],
            global_aliases: vec![],
        });
        let (func, module) = project.get_func_by_name("main").unwrap();
        let loc = Location {
            module,
            func,
            bbname: Name::Number(0),
            instr: 0,
        };
        assert!(matches!(
            State::new(&ctx, &project, loc, Config::default()),
            Err(Error::OtherError(_))
        ));
    }
}

#[test]
fn an_address_has_the_size_that_was_asked_for() {
    let ctx = new_context();
    let project = small_project();
    let mut state = start(&ctx, &project, Config::default());
    let first = state.allocate(1);
    let p = state.allocate(100);
    let later = state.allocate(64);
    let a = first.as_u64().unwrap();
    let b = p.as_u64().unwrap();
    let c = later.as_u64().unwrap();
    // each on a word, each above the end of the one before
    assert_eq!(a % 8, 0);
    assert_eq!(b, a + 8);
    assert_eq!(c, b + 16);
    // the size that was asked for, not the size that was reserved
    assert_eq!(state.get_allocation_size(&first), Ok(Some(1)));
    assert_eq!(state.get_allocation_size(&p), Ok(Some(100)));
    assert_eq!(state.get_allocation_size(&later), Ok(Some(64)));
    // an address within an allocation is none that was returned
    let inside = BitVec::from_u64(&ctx, b + 8, 64);
    assert_eq!(state.get_allocation_size(&inside), Ok(None));
    // checkpoints take no allocation back
    state.save_backtracking_point(Name::from_str("next"), BitVec::from_bool(&ctx, true));
    let after_save = state.allocate(8);
    assert_eq!(state.revert_to_backtracking_point(), Ok(true));
    assert_eq!(state.get_allocation_size(&after_save), Ok(Some(8)));
    assert_eq!(state.get_allocation_size(&p), Ok(Some(100)));
    let next = state.allocate(8);
    assert_eq!(next.as_u64().unwrap(), after_save.as_u64().unwrap() + 8);
}

#[test]
fn an_address_that_is_no_numeral_is_found_by_the_solver() {
    let ctx = new_context();
    let project = small_project();
    let mut state = start(&ctx, &project, Config::default());
    let p = state.allocate(24);
    let x = state.new_bv_with_name(Name::from_str("x"), 64).unwrap();
    // many values
    assert!(matches!(
        state.get_allocation_size(&x),
        Err(Error::OtherError(_))
    ));
    state.add_constraint(&x._eq(&p));
    assert_eq!(state.get_allocation_size(&x), Ok(Some(24)));
    // a sum is no numeral either, and has one value
    let sum = p.add(&BitVec::zero(&ctx, 64));
    assert_eq!(sum.as_u64(), None);
    assert_eq!(state.get_allocation_size(&sum), Ok(Some(24)));
    // no value
    state.add_constraint(&BitVec::from_bool(&ctx, false));
    assert_eq!(state.get_allocation_size(&x), Err(Error::Unsat));
    // a numeral needs no solver
    assert_eq!(state.get_allocation_size(&p), Ok(Some(24)));
}
