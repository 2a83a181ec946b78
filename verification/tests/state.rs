use symstate::bv::BitVec;
use symstate::config::Config;
use symstate::error::Error;
use symstate::ir::{Constant, Function, Module, Name, Operand, Project, Type};
use symstate::location::{Location, PathEntry};
use symstate::solver::{PossibleSolutions, SolutionCount};
use symstate::state::State;
use symstate::solver::new_context;

// Here we test what `State` does itself; memory, allocator, variable map and
// watchpoints have tests of their own.

/// utility to initialize a `State` out of a `Project` and a function name
fn blank_state<'p, 'ctx>(
    ctx: &'ctx z3::Context,
    project: &'p Project,
    funcname: &str,
) -> State<'p, 'ctx> {
    let (func, module) = project
        .get_func_by_name(funcname)
        .expect("Failed to find function");
    let start_loc = Location {
        module,
        func,
        bbname: Name::from_str("test_bb"),
        instr: 0,
    };
    State::new(ctx, project, start_loc, Config::default()).unwrap()
}

/// Utility that creates a simple `Project` for testing.
/// The `Project` will contain a single `Module` (with the given name) which contains
/// a single function (given).
fn blank_project(modname: &str, func: Function) -> Project {
    Project::from_module(Module {
        name: modname.to_owned(),
        functions: vec![func],
        global_vars: vec![],
        global_aliases: vec![],
    })
}

/// utility that creates a technically valid (but functionally useless) `Function` for testing
fn blank_function(name: &str) -> Function {
    Function::new(name)
}

fn context() -> z3::Context {
    new_context()
}

#[test]
fn sat() -> Result<(), Error> {
    let ctx = context();
    let func = blank_function("test_func");
    let project = blank_project("test_mod", func);
    let mut state = blank_state(&ctx, &project, "test_func");

    // empty state should be sat
    assert_eq!(state.sat(), Ok(true));

    // adding True constraint should still be sat
    let t = state.bv_from_bool(true);
    state.add_constraint(&t);
    assert_eq!(state.sat(), Ok(true));

    // adding x > 0 constraint should still be sat
    let x = state.new_bv_with_name(Name::from_str("x"), 64)?;
    let c = x.sgt(&state.zero(64));
    state.add_constraint(&c);
    assert_eq!(state.sat(), Ok(true));

    Ok(())
}

#[test]
fn unsat() -> Result<(), Error> {
    let ctx = context();
    let func = blank_function("test_func");
    let project = blank_project("test_mod", func);
    let mut state = blank_state(&ctx, &project, "test_func");

    // adding False constraint should be unsat
    let f = state.bv_from_bool(false);
    state.add_constraint(&f);
    assert_eq!(state.sat(), Ok(false));

    Ok(())
}

#[test]
fn unsat_with_extra_constraints() -> Result<(), Error> {
    let ctx = context();
    let func = blank_function("test_func");
    let project = blank_project("test_mod", func);
    let mut state = blank_state(&ctx, &project, "test_func");

    // adding x > 3 constraint should still be sat
    let x = state.new_bv_with_name(Name::from_str("x"), 64)?;
    let c = x.ugt(&state.bv_from_u64(3, 64));
    state.add_constraint(&c);
    assert_eq!(state.sat(), Ok(true));

    // adding x < 3 constraint should make us unsat
    let bad_constraint = x.ult(&state.bv_from_u64(3, 64));
    assert_eq!(
        state.sat_with_extra_constraints(&[bad_constraint]),
        Ok(false)
    );

    // the state itself should still be sat, extra constraints weren't permanently added
    assert_eq!(state.sat(), Ok(true));

    Ok(())
}

#[test]
fn get_a_solution() -> Result<(), Error> {
    let ctx = context();
    let func = blank_function("test_func");
    let project = blank_project("test_mod", func);
    let mut state = blank_state(&ctx, &project, "test_func");

    // add x > 3 constraint
    let x = state.new_bv_with_name(Name::from_str("x"), 64)?;
    let c = x.ugt(&state.bv_from_u64(3, 64));
    state.add_constraint(&c);

    // check that the computed value of x is > 3
    let x_value = state
        .get_a_solution_for_bv(&x)
        .unwrap()
        .expect("Expected a solution for x")
        .as_u64()
        .unwrap();
    assert!(x_value > 3);

    Ok(())
}

#[test]
fn possible_solutions() -> Result<(), Error> {
    let ctx = context();
    let func = blank_function("test_func");
    let project = blank_project("test_mod", func);
    let mut state = blank_state(&ctx, &project, "test_func");

    // add x > 3 constraint
    let x = state.new_bv_with_name(Name::from_str("x"), 64)?;
    let c = x.ugt(&state.bv_from_u64(3, 64));
    state.add_constraint(&c);

    // check that there are more than 2 solutions
    let num_solutions = state.get_possible_solutions_for_bv(&x, 2).unwrap().count();
    assert_eq!(num_solutions, SolutionCount::AtLeast(3));

    // add x < 6 constraint
    let c = x.ult(&state.bv_from_u64(6, 64));
    state.add_constraint(&c);

    // check that there are now exactly two solutions
    let solutions = state
        .get_possible_solutions_for_bv(&x, 2)
        .unwrap()
        .as_u64_solutions();
    assert_eq!(solutions, Some(PossibleSolutions::Exactly(vec![4, 5])));

    // add x < 5 constraint
    let c = x.ult(&state.bv_from_u64(5, 64));
    state.add_constraint(&c);

    // check that there is now exactly one solution
    let solutions = state
        .get_possible_solutions_for_bv(&x, 2)
        .unwrap()
        .as_u64_solutions();
    assert_eq!(solutions, Some(PossibleSolutions::Exactly(vec![4])));

    // add x < 3 constraint
    let c = x.ult(&state.bv_from_u64(3, 64));
    state.add_constraint(&c);

    // check that there are now no solutions
    let solutions = state
        .get_possible_solutions_for_bv(&x, 2)
        .unwrap()
        .as_u64_solutions();
    assert_eq!(solutions, Some(PossibleSolutions::Exactly(vec![])));

    Ok(())
}

#[test]
fn lookup_vars_via_operand() {
    let ctx = context();
    let func = blank_function("test_func");
    let project = blank_project("test_mod", func);
    let mut state = blank_state(&ctx, &project, "test_func");

    // create names
    let name1 = Name::from_str("val");
    let name2 = Name::Number(2);

    // create corresponding BV values
    let var1 = state.new_bv_with_name(name1.clone(), 64).unwrap();
    let var2 = state.new_bv_with_name(name2.clone(), 1).unwrap();

    // check that we can look up the correct BV values via LocalOperands
    let op1 = Operand::LocalOperand {
        name: name1,
        ty: Type::Integer { bits: 32 },
    };
    let op2 = Operand::LocalOperand {
        name: name2,
        ty: Type::Integer { bits: 1 },
    };
    assert!(state.operand_to_bv(&op1).unwrap().is_same(&var1));
    assert!(state.operand_to_bv(&op2).unwrap().is_same(&var2));
    assert!(!state.operand_to_bv(&op1).unwrap().is_same(&BitVec::zero(&ctx, 64)));
}

#[test]
fn const_bv() {
    let ctx = context();
    let func = blank_function("test_func");
    let project = blank_project("test_mod", func);
    let mut state = blank_state(&ctx, &project, "test_func");

    // create a value which is constant 3
    let constint = Constant::Int { bits: 64, value: 3 };

    // this should create a corresponding BV value which is also constant 3
    let bv = state
        .operand_to_bv(&Operand::ConstantOperand(constint))
        .unwrap();

    // check that the BV value was evaluated to 3
    let solution = state
        .get_a_solution_for_bv(&bv)
        .unwrap()
        .expect("Expected a solution for the bv")
        .as_u64()
        .unwrap();
    assert_eq!(solution, 3);
}

#[test]
fn const_bool() {
    let ctx = context();
    let func = blank_function("test_func");
    let project = blank_project("test_mod", func);
    let mut state = blank_state(&ctx, &project, "test_func");

    // create constants true and false
    let consttrue = Constant::Int { bits: 1, value: 1 };
    let constfalse = Constant::Int { bits: 1, value: 0 };

    // this should create BV values true and false
    let bvtrue = state
        .operand_to_bv(&Operand::ConstantOperand(consttrue))
        .unwrap();
    let bvfalse = state
        .operand_to_bv(&Operand::ConstantOperand(constfalse))
        .unwrap();

    // check that the BV values are evaluated to true and false respectively
    assert_eq!(
        state
            .get_a_solution_for_bv(&bvtrue)
            .unwrap()
            .expect("Expected a solution for bvtrue")
            .as_bool()
            .unwrap(),
        true,
    );
    assert_eq!(
        state
            .get_a_solution_for_bv(&bvfalse)
            .unwrap()
            .expect("Expected a solution for bvfalse")
            .as_bool()
            .unwrap(),
        false,
    );

    // assert the first one, which should be true, so we should still be sat
    state.add_constraint(&bvtrue);
    assert_eq!(state.sat(), Ok(true));

    // assert the second one, which should be false, so we should be unsat
    state.add_constraint(&bvfalse);
    assert_eq!(state.sat(), Ok(false));
}

#[test]
fn backtracking() -> Result<(), Error> {
    let ctx = context();
    let func = blank_function("test_func");
    let project = blank_project("test_mod", func);
    let mut state = blank_state(&ctx, &project, "test_func");
    state.record_path_entry();

    // assert x > 11
    let x = state.new_bv_with_name(Name::from_str("x"), 64)?;
    let c = x.sgt(&state.bv_from_i64(11, 64));
    state.add_constraint(&c);

    // create a backtrack point with constraint y > 5
    let y = state.new_bv_with_name(Name::from_str("y"), 64)?;
    let constraint = y.sgt(&state.bv_from_i64(5, 64));
    let bb_name = Name::from_str("bb_target");
    state.save_backtracking_point(bb_name.clone(), constraint);

    // check that the constraint y > 5 wasn't added: adding y < 4 should keep us sat
    let extra = y.slt(&state.bv_from_i64(4, 64));
    assert_eq!(state.sat_with_extra_constraints(&[extra]), Ok(true));

    // assert x < 8 to make us unsat
    let c = x.slt(&state.bv_from_i64(8, 64));
    state.add_constraint(&c);
    assert_eq!(state.sat(), Ok(false));

    // note the pre-rollback location
    let pre_rollback = state.cur_loc.clone();

    // roll back to backtrack point; check that we ended up at the right loc
    // and with the right path
    assert!(state.revert_to_backtracking_point().unwrap());
    assert_eq!(state.cur_loc.func, pre_rollback.func);
    assert_eq!(state.cur_loc.bbname, bb_name);
    assert_eq!(
        state.get_path(),
        &vec![PathEntry {
            modname: "test_mod".into(),
            funcname: "test_func".into(),
            bbname: Name::from_str("test_bb"), // the `blank_state` comes with this as the current bb name
            instr: 0,
        }]
    );

    // check that the constraint x < 8 was removed: we're sat again
    assert_eq!(state.sat(), Ok(true));

    // check that the constraint y > 5 was added: y evaluates to something > 5
    assert!(
        state
            .get_a_solution_for_bv(&y)
            .unwrap()
            .expect("Expected a solution for y")
            .as_u64()
            .unwrap()
            > 5
    );

    // check that the first constraint remained in place: x > 11
    assert!(
        state
            .get_a_solution_for_bv(&x)
            .unwrap()
            .expect("Expected a solution for x")
            .as_u64()
            .unwrap()
            > 11
    );

    // check that trying to backtrack again fails
    assert!(!state.revert_to_backtracking_point().unwrap());

    Ok(())
}

#[test]
fn fork() {
    let ctx = context();
    let func = blank_function("test_func");
    let project = blank_project("test_mod", func);
    let mut state = blank_state(&ctx, &project, "test_func");

    // assert x < 42
    let x = state.new_bv_with_name(Name::from_str("x"), 64).unwrap();
    let c = x.ult(&state.bv_from_u32(42, 64));
    state.add_constraint(&c);

    // `y` is equal to `x + 7`
    let y = x.add(&state.bv_from_u32(7, 64));
    state.assign_bv_to_name(Name::from_str("y"), y).unwrap();

    // fork the state
    let mut state_2 = state.fork();

    // get the copies of `x` and `y` in each state, via operand lookups
    let op_x = Operand::LocalOperand {
        name: Name::from_str("x"),
        ty: Type::Integer { bits: 64 },
    };
    let op_y = Operand::LocalOperand {
        name: Name::from_str("y"),
        ty: Type::Integer { bits: 64 },
    };
    let x_1 = state.operand_to_bv(&op_x).unwrap();
    let x_2 = state_2.operand_to_bv(&op_x).unwrap();
    let y_1 = state.operand_to_bv(&op_y).unwrap();
    let y_2 = state_2.operand_to_bv(&op_y).unwrap();

    // in one state, we assert `x > 3`, while in the other, we assert `x < 3`
    let c_1 = x_1.ugt(&state.bv_from_u32(3, 64));
    state.add_constraint(&c_1);
    let c_2 = x_2.ult(&state_2.bv_from_u32(3, 64));
    state_2.add_constraint(&c_2);

    // check that in the first state, `y > 10` (looking up two different ways)
    let y_solution = state
        .get_a_solution_for_bv(&y_1)
        .unwrap()
        .expect("Expected a solution for y")
        .as_u64()
        .unwrap();
    assert!(y_solution > 10);
    let y_solution = state
        .get_a_solution_for_irname(&"test_func".to_owned(), &Name::from_str("y"))
        .unwrap()
        .expect("Expected a solution for y")
        .as_u64()
        .unwrap();
    assert!(y_solution > 10);

    // check that in the second state, `y < 10` (looking up two different ways)
    let y_2_solution = state_2
        .get_a_solution_for_bv(&y_2)
        .unwrap()
        .expect("Expected a solution for y_2")
        .as_u64()
        .unwrap();
    assert!(y_2_solution < 10);
    let y_2_solution = state_2
        .get_a_solution_for_irname(&"test_func".to_owned(), &Name::from_str("y"))
        .unwrap()
        .expect("Expected a solution for y_2")
        .as_u64()
        .unwrap();
    assert!(y_2_solution < 10);
}
