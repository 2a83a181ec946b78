use symstate::bv::BitVec;
use symstate::error::Error;
use symstate::ir::Name;
use symstate::solver::Facade;
use symstate::varmap::{has_nul, make_label, VarMap};
use symstate::solver::new_context;

fn value<'a>(solver: &mut Facade<'a>, bv: &BitVec<'a>) -> u64 {
    solver
        .get_a_solution_for_bv(bv)
        .unwrap()
        .unwrap()
        .as_u64()
        .unwrap()
}

#[test]
fn lookup_gives_the_latest_version() {
    let ctx = new_context();
    let mut solver = Facade::new(&ctx);
    let mut varmap = VarMap::new(&ctx, 20);
    let f = "func".to_owned();
    let x = Name::from_str("x");
    varmap
        .assign_bv_to_name(f.clone(), x.clone(), BitVec::from_u64(&ctx, 3, 32))
        .unwrap();
    assert_eq!(value(&mut solver, varmap.lookup_var(&f, &x)), 3);
    varmap
        .assign_bv_to_name(f.clone(), x.clone(), BitVec::from_u64(&ctx, 5, 32))
        .unwrap();
    assert_eq!(value(&mut solver, varmap.lookup_var(&f, &x)), 5);
}

#[test]
fn new_versions_are_new_unknowns() {
    let ctx = new_context();
    let mut solver = Facade::new(&ctx);
    let mut varmap = VarMap::new(&ctx, 20);
    let f = "func".to_owned();
    let first = varmap
        .new_bv_with_name(f.clone(), Name::from_str("x"), 64)
        .unwrap();
    let second = varmap
        .new_bv_with_name(f.clone(), Name::from_str("x"), 64)
        .unwrap();
    assert!(!first.is_same(&second));
    // the two can differ
    assert_eq!(solver.bvs_must_be_equal(&first, &second), Ok(false));
    assert!(varmap.lookup_var(&f, &Name::from_str("x")).is_same(&second));
}

#[test]
fn names_of_different_functions_are_apart() {
    let ctx = new_context();
    let mut varmap = VarMap::new(&ctx, 20);
    let a = varmap
        .new_bv_with_name("f".to_owned(), Name::Number(1), 8)
        .unwrap();
    let b = varmap
        .new_bv_with_name("g".to_owned(), Name::Number(1), 8)
        .unwrap();
    assert!(!a.is_same(&b));
    assert!(varmap.is_bound(&"f".to_owned(), &Name::Number(1)));
    assert!(!varmap.is_bound(&"h".to_owned(), &Name::Number(1)));
    assert!(!varmap.is_bound(&"f".to_owned(), &Name::Number(2)));
}

#[test]
fn loop_bound_is_enforced() {
    let ctx = new_context();
    let mut varmap = VarMap::new(&ctx, 3);
    let f = "func".to_owned();
    for _ in 0..3 {
        assert!(varmap
            .new_bv_with_name(f.clone(), Name::from_str("x"), 8)
            .is_ok());
    }
    assert_eq!(
        varmap
            .new_bv_with_name(f.clone(), Name::from_str("x"), 8)
            .err(),
        Some(Error::LoopBoundExceeded)
    );
    assert_eq!(
        varmap
            .assign_bv_to_name(f.clone(), Name::from_str("x"), BitVec::zero(&ctx, 8))
            .err(),
        Some(Error::LoopBoundExceeded)
    );
    // another name still has room
    assert!(varmap
        .new_bv_with_name(f.clone(), Name::from_str("y"), 8)
        .is_ok());
}

#[test]
fn overwrite_replaces_without_a_new_version() {
    let ctx = new_context();
    let mut solver = Facade::new(&ctx);
    let mut varmap = VarMap::new(&ctx, 1);
    let f = "func".to_owned();
    let x = Name::from_str("x");
    varmap.new_bv_with_name(f.clone(), x.clone(), 16).unwrap();
    varmap.overwrite_latest_version_of_bv(&f, &x, BitVec::from_u64(&ctx, 77, 16));
    assert_eq!(value(&mut solver, varmap.lookup_var(&f, &x)), 77);
    varmap.overwrite_latest_version_of_bv(&f, &x, BitVec::from_u64(&ctx, 78, 16));
    assert_eq!(value(&mut solver, varmap.lookup_var(&f, &x)), 78);
}

#[test]
fn restore_puts_the_bindings_of_one_function_back() {
    let ctx = new_context();
    let mut solver = Facade::new(&ctx);
    let mut varmap = VarMap::new(&ctx, 20);
    let f = "f".to_owned();
    let g = "g".to_owned();
    let x = Name::from_str("x");
    let y = Name::Number(7);
    varmap
        .assign_bv_to_name(f.clone(), x.clone(), BitVec::from_u64(&ctx, 1, 8))
        .unwrap();
    varmap
        .assign_bv_to_name(f.clone(), y.clone(), BitVec::from_u64(&ctx, 2, 8))
        .unwrap();
    varmap
        .assign_bv_to_name(g.clone(), x.clone(), BitVec::from_u64(&ctx, 3, 8))
        .unwrap();
    let saved = varmap.get_restore_info_for_fn(f.clone());
    assert_eq!(saved.fn_vars.len(), 2);
    varmap
        .assign_bv_to_name(f.clone(), x.clone(), BitVec::from_u64(&ctx, 10, 8))
        .unwrap();
    varmap
        .assign_bv_to_name(f.clone(), y.clone(), BitVec::from_u64(&ctx, 20, 8))
        .unwrap();
    varmap
        .assign_bv_to_name(g.clone(), x.clone(), BitVec::from_u64(&ctx, 30, 8))
        .unwrap();
    varmap.restore_fn_vars(saved);
    assert_eq!(value(&mut solver, varmap.lookup_var(&f, &x)), 1);
    assert_eq!(value(&mut solver, varmap.lookup_var(&f, &y)), 2);
    assert_eq!(value(&mut solver, varmap.lookup_var(&g, &x)), 30);
}

#[test]
fn labels_name_function_name_and_version() {
    assert_eq!(
        make_label(&"main".to_owned(), &Name::from_str("x"), 0),
        "main_x_0"
    );
    assert_eq!(
        make_label(&"main".to_owned(), &Name::Number(12), 305),
        "main_%12_305"
    );
    assert_eq!(make_label(&"".to_owned(), &Name::Number(0), 10), "_%0_10");
}

#[test]
fn nul_in_a_name_is_found_and_refused() {
    assert!(has_nul("a\0b"));
    assert!(!has_nul("ab"));
    assert!(!has_nul(""));
    let ctx = new_context();
    let mut varmap = VarMap::new(&ctx, 20);
    let r = varmap.new_bv_with_name("f".to_owned(), Name::from_str("a\0b"), 8);
    assert!(matches!(r, Err(Error::OtherError(_))));
    assert!(!varmap.is_bound(&"f".to_owned(), &Name::from_str("a\0b")));
}

#[test]
fn duplicate_varmap_is_independent() {
    let ctx = new_context();
    let mut solver = Facade::new(&ctx);
    let mut varmap = VarMap::new(&ctx, 20);
    let f = "f".to_owned();
    let x = Name::from_str("x");
    varmap
        .assign_bv_to_name(f.clone(), x.clone(), BitVec::from_u64(&ctx, 1, 8))
        .unwrap();
    let mut copy = varmap.duplicate();
    copy.assign_bv_to_name(f.clone(), x.clone(), BitVec::from_u64(&ctx, 2, 8))
        .unwrap();
    assert_eq!(value(&mut solver, varmap.lookup_var(&f, &x)), 1);
    assert_eq!(value(&mut solver, copy.lookup_var(&f, &x)), 2);
}
