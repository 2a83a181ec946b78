use symstate::bv::BitVec;
use symstate::config::Config;
use symstate::ir::{Function, Module, Name, Project};
use symstate::location::Location;
use symstate::solver::Facade;
use symstate::state::State;
use symstate::watchpoints::{Watchpoint, Watchpoints};
use symstate::solver::new_context;

fn project() -> Project {
    Project::from_module(Module {
        name: "m".to_owned(),
        functions: vec![Function::new("f")],
        global_vars: vec![],
        global_aliases: vec![],
    })
}

fn start<'p, 'ctx>(ctx: &'ctx z3::Context, project: &'p Project) -> State<'p, 'ctx> {
    let (func, module) = project.get_func_by_name("f").unwrap();
    let loc = Location {
        module,
        func,
        bbname: Name::Number(0),
        instr: 0,
    };
    State::new(ctx, project, loc, Config::default()).unwrap()
}

fn names(state: &mut State) -> Vec<(String, bool)> {
    state
        .take_watch_events()
        .into_iter()
        .map(|e| (e.name, e.is_write))
        .collect()
}

#[test]
fn watchpoints_have_both_ends() {
    let w = Watchpoint::new(0x1000, 8);
    assert_eq!(w.low, 0x1000);
    assert_eq!(w.high, 0x1007);
    let one = Watchpoint::new(u64::MAX, 1);
    assert_eq!(one.low, u64::MAX);
    assert_eq!(one.high, u64::MAX);
}

#[test]
fn adding_and_removing_say_what_was_there() {
    let ctx = new_context();
    let project = project();
    let mut state = start(&ctx, &project);
    assert!(!state.add_mem_watchpoint("w".to_owned(), Watchpoint::new(0x1000, 8)));
    assert!(state.add_mem_watchpoint("w".to_owned(), Watchpoint::new(0x2000, 8)));
    assert!(!state.enable_watchpoint("v"));
    assert!(!state.disable_watchpoint("v"));
    assert!(state.disable_watchpoint("w"));
    assert!(state.disable_watchpoint("w"));
    assert!(state.enable_watchpoint("w"));
    assert!(!state.rm_mem_watchpoint("v"));
    assert!(state.rm_mem_watchpoint("w"));
    assert!(!state.rm_mem_watchpoint("w"));
}

#[test]
fn accesses_that_touch_a_watchpoint_are_logged() {
    let ctx = new_context();
    let project = project();
    let mut state = start(&ctx, &project);
    state.add_mem_watchpoint("w".to_owned(), Watchpoint::new(0x1004, 4));
    let at = |a: u64| BitVec::from_u64(&ctx, a, 64);

    // below, above
    state.read(&at(0x1000), 32).unwrap();
    state.read(&at(0x1008), 64).unwrap();
    state.write(&at(0x1003), BitVec::zero(&ctx, 8)).unwrap();
    assert_eq!(names(&mut state), vec![]);

    // the first byte, the last byte, all of it and more, within it
    state.read(&at(0x1004), 8).unwrap();
    state.write(&at(0x1007), BitVec::zero(&ctx, 8)).unwrap();
    state.read(&at(0x1000), 64).unwrap();
    state.write(&at(0x1005), BitVec::zero(&ctx, 16)).unwrap();
    assert_eq!(
        names(&mut state),
        vec![
            ("w".to_owned(), false),
            ("w".to_owned(), true),
            ("w".to_owned(), false),
            ("w".to_owned(), true),
        ]
    );
    // the log was taken
    assert_eq!(names(&mut state), vec![]);

    // an access of less than a byte counts for a byte
    state.read(&at(0x1004), 1).unwrap();
    assert_eq!(names(&mut state), vec![("w".to_owned(), false)]);
}

#[test]
fn disabled_watchpoints_are_silent() {
    let ctx = new_context();
    let project = project();
    let mut state = start(&ctx, &project);
    state.add_mem_watchpoint("a".to_owned(), Watchpoint::new(0x1000, 8));
    state.add_mem_watchpoint("b".to_owned(), Watchpoint::new(0x1004, 8));
    let addr = BitVec::from_u64(&ctx, 0x1004, 64);
    state.read(&addr, 8).unwrap();
    let mut both = names(&mut state);
    both.sort();
    assert_eq!(both, vec![("a".to_owned(), false), ("b".to_owned(), false)]);
    state.disable_watchpoint("a");
    state.read(&addr, 8).unwrap();
    assert_eq!(names(&mut state), vec![("b".to_owned(), false)]);
    state.enable_watchpoint("a");
    state.rm_mem_watchpoint("b");
    state.read(&addr, 8).unwrap();
    assert_eq!(names(&mut state), vec![("a".to_owned(), false)]);
}

#[test]
fn symbolic_addresses_trigger_where_they_can_touch() {
    let ctx = new_context();
    let project = project();
    let mut state = start(&ctx, &project);
    state.add_mem_watchpoint("w".to_owned(), Watchpoint::new(0x1000, 8));
    let p = state.new_bv_with_name(Name::from_str("p"), 64).unwrap();
    let aligned = p
        .and(&BitVec::from_u64(&ctx, 7, 64))
        ._eq(&BitVec::zero(&ctx, 64));
    state.add_constraint(&aligned);
    state.read(&p, 64).unwrap();
    assert_eq!(names(&mut state), vec![("w".to_owned(), false)]);
    state.add_constraint(&p.ugt(&BitVec::from_u64(&ctx, 0x2000, 64)));
    state.add_constraint(&p.ult(&BitVec::from_u64(&ctx, 0x3000, 64)));
    state.read(&p, 64).unwrap();
    assert_eq!(names(&mut state), vec![]);
    // checkpoints leave the watchpoints as they are
    state.save_backtracking_point(Name::Number(1), BitVec::from_bool(&ctx, true));
    state.add_mem_watchpoint("later".to_owned(), Watchpoint::new(0x2000, 0x1000));
    state.revert_to_backtracking_point().unwrap();
    state.read(&p, 64).unwrap();
    assert_eq!(names(&mut state), vec![("later".to_owned(), false)]);
}

#[test]
fn a_watchpoint_is_triggered_by_what_can_touch_it() {
    let ctx = new_context();
    let mut solver = Facade::new(&ctx);
    let w = Watchpoint::new(10, 10);
    let at = |a: u64| BitVec::from_u64(&ctx, a, 64);
    let cases = vec![
        (0, 9, false),
        (0, 10, true),
        (0, 30, true),
        (12, 13, true),
        (19, 25, true),
        (20, 25, false),
    ];
    for (low, high, expected) in cases {
        assert_eq!(
            Watchpoints::is_watchpoint_triggered(&mut solver, &w, &at(low), &at(high)),
            Ok(expected)
        );
    }
}

fn hit<'ctx>(
    w: &Watchpoints,
    solver: &mut Facade<'ctx>,
    ctx: &'ctx z3::Context,
    a: u64,
) -> Vec<String> {
    let mut v = w
        .process_watchpoint_triggers(solver, &BitVec::from_u64(ctx, a, 64), 8)
        .unwrap();
    v.sort();
    v
}

#[test]
fn initial_watchpoints_are_enabled() {
    let ctx = new_context();
    let mut solver = Facade::new(&ctx);
    let initial = vec![
        ("a".to_owned(), Watchpoint::new(0, 8)),
        ("b".to_owned(), Watchpoint::new(8, 8)),
        ("a".to_owned(), Watchpoint::new(16, 8)),
    ];
    let mut w = Watchpoints::from_iter(&initial);
    assert_eq!(hit(&w, &mut solver, &ctx, 0), Vec::<String>::new());
    assert_eq!(hit(&w, &mut solver, &ctx, 8), vec!["b".to_owned()]);
    assert_eq!(hit(&w, &mut solver, &ctx, 16), vec!["a".to_owned()]);
    let copy = w.duplicate();
    assert!(w.remove("a"));
    assert_eq!(hit(&w, &mut solver, &ctx, 16), Vec::<String>::new());
    assert_eq!(hit(&copy, &mut solver, &ctx, 16), vec!["a".to_owned()]);
}

#[test]
fn watchpoints_of_one_access_come_in_the_order_of_their_names() {
    let ctx = new_context();
    let project = project();
    let mut state = start(&ctx, &project);
    state.add_mem_watchpoint("middle".to_owned(), Watchpoint::new(0x1000, 8));
    state.add_mem_watchpoint("zebra".to_owned(), Watchpoint::new(0x1004, 4));
    state.add_mem_watchpoint("apple".to_owned(), Watchpoint::new(0x0ff0, 0x20));
    state.add_mem_watchpoint("Upper".to_owned(), Watchpoint::new(0x1000, 1));
    state.add_mem_watchpoint("far".to_owned(), Watchpoint::new(0x9000, 8));
    let addr = BitVec::from_u64(&ctx, 0x1000, 64);
    state.read(&addr, 64).unwrap();
    assert_eq!(
        names(&mut state),
        vec![
            ("Upper".to_owned(), false),
            ("apple".to_owned(), false),
            ("middle".to_owned(), false),
            ("zebra".to_owned(), false),
        ]
    );
    state.disable_watchpoint("middle");
    state.write(&addr, BitVec::from_u64(&ctx, 1, 8)).unwrap();
    assert_eq!(
        names(&mut state),
        vec![("Upper".to_owned(), true), ("apple".to_owned(), true)]
    );
}

#[test]
fn accesses_succeed_where_no_watchpoint_is_enabled() {
    let ctx = new_context();
    let project = project();
    let mut state = start(&ctx, &project);
    let addr = BitVec::from_u64(&ctx, 0x1000, 64);
    assert!(state.write(&addr, BitVec::from_u64(&ctx, 7, 64)).is_ok());
    assert!(state.read(&addr, 64).is_ok());
    state.add_mem_watchpoint("w".to_owned(), Watchpoint::new(0x1000, 8));
    state.disable_watchpoint("w");
    // even where nothing can hold, so that the solver has nothing to find
    state.add_constraint(&BitVec::from_bool(&ctx, false));
    assert!(state.write(&addr, BitVec::from_u64(&ctx, 8, 64)).is_ok());
    assert!(state.read(&addr, 64).is_ok());
    assert_eq!(names(&mut state), vec![]);
}
