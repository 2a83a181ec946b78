use symstate::bv::BitVec;
use symstate::config::Config;
use symstate::ir::{Function, Module, Name, Project};
use symstate::location::{Location, PathEntry};
use symstate::state::State;
use symstate::text::{join_lines, lines_of, pretty_bb_name, sorted_lines};
use symstate::solver::new_context;

#[test]
fn block_names_are_written_short() {
    assert_eq!(pretty_bb_name(&Name::from_str("entry")), "\"entry\"");
    assert_eq!(pretty_bb_name(&Name::from_str("a\"b")), "\"a\\\"b\"");
    assert_eq!(pretty_bb_name(&Name::from_str("")), "\"\"");
    assert_eq!(pretty_bb_name(&Name::Number(0)), "%0");
    assert_eq!(pretty_bb_name(&Name::Number(1234567890)), "%1234567890");
}

#[test]
fn path_entries_are_written_out() {
    let entry = PathEntry {
        modname: "mod.bc".to_owned(),
        funcname: "main".to_owned(),
        bbname: Name::Number(3),
        instr: 12,
    };
    assert_eq!(entry.to_pretty_string(), "{mod.bc: main %3, instr 12}");
    let entry = PathEntry {
        modname: "m".to_owned(),
        funcname: "f".to_owned(),
        bbname: Name::from_str("bb"),
        instr: 0,
    };
    assert_eq!(entry.to_pretty_string(), "{m: f \"bb\", instr 0}");
}

#[test]
fn lines_are_joined_each_after_a_line_end() {
    assert_eq!(join_lines(&vec![]), "");
    assert_eq!(join_lines(&vec!["a".to_owned()]), "\na");
    assert_eq!(
        join_lines(&vec!["a".to_owned(), "".to_owned(), "b c".to_owned()]),
        "\na\n\nb c"
    );
}

#[test]
fn backtraces_start_at_the_current_place() {
    let ctx = new_context();
    let project = Project::from_module(Module {
        name: "m".to_owned(),
        functions: vec![Function::new("main"), Function::new("callee")],
        global_vars: vec![],
        global_aliases: vec![],
    });
    let (main, module) = project.get_func_by_name("main").unwrap();
    let (callee, _) = project.get_func_by_name("callee").unwrap();
    let loc = Location {
        module,
        func: main,
        bbname: Name::from_str("start"),
        instr: 2,
    };
    let mut state = State::new(&ctx, &project, loc, Config::default()).unwrap();
    assert_eq!(
        state.pretty_llvm_backtrace(),
        "  #1: {m: main \"start\", instr 2}\n"
    );
    state.push_callsite();
    state.cur_loc = Location {
        module,
        func: callee,
        bbname: Name::Number(1),
        instr: 5,
    };
    state.push_callsite();
    state.cur_loc = Location {
        module,
        func: callee,
        bbname: Name::Number(0),
        instr: 0,
    };
    assert_eq!(
        state.pretty_llvm_backtrace(),
        "  #1: {m: callee %0, instr 0}\n  #2: {m: callee %1, instr 5}\n  #3: {m: main \"start\", instr 2}\n"
    );
}

#[test]
fn assignments_are_written_line_by_line_in_order() {
    let ctx = new_context();
    let project = Project::from_module(Module {
        name: "m".to_owned(),
        functions: vec![Function::new("main")],
        global_vars: vec![],
        global_aliases: vec![],
    });
    let (main, module) = project.get_func_by_name("main").unwrap();
    let loc = Location {
        module,
        func: main,
        bbname: Name::Number(0),
        instr: 0,
    };
    let mut state = State::new(&ctx, &project, loc, Config::default()).unwrap();
    let b = state.new_bv_with_name(Name::from_str("bbb"), 8).unwrap();
    let a = state.new_bv_with_name(Name::from_str("aaa"), 8).unwrap();
    state.add_constraint(&a._eq(&BitVec::from_u64(&ctx, 1, 8)));
    state.add_constraint(&b._eq(&BitVec::from_u64(&ctx, 2, 8)));
    let text = state.current_assignments_as_pretty_string().unwrap();
    assert!(text.starts_with('\n'));
    let lines: Vec<&str> = text.lines().skip(1).collect();
    let mut sorted = lines.clone();
    sorted.sort();
    assert_eq!(lines, sorted);
    assert!(text.contains("main_aaa_0"));
    assert!(text.contains("main_bbb_0"));
    state.add_constraint(&BitVec::from_bool(&ctx, false));
    assert_eq!(
        state.current_assignments_as_pretty_string().unwrap(),
        "<state is unsatisfiable>"
    );
}

#[test]
fn a_text_is_split_at_its_line_ends() {
    let none: Vec<String> = vec![];
    assert_eq!(lines_of(""), none);
    assert_eq!(lines_of("a"), vec!["a"]);
    assert_eq!(lines_of("a\n"), vec!["a"]);
    assert_eq!(lines_of("a\nb"), vec!["a", "b"]);
    assert_eq!(lines_of("a\r\nb\r\n"), vec!["a", "b"]);
    assert_eq!(lines_of("\n\nx"), vec!["", "", "x"]);
    assert_eq!(lines_of("\r\n"), vec![""]);
    // a carriage return is part of a line unless a line feed follows it
    assert_eq!(lines_of("a\rb\n"), vec!["a\rb"]);
    assert_eq!(lines_of("a\r\r\n"), vec!["a\r"]);
    assert_eq!(lines_of("last\r"), vec!["last\r"]);
    // characters of more than one byte
    assert_eq!(lines_of("é→\nü\n"), vec!["é→", "ü"]);
}

#[test]
fn the_split_is_that_of_the_standard_library() {
    let samples = [
        "",
        "\n",
        "one",
        "one\ntwo\n",
        "one\r\ntwo\r\n\r\n",
        "x\ry\n\rz",
        "tail\r",
        "\n\n\n",
        "  spaced  \n\ttabbed",
    ];
    for text in samples {
        let std_lines: Vec<String> = text.lines().map(|line| line.to_owned()).collect();
        assert_eq!(lines_of(text), std_lines, "for {:?}", text);
    }
}

#[test]
fn lines_are_sorted_by_their_characters() {
    assert_eq!(sorted_lines(""), "");
    assert_eq!(sorted_lines("b\na\n"), "\na\nb");
    assert_eq!(sorted_lines("b\na\nab\n\nB"), "\n\nB\na\nab\nb");
    // equal lines stay, each of them
    assert_eq!(sorted_lines("x\ny\nx"), "\nx\nx\ny");
    // a shorter line comes before a longer one that starts with it
    assert_eq!(sorted_lines("10\n1\n9"), "\n1\n10\n9");
    // by character, not by byte length
    assert_eq!(sorted_lines("é\nz\n~"), "\nz\n~\né");
}

#[test]
fn places_are_written_out() {
    let project = Project::from_module(Module {
        name: "mod.bc".to_owned(),
        functions: vec![Function::new("main")],
        global_vars: vec![],
        global_aliases: vec![],
    });
    let (func, module) = project.get_func_by_name("main").unwrap();
    let place = Location {
        module,
        func,
        bbname: Name::Number(3),
        instr: 12,
    };
    assert_eq!(
        place.to_pretty_string(),
        "<Location: module \"mod.bc\", func \"main\", bb %3, instr 12>"
    );
    let place = Location {
        module,
        func,
        bbname: Name::from_str("entry"),
        instr: 0,
    };
    assert_eq!(
        place.to_pretty_string(),
        "<Location: module \"mod.bc\", func \"main\", bb \"entry\", instr 0>"
    );
}

#[test]
fn a_place_becomes_a_step_of_a_path() {
    let project = Project::from_module(Module {
        name: "mod.bc".to_owned(),
        functions: vec![Function::new("main")],
        global_vars: vec![],
        global_aliases: vec![],
    });
    let (func, module) = project.get_func_by_name("main").unwrap();
    let place = Location {
        module,
        func,
        bbname: Name::from_str("body"),
        instr: 4,
    };
    let expected = PathEntry {
        modname: "mod.bc".to_owned(),
        funcname: "main".to_owned(),
        bbname: Name::from_str("body"),
        instr: 4,
    };
    assert_eq!(PathEntry::from_location(&place), expected);
    assert_eq!(PathEntry::from(place), expected);
}
