use unsafe_unicorn::classifier::{LineClassifier, LineFacts, LineKind, LineTally};
use unsafe_unicorn::error::ClocError;
use unsafe_unicorn::patterns::{LineMatches, PatternSet};
use unsafe_unicorn::stats::ClocStats;

fn patterns() -> PatternSet {
    PatternSet::new().unwrap()
}

/// A small source file: three functions, one of them unsafe, and one unsafe
/// block.
fn sample() -> String {
    let lines = vec![
        "use std::vec;",
        "",
        "pub fn foo() {",
        " let x = vec!(0, 1, 2, 3, 4, 5, 6, 7);",
        " let y = 0;",
        " for ele in x.iter() {",
        "     y += ele",
        " }",
        "}",
        "",
        "pub unsafe fn unsafe_foo() {",
        " let x = vec!(0, 1, 2, 3, 4, 5, 6, 7);",
        " let y = 0;",
        " for ele in x.iter() {",
        "     y += ele",
        " }",
        "",
        "}",
        "",
        "// comment test",
        "pub fn bar() {",
        "    let x = vec!(0, 1, 2, 3, 4, 5, 6, 7);",
        "",
        "    unsafe {",
        "        let y = 0;",
        "        for ele in x.iter() {",
        "            y += ele",
        "        }",
        "    }",
        "}",
        "/* total functions: 3",
        " * not safe functions: 1",
        " * not safe blocks: 1",
        " * total lines of not safe: 9 (counting the line with close bracket)",
        " */",
    ];
    let mut text = String::new();
    for line in lines {
        text.push_str(line);
        text.push('\n');
    }
    text
}

fn scan(contents: &str) -> ClocStats {
    let mut stats = ClocStats::new("scanned".to_string());
    assert!(stats.has_room_for(contents));
    stats.cloc_file(&patterns(), contents);
    stats
}

fn no_match() -> LineMatches {
    LineMatches {
        block_comment: false,
        comment: false,
        function: false,
        unsafe_impl: false,
        unsafe_block: false,
        unsafe_opener: false,
        panic: false,
    }
}

fn code_line(
    matches: LineMatches,
    opening: usize,
    closing: usize,
    mentions_unsafe: bool,
) -> LineFacts {
    LineFacts {
        matches,
        empty: false,
        opening_braces: opening,
        closing_braces: closing,
        mentions_unsafe,
    }
}

#[test]
fn it_works() {
    let text = sample();
    let c = ClocStats::from_file(&patterns(), "./resources/test.rs", Some(text.as_str())).unwrap();
    assert_eq!(c.to_vec(), vec!(1, 5, 5, 25, 9, 3, 1, 0));
}

#[test]
fn sample_file_keeps_its_label() {
    let text = sample();
    let c = ClocStats::from_file(&patterns(), "./resources/test.rs", Some(text.as_str())).unwrap();
    assert_eq!(c.name().as_str(), "./resources/test.rs");
    assert_eq!(c.count_fns(), 3);
    assert_eq!(c.count_unsafe_fns(), 1);
    assert_eq!(c.count_unsafe(), 9);
    assert_eq!(c.num_unsafe, 9);
    assert!(!c.is_empty());
}

#[test]
fn one_safe_one_unsafe_function_and_a_one_line_block() {
    let text = "// one\n// two\n// three\n// four\n// five\n\n\n\n\n\n\
fn safe() {\n    unsafe { danger() }\n}\n\
unsafe fn risky() {\n    let a = 1;\n    let b = 2;\n}\n";
    let c = scan(text);
    // files, blank, comment, code, unsafe lines, functions, unsafe functions, panics
    assert_eq!(c.to_vec(), vec![1, 5, 5, 7, 3, 2, 1, 0]);
}

#[test]
fn every_line_lands_in_one_class() {
    let text = sample();
    let c = scan(&text);
    let counts = c.to_vec();
    assert_eq!(counts[1] + counts[2] + counts[3], text.lines().count());
    assert_eq!(counts[1] + counts[2] + counts[3], 35);
}

#[test]
fn unsafe_functions_never_outnumber_functions() {
    let c = scan("unsafe fn a() {\n}\nfn b() {\n}\nunsafe fn c() {\n}\n");
    assert_eq!(c.count_fns(), 3);
    assert_eq!(c.count_unsafe_fns(), 2);
    assert!(c.count_unsafe_fns() <= c.count_fns());
}

#[test]
fn classifying_twice_gives_the_same_record() {
    let text = sample();
    let first = scan(&text);
    let second = scan(&text);
    assert_eq!(first, second);
    assert_eq!(first.to_vec(), second.to_vec());
}

#[test]
fn a_second_file_adds_to_the_record() {
    let text = sample();
    let mut c = scan(&text);
    c.cloc_file(&patterns(), &text);
    assert_eq!(c.to_vec(), vec![2, 10, 10, 50, 18, 6, 2, 0]);
}

#[test]
fn the_classifier_starts_afresh_with_every_file() {
    // the region that the first file leaves open does not reach into the second
    let mut c = scan("unsafe fn open() {\n    let a = 1;\n");
    assert_eq!(c.to_vec(), vec![1, 0, 0, 2, 1, 1, 1, 0]);
    c.cloc_file(&patterns(), "let b = 2;\n");
    assert_eq!(c.to_vec(), vec![2, 0, 0, 3, 1, 1, 1, 0]);
}

#[test]
fn empty_contents_count_as_a_file_without_lines() {
    let c = scan("");
    assert_eq!(c.to_vec(), vec![1, 0, 0, 0, 0, 0, 0, 0]);
    assert!(c.is_empty());
}

#[test]
fn line_endings_are_not_part_of_a_line() {
    // with the terminator left on, no line here would be blank
    let c = scan("\r\n\n\r\nlet a = 1;\r\n");
    assert_eq!(c.to_vec(), vec![1, 3, 0, 1, 0, 0, 0, 0]);
}

#[test]
fn the_last_line_needs_no_terminator() {
    let with = scan("let a = 1;\nlet b = 2;\n");
    let without = scan("let a = 1;\nlet b = 2;");
    assert_eq!(with.to_vec(), vec![1, 0, 0, 2, 0, 0, 0, 0]);
    assert_eq!(with.to_vec(), without.to_vec());
}

#[test]
fn a_lone_carriage_return_is_no_blank_line() {
    let c = scan("\r");
    assert_eq!(c.to_vec(), vec![1, 0, 0, 1, 0, 0, 0, 0]);
}

#[test]
fn every_brace_on_a_line_counts() {
    // two braces open on one line, so two closing lines do not end the region
    let c = scan(
        "unsafe fn f() {\n    g(|| { h({\n    })\n    })\n    let a = 1;\n}\nlet b = 2;\n",
    );
    assert_eq!(c.to_vec(), vec![1, 0, 0, 7, 4, 1, 1, 0]);
}

#[test]
fn an_unsafe_impl_counts_once_more_inside_an_open_region() {
    let c = scan("unsafe fn f() {\n    unsafe impl Send for X {}\n}\n");
    // the second line lies in the open region, is an unsafe impl, and nothing else
    assert_eq!(c.to_vec(), vec![1, 0, 0, 3, 2, 1, 1, 0]);
}

#[test]
fn a_block_comment_start_without_indent_is_code() {
    let c = scan("/* note\n * more\n */\n");
    assert_eq!(c.to_vec(), vec![1, 0, 2, 1, 0, 0, 0, 0]);
}

#[test]
fn a_delimiter_line_is_a_comment_whatever_else_it_holds() {
    let c = scan("``` fn f() { panic!() }\n");
    assert_eq!(c.to_vec(), vec![1, 0, 1, 0, 0, 0, 0, 0]);
}

#[test]
fn panics_are_counted_on_code_lines() {
    let c = scan("fn f() { panic!(\"no\") }\n// panic\nlet p = panic_count;\n");
    assert_eq!(c.to_vec(), vec![1, 0, 1, 2, 0, 1, 0, 2]);
}

#[test]
fn the_rules_are_told_apart() {
    let p = patterns();
    assert_eq!(p.matches("```"), LineMatches { block_comment: true, ..no_match() });
    assert_eq!(p.matches("// note"), LineMatches { comment: true, ..no_match() });
    assert_eq!(p.matches(" * note"), LineMatches { comment: true, ..no_match() });
    assert_eq!(p.matches("/* note"), no_match());
    assert_eq!(p.matches("pub fn foo() {"), LineMatches { function: true, ..no_match() });
    assert_eq!(
        p.matches("unsafe impl Send for X {}"),
        LineMatches { unsafe_impl: true, ..no_match() }
    );
    assert_eq!(
        p.matches("    unsafe { x }"),
        LineMatches { unsafe_block: true, unsafe_opener: true, ..no_match() }
    );
    assert_eq!(p.matches("    unsafe {"), LineMatches { unsafe_opener: true, ..no_match() });
    assert_eq!(p.matches("panic!()"), LineMatches { panic: true, ..no_match() });
    assert_eq!(p.matches("let a = 1;"), no_match());
    assert_eq!(p.matches(""), no_match());
}

#[test]
fn the_facts_of_a_line() {
    let facts = LineFacts::of(&patterns(), "pub unsafe fn f() { g({}) }");
    assert_eq!(
        facts,
        LineFacts {
            matches: LineMatches { function: true, ..no_match() },
            empty: false,
            opening_braces: 2,
            closing_braces: 2,
            mentions_unsafe: true,
        }
    );
    let blank = LineFacts::of(&patterns(), "");
    assert!(blank.empty);
    assert_eq!(blank.opening_braces, 0);
    assert!(!blank.mentions_unsafe);
}

#[test]
fn an_unsafe_function_opens_a_region_that_braces_close() {
    let mut state = LineClassifier::new();
    let signature = code_line(LineMatches { function: true, ..no_match() }, 1, 0, true);
    assert_eq!(
        state.classify(&signature),
        LineTally {
            kind: LineKind::Code,
            unsafe_lines: 0,
            function: true,
            unsafe_function: true,
            panic: false,
        }
    );
    assert_eq!(state.bracket_depth(), 1);
    assert!(state.inside_unsafe_region());

    let inner = code_line(no_match(), 2, 0, false);
    assert_eq!(state.classify(&inner).unsafe_lines, 1);
    assert_eq!(state.bracket_depth(), 3);

    let closing = code_line(no_match(), 0, 3, false);
    let tally = state.classify(&closing);
    assert_eq!(tally.kind, LineKind::Code);
    assert_eq!(tally.unsafe_lines, 0);
    assert_eq!(state.bracket_depth(), 0);
    assert!(!state.inside_unsafe_region());
}

#[test]
fn a_safe_function_opens_no_region() {
    let mut state = LineClassifier::new();
    let signature = code_line(LineMatches { function: true, ..no_match() }, 1, 0, false);
    let tally = state.classify(&signature);
    assert!(tally.function);
    assert!(!tally.unsafe_function);
    assert_eq!(state.bracket_depth(), 0);
    assert!(!state.inside_unsafe_region());
}

#[test]
fn a_line_can_count_as_unsafe_three_times() {
    let mut state = LineClassifier::new();
    state.classify(&code_line(LineMatches { unsafe_opener: true, ..no_match() }, 1, 0, true));
    assert_eq!(state.bracket_depth(), 1);
    let line = code_line(
        LineMatches { unsafe_impl: true, unsafe_block: true, unsafe_opener: true, ..no_match() },
        1,
        1,
        true,
    );
    assert_eq!(state.classify(&line).unsafe_lines, 3);
    // the block closed on its own line: it opens nothing
    assert_eq!(state.bracket_depth(), 1);
}

#[test]
fn a_function_signature_beats_the_block_rules() {
    let mut state = LineClassifier::new();
    let line = code_line(
        LineMatches { function: true, unsafe_block: true, unsafe_opener: true, ..no_match() },
        1,
        1,
        false,
    );
    let tally = state.classify(&line);
    assert_eq!(tally.unsafe_lines, 0);
    assert!(tally.function);
    assert!(!state.inside_unsafe_region());
}

#[test]
fn a_region_stays_open_below_zero() {
    let mut state = LineClassifier::new();
    state.classify(&code_line(LineMatches { unsafe_opener: true, ..no_match() }, 1, 0, true));
    assert_eq!(state.classify(&code_line(no_match(), 0, 2, false)).unsafe_lines, 1);
    assert_eq!(state.bracket_depth(), -1);
    assert!(state.inside_unsafe_region());
    assert_eq!(state.classify(&code_line(no_match(), 1, 0, false)).unsafe_lines, 0);
    assert!(!state.inside_unsafe_region());
}

#[test]
fn comments_and_blanks_end_the_work_on_a_line() {
    let mut state = LineClassifier::new();
    let delimiter = LineFacts {
        matches: LineMatches { block_comment: true, function: true, panic: true, ..no_match() },
        empty: false,
        opening_braces: 1,
        closing_braces: 0,
        mentions_unsafe: true,
    };
    let quiet = LineTally {
        kind: LineKind::Comment,
        unsafe_lines: 0,
        function: false,
        unsafe_function: false,
        panic: false,
    };
    assert_eq!(state.classify(&delimiter), quiet);
    assert!(state.inside_block_comment());
    assert_eq!(state.classify(&delimiter), quiet);
    assert!(!state.inside_block_comment());

    let comment = LineFacts {
        matches: LineMatches { comment: true, unsafe_impl: true, ..no_match() },
        empty: true,
        opening_braces: 0,
        closing_braces: 0,
        mentions_unsafe: false,
    };
    assert_eq!(state.classify(&comment), quiet);
    assert!(!state.inside_block_comment());

    let blank = LineFacts { matches: no_match(), empty: true, ..comment };
    assert_eq!(state.classify(&blank), LineTally { kind: LineKind::Blank, ..quiet });
    assert!(!state.inside_unsafe_region());
}

#[test]
fn braces_on_comment_lines_leave_the_region_alone() {
    let c = scan("unsafe fn f() {\n// }\n\n    let a = 1;\n}\n");
    assert_eq!(c.to_vec(), vec![1, 1, 1, 3, 1, 1, 1, 0]);
}

#[test]
fn a_tally_is_added_counter_by_counter() {
    let mut stats = ClocStats::new("unit".to_string());
    stats.record(&LineTally {
        kind: LineKind::Code,
        unsafe_lines: 3,
        function: true,
        unsafe_function: true,
        panic: true,
    });
    stats.record(&LineTally {
        kind: LineKind::Blank,
        unsafe_lines: 0,
        function: false,
        unsafe_function: false,
        panic: false,
    });
    assert_eq!(stats.to_vec(), vec![0, 1, 0, 1, 3, 1, 1, 1]);
}

#[test]
fn only_rust_files_are_taken() {
    let made = ClocStats::from_file(&patterns(), "notes.txt", Some("fn f() {}\n"));
    assert_eq!(made, Err(ClocError::UnsupportedFileType));
    let bare = ClocStats::from_file(&patterns(), "Makefile", None);
    assert_eq!(bare, Err(ClocError::UnsupportedFileType));
    assert_eq!(ClocError::UnsupportedFileType.describe(), "Not a rust file");
}

#[test]
fn a_hidden_file_named_like_the_extension_is_no_source_file() {
    let made = ClocStats::from_file(&patterns(), "src/.rs", Some("fn f() {}\n"));
    assert_eq!(made, Err(ClocError::UnsupportedFileType));
    let plain = ClocStats::from_file(&patterns(), "src.rs/notes", Some("fn f() {}\n"));
    assert_eq!(plain, Err(ClocError::UnsupportedFileType));
    let taken = ClocStats::from_file(&patterns(), "src.d/a.rs", Some("fn f() {}\n")).unwrap();
    assert_eq!(taken.to_vec(), vec![1, 0, 0, 1, 0, 1, 0, 0]);
}

#[test]
fn a_path_that_names_no_file_is_refused() {
    let made = ClocStats::from_file(&patterns(), "src/lib.rs", None);
    assert_eq!(made, Err(ClocError::NotAFile));
}

#[test]
fn a_full_record_has_no_room() {
    let mut stats = ClocStats::new("unit".to_string());
    stats.num_unsafe = usize::MAX - 2;
    assert!(stats.has_room_for(""));
    assert!(!stats.has_room_for("let a = 1;\n"));
}
