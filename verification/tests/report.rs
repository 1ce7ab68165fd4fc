use unsafe_unicorn::cloc::{Cloc, ClocVerbosity};
use unsafe_unicorn::patterns::PatternSet;
use unsafe_unicorn::stats::{ClocStats, Ratio, SummaryType};

/// A record named `name` with `marked` unsafe lines among `marked + plain`
/// code lines.
fn record(name: &str, marked: usize, plain: usize) -> ClocStats {
    let patterns = PatternSet::new().unwrap();
    let mut text = String::new();
    for _ in 0..marked {
        text.push_str("unsafe { call() }\n");
    }
    for _ in 0..plain {
        text.push_str("let a = 1;\n");
    }
    let mut stats = ClocStats::new(name.to_string());
    stats.cloc_file(&patterns, &text);
    stats
}

fn names(cloc: &Cloc) -> Vec<String> {
    cloc.stats().iter().map(|s| s.name().clone()).collect()
}

fn mixed() -> Cloc {
    let mut cloc = Cloc::new();
    cloc.add_stats(record("a", 1, 1));
    cloc.add_stats(record("b", 0, 1));
    cloc.add_stats(record("c", 2, 2));
    cloc.add_stats(record("d", 1, 0));
    cloc.add_stats(record("e", 0, 0));
    cloc.add_stats(record("f", 1, 3));
    cloc
}

#[test]
fn a_new_collection_is_empty_and_gathers_per_crate() {
    let cloc = Cloc::new();
    assert_eq!(cloc.len(), 0);
    assert!(cloc.stats().is_empty());
    assert_eq!(cloc.verbose(), ClocVerbosity::Crate);
}

#[test]
fn records_are_kept_in_the_order_added() {
    let mut cloc = mixed();
    assert_eq!(cloc.len(), 6);
    assert_eq!(names(&cloc), vec!["a", "b", "c", "d", "e", "f"]);
    cloc.append_stats(vec![record("g", 0, 0), record("h", 0, 0)]);
    assert_eq!(names(&cloc), vec!["a", "b", "c", "d", "e", "f", "g", "h"]);
    cloc.clear_stats();
    assert_eq!(cloc.len(), 0);
}

#[test]
fn the_mode_can_be_changed_without_touching_the_records() {
    let mut cloc = mixed();
    cloc.set_verbose(ClocVerbosity::File);
    assert_eq!(cloc.verbose(), ClocVerbosity::File);
    assert_eq!(cloc.len(), 6);
    cloc.set_verbose(ClocVerbosity::TopLevel);
    assert_eq!(cloc.verbose(), ClocVerbosity::TopLevel);
    assert_eq!(names(&cloc), vec!["a", "b", "c", "d", "e", "f"]);
}

#[test]
fn sorting_puts_the_larger_share_first_and_keeps_ties_in_order() {
    let mut cloc = mixed();
    cloc.sort_stats();
    // d: 1/1, a: 1/2, c: 2/4, f: 1/4, b: 0/1, e: no code
    assert_eq!(names(&cloc), vec!["d", "a", "c", "f", "b", "e"]);
    cloc.sort_stats();
    assert_eq!(names(&cloc), vec!["d", "a", "c", "f", "b", "e"]);
}

#[test]
fn sorting_an_empty_collection_leaves_it_empty() {
    let mut cloc = Cloc::new();
    cloc.sort_stats();
    assert_eq!(cloc.len(), 0);
}

#[test]
fn the_top_are_the_first_of_the_ranking_with_unsafe_lines() {
    let mut cloc = mixed();
    cloc.set_verbose(ClocVerbosity::File);
    let top = cloc.top_unsafe(2);
    assert_eq!(names(&top), vec!["d", "a"]);
    assert_eq!(top.verbose(), ClocVerbosity::File);
    // the collection itself is ranked, and complete
    assert_eq!(names(&cloc), vec!["d", "a", "c", "f", "b", "e"]);
}

#[test]
fn the_top_never_hold_a_record_without_unsafe_lines() {
    let mut cloc = mixed();
    let top = cloc.top_unsafe(100);
    assert_eq!(names(&top), vec!["d", "a", "c", "f"]);
    for s in top.stats() {
        assert!(s.num_unsafe > 0);
    }
    for pair in top.stats().windows(2) {
        assert!(!pair[0].unsafe_ratio().less_than(&pair[1].unsafe_ratio()));
    }
}

#[test]
fn the_top_can_be_empty() {
    let mut cloc = mixed();
    assert_eq!(cloc.top_unsafe(0).len(), 0);
    let mut safe = Cloc::new();
    safe.add_stats(record("b", 0, 4));
    safe.add_stats(record("e", 0, 0));
    let top = safe.top_unsafe(5);
    assert_eq!(top.len(), 0);
    assert_eq!(top.verbose(), ClocVerbosity::Crate);
}

#[test]
fn the_share_of_unsafe_lines_is_exact() {
    let nine = record("nine", 9, 16);
    assert_eq!(nine.unsafe_ratio().numer(), 9);
    assert_eq!(nine.unsafe_ratio().denom(), 25);
    assert_eq!(nine.unsafe_ratio(), Ratio::of(9, 25));
}

#[test]
fn a_share_of_nothing_is_zero() {
    let none = record("none", 0, 0);
    assert_eq!(none.unsafe_ratio().numer(), 0);
    assert_eq!(none.unsafe_ratio().denom(), 1);
    assert_eq!(none.unsafe_fn_ratio().numer(), 0);
    assert_eq!(none.unsafe_fn_ratio().denom(), 1);
    assert_eq!(Ratio::of(7, 0), Ratio::of(0, 0));
}

#[test]
fn shares_are_compared_as_fractions() {
    assert!(Ratio::of(1, 3).less_than(&Ratio::of(1, 2)));
    assert!(!Ratio::of(1, 2).less_than(&Ratio::of(1, 3)));
    assert!(!Ratio::of(1, 2).less_than(&Ratio::of(2, 4)));
    assert!(!Ratio::of(2, 4).less_than(&Ratio::of(1, 2)));
    assert!(Ratio::of(0, 0).less_than(&Ratio::of(1, usize::MAX)));
    assert!(Ratio::of(usize::MAX - 1, usize::MAX).less_than(&Ratio::of(usize::MAX, usize::MAX)));
}

#[test]
fn the_share_of_unsafe_functions() {
    let patterns = PatternSet::new().unwrap();
    let mut stats = ClocStats::new("fns".to_string());
    stats.cloc_file(&patterns, "unsafe fn a() {\n}\nfn b() {\n}\nfn c() {\n}\n");
    assert_eq!(stats.unsafe_fn_ratio(), Ratio::of(1, 3));
}

#[test]
fn the_summary_is_the_row_of_a_report() {
    let patterns = PatternSet::new().unwrap();
    let mut stats = ClocStats::new("row".to_string());
    stats.cloc_file(
        &patterns,
        "// note\n\nunsafe fn a() {\n    panic!()\n}\nfn b() {\n}\n",
    );
    assert_eq!(
        stats.summarize(),
        vec![
            SummaryType::Int(1),
            SummaryType::Int(1),
            SummaryType::Int(1),
            SummaryType::Int(5),
            SummaryType::Int(1),
            SummaryType::Ratio(Ratio::of(1, 5)),
            SummaryType::Int(2),
            SummaryType::Int(1),
            SummaryType::Ratio(Ratio::of(1, 2)),
            SummaryType::Int(1),
        ]
    );
}
