use unsafe_unicorn::patterns::{rule_sources, LineMatches, PatternSet};

#[test]
fn there_are_seven_rule_expressions() {
    assert_eq!(
        rule_sources(),
        vec![
            "```",
            r"^//|^\s/\*|^\s\*|^\s\*/",
            r"\s*fn\s+[a-zA-Z_]*",
            r"\s*unsafe impl.*for.*",
            r"\s*unsafe\s*\{.*\}",
            r".*unsafe\s*\{",
            "panic",
        ]
    );
}

#[test]
fn the_engine_accepts_the_rules() {
    assert!(PatternSet::new().is_some());
}

#[test]
fn the_rules_look_at_the_case_of_letters() {
    let rules = PatternSet::new().unwrap();
    let quiet = LineMatches {
        block_comment: false,
        comment: false,
        function: false,
        unsafe_impl: false,
        unsafe_block: false,
        unsafe_opener: false,
        panic: false,
    };
    assert_eq!(rules.matches("PANIC"), quiet);
    assert_eq!(rules.matches("panic"), LineMatches { panic: true, ..quiet });
    assert_eq!(rules.matches("UNSAFE {"), quiet);
    assert_eq!(rules.matches("FN f()"), quiet);
}
