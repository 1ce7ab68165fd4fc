use unsafe_unicorn::names::{holds_git, is_excluded, is_manifest, is_source_file, is_source_path};
use unsafe_unicorn::text::same_text;
use unsafe_unicorn::text::count_char;

#[test]
fn source_files_end_in_rs() {
    assert!(is_source_file("a.rs"));
    assert!(is_source_file("lib.rs"));
    assert!(is_source_file("./resources/test.rs"));
    assert!(is_source_file("archive.tar.rs"));
    assert!(is_source_file("..rs"));
    assert!(is_source_file("naïve.rs"));
}

#[test]
fn other_names_are_no_source_files() {
    assert!(!is_source_file(""));
    assert!(!is_source_file("rs"));
    assert!(!is_source_file(".rs"));
    assert!(!is_source_file("ars"));
    assert!(!is_source_file("lib.rs.bak"));
    assert!(!is_source_file("lib.RS"));
    assert!(!is_source_file("lib.rs "));
    assert!(!is_source_file("Cargo.toml"));
}

#[test]
fn the_manifest_is_cargo_toml() {
    assert!(is_manifest("Cargo.toml"));
    assert!(!is_manifest("cargo.toml"));
    assert!(!is_manifest("Cargo.lock"));
    assert!(!is_manifest("Cargo.toml.orig"));
}

#[test]
fn four_directories_are_excluded() {
    assert!(is_excluded(".git"));
    assert!(is_excluded("tests"));
    assert!(is_excluded("examples"));
    assert!(is_excluded("benches"));
    assert!(!is_excluded("src"));
    assert!(!is_excluded("test"));
    assert!(!is_excluded(".gitignore"));
    assert!(!is_excluded(""));
}

#[test]
fn characters_are_counted() {
    assert_eq!(count_char("{ a { b } }", '{'), 2);
    assert_eq!(count_char("{ a { b } }", '}'), 2);
    assert_eq!(count_char("", '{'), 0);
    assert_eq!(count_char("é{é{é", '{'), 2);
}

#[test]
fn a_path_is_judged_by_its_last_component() {
    assert!(is_source_path("a.rs"));
    assert!(is_source_path("./resources/test.rs"));
    assert!(is_source_path("d/..rs"));
    assert!(is_source_path("d.rs/e.rs"));
    assert!(is_source_path("/a.rs"));
    assert!(!is_source_path("d/.rs"));
    assert!(!is_source_path("/.rs"));
    assert!(!is_source_path(".rs"));
    assert!(!is_source_path("a.rs/"));
    assert!(!is_source_path("a.rs/b"));
    assert!(!is_source_path("a.rs/b.r"));
    assert!(!is_source_path("d/rs"));
    assert!(!is_source_path("drs"));
    assert!(!is_source_path(""));
    assert!(!is_source_path("d/a.txt"));
}

#[test]
fn a_git_path_holds_the_word_anywhere() {
    assert!(holds_git("top/.git"));
    assert!(holds_git("top/.github/workflows"));
    assert!(holds_git("top/a.git.d/src"));
    assert!(!holds_git("top/git"));
    assert!(!holds_git("top/tests"));
    assert!(!holds_git(""));
}

#[test]
fn texts_are_the_same_character_by_character() {
    assert!(same_text("", ""));
    assert!(same_text("naïve", "naïve"));
    assert!(!same_text("naive", "naïve"));
    assert!(!same_text("abc", "abd"));
    assert!(!same_text("abc", "ab"));
    assert!(!same_text("ab", "abc"));
    assert!(!same_text("", "a"));
}
