//! The fixed names that steer an analysis: the extension of source files, the
//! manifest that marks the root of a crate, and the directories left out.

use crate::text::{contains_text, has_text, same_text};
use vstd::prelude::*;

verus! {

/// A Rust source file is named with something in front of a final `.rs`.
pub open spec fn is_source_name(name: Seq<char>) -> bool {
    name.len() > 3 && name.subrange(name.len() - 3, name.len() as int) == ".rs"@
}

/// The last component of a path: what follows its last `/`, or all of it
/// where it holds none. A path that ends in `/` has an empty last component.
pub open spec fn last_component(path: Seq<char>) -> Seq<char>
    decreases path.len(),
{
    if path.len() == 0 || path.last() == '/' {
        Seq::empty()
    } else {
        last_component(path.drop_last()).push(path.last())
    }
}

/// A path leads to a Rust source file where its last component is the name
/// of one.
pub open spec fn leads_to_source(path: Seq<char>) -> bool {
    is_source_name(last_component(path))
}

/// The file whose presence makes a directory the root of a crate.
pub open spec fn manifest_name() -> Seq<char> {
    "Cargo.toml"@
}

/// Directories that are never descended into: version control, tests,
/// examples and benchmarks.
pub open spec fn is_excluded_name(name: Seq<char>) -> bool {
    name == ".git"@ || name == "tests"@ || name == "examples"@ || name == "benches"@
}

/// A path that holds `.git` anywhere: below a repository's own directory, or
/// below any directory named with it.
pub open spec fn is_git_path(path: Seq<char>) -> bool {
    contains_text(path, ".git"@)
}

/// Whether `path` holds `.git`.
pub fn holds_git(path: &str) -> (b: bool)
    ensures
        b == is_git_path(path@),
{
    has_text(path, ".git")
}

/// Whether `name` is the name of a Rust source file.
pub fn is_source_file(name: &str) -> (b: bool)
    ensures
        b == is_source_name(name@),
{
    proof {
        reveal_strlit(".rs");
    }
    let len = name.unicode_len();
    if len <= 3 {
        return false;
    }
    let found = name.get_char(len - 3) == '.' && name.get_char(len - 2) == 'r' && name.get_char(
        len - 1,
    ) == 's';
    proof {
        let tail = name@.subrange(len - 3, len as int);
        assert(tail.len() == 3 && tail[0] == name@[len - 3] && tail[1] == name@[len - 2]
            && tail[2] == name@[len - 1]);
        assert(found == (tail =~= ".rs"@));
    }
    found
}

/// Whether `path` leads to a Rust source file: whether its last component is
/// the name of one.
pub fn is_source_path(path: &str) -> (b: bool)
    ensures
        b == leads_to_source(path@),
{
    proof {
        reveal_strlit(".rs");
        reveal_with_fuel(last_component, 5);
    }
    let len = path.unicode_len();
    if len <= 3 {
        assert(last_component(path@).len() <= 3);
        return false;
    }
    let found = path.get_char(len - 4) != '/' && path.get_char(len - 3) == '.' && path.get_char(
        len - 2,
    ) == 'r' && path.get_char(len - 1) == 's';
    proof {
        let p = path@;
        let name = last_component(p);
        let p1 = p.drop_last();
        let p2 = p1.drop_last();
        let p3 = p2.drop_last();
        let p4 = p3.drop_last();
        assert(p.last() == p[len - 1] && p1.last() == p[len - 2] && p2.last() == p[len - 3]
            && p3.last() == p[len - 4]);
        if found {
            assert(name == last_component(p4).push(p[len - 4]).push('.').push('r').push('s'));
            assert(name.subrange(name.len() - 3, name.len() as int) =~= ".rs"@);
        } else if p[len - 1] != '/' && p[len - 2] != '/' && p[len - 3] != '/' {
            let tail = name.subrange(name.len() - 3, name.len() as int);
            if p[len - 4] == '/' {
                assert(name.len() == 3);
            } else {
                assert(name == last_component(p4).push(p[len - 4]).push(p[len - 3]).push(
                    p[len - 2],
                ).push(p[len - 1]));
                assert(tail[0] == p[len - 3] && tail[1] == p[len - 2] && tail[2] == p[len - 1]);
                assert(".rs"@[0] == '.' && ".rs"@[1] == 'r' && ".rs"@[2] == 's');
            }
        } else {
            assert(name.len() < 3);
        }
    }
    found
}

/// Whether `name` is the name of the crate manifest.
pub fn is_manifest(name: &str) -> (b: bool)
    ensures
        b == (name@ == manifest_name()),
{
    same_text(name, "Cargo.toml")
}

/// Whether a directory of this name is left out of every walk.
pub fn is_excluded(name: &str) -> (b: bool)
    ensures
        b == is_excluded_name(name@),
{
    same_text(name, ".git") || same_text(name, "tests") || same_text(name, "examples")
        || same_text(name, "benches")
}

} // verus!
