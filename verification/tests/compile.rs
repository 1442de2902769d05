//! Compilation: the node produced at each position, and the errors raised by
//! structurally invalid pattern texts.

use tinyregex::ast::{Atom, CompileError, Matcher};
use tinyregex::pattern::Pattern;

fn chars(s: &str) -> Vec<char> {
    s.chars().collect()
}

fn compile_err(pattern: &str) -> CompileError {
    match Pattern::new(pattern) {
        Err(e) => e,
        Ok(_) => panic!("pattern unexpectedly compiled: {}", pattern),
    }
}

#[test]
fn err_unterminated_escape() {
    assert_eq!(
        compile_err("ab\\"),
        CompileError::UnterminatedEscape
    );
}

#[test]
fn err_unrecognized_escape() {
    assert_eq!(
        compile_err("\\x"),
        CompileError::UnrecognizedEscape
    );
}

#[test]
fn err_unterminated_class() {
    assert_eq!(
        compile_err("[ab"),
        CompileError::UnterminatedClass
    );
}

#[test]
fn err_unterminated_group() {
    assert_eq!(
        compile_err("(a|b"),
        CompileError::UnterminatedGroup
    );
}

#[test]
fn err_backref_index_too_large() {
    // 2^32 does not fit in the backreference index.
    assert_eq!(
        compile_err("\\4294967296"),
        CompileError::BackrefTooLarge
    );
}

#[test]
fn backref_index_at_limit_compiles() {
    assert!(Pattern::new("\\4294967295").is_ok());
}

#[test]
fn error_inside_group_branch_fails_the_match() {
    // The branch text `\x` only gets compiled at match time; the error is
    // treated as no match rather than a crash.
    let p = Pattern::new("(a\\x|b)").unwrap();
    assert_eq!(p.test("ab"), (false, 0));
}

#[test]
fn node_literal() {
    let input = chars("cat");
    match Matcher::new(&input, 1).unwrap() {
        (Matcher::Atom(Atom::Literal(c)), extra) => {
            assert_eq!(c, 'a');
            assert_eq!(extra, 0);
        }
        other => panic!("wrong node: {:?}", other.1),
    }
}

#[test]
fn node_quantified_literal() {
    let input = chars("a+");
    match Matcher::new(&input, 0).unwrap() {
        (Matcher::OneOrMore(Atom::Literal(c)), extra) => {
            assert_eq!(c, 'a');
            assert_eq!(extra, 1);
        }
        other => panic!("wrong node: {:?}", other.1),
    }
}

#[test]
fn node_optional_class() {
    let input = chars("[ab]?");
    match Matcher::new(&input, 0).unwrap() {
        (Matcher::ZeroOrOne(Atom::CharClass(members, negated)), extra) => {
            assert_eq!(members, vec!['a', 'b']);
            assert!(!negated);
            assert_eq!(extra, 4);
        }
        other => panic!("wrong node: {:?}", other.1),
    }
}

#[test]
fn node_negated_class() {
    let input = chars("[^ab]");
    match Matcher::new(&input, 0).unwrap() {
        (Matcher::Atom(Atom::CharClass(members, negated)), extra) => {
            assert_eq!(members, vec!['a', 'b']);
            assert!(negated);
            assert_eq!(extra, 4);
        }
        other => panic!("wrong node: {:?}", other.1),
    }
}

#[test]
fn node_group_branches() {
    let input = chars("(cat|dog|)");
    match Matcher::new(&input, 0).unwrap() {
        (Matcher::Atom(Atom::Group(branches)), extra) => {
            assert_eq!(branches.len(), 3);
            assert_eq!(branches[0], vec!['c', 'a', 't']);
            assert_eq!(branches[1], vec!['d', 'o', 'g']);
            assert!(branches[2].is_empty());
            assert_eq!(extra, 9);
        }
        other => panic!("wrong node: {:?}", other.1),
    }
}

#[test]
fn node_backref_consumes_all_digits() {
    let input = chars("\\10a");
    match Matcher::new(&input, 0).unwrap() {
        (Matcher::Atom(Atom::Backref(index)), extra) => {
            assert_eq!(index, 10);
            assert_eq!(extra, 2);
        }
        other => panic!("wrong node: {:?}", other.1),
    }
}

#[test]
fn node_wildcard_quantified() {
    let input = chars(".+");
    match Matcher::new(&input, 0).unwrap() {
        (Matcher::OneOrMore(Atom::Wildcard), extra) => {
            assert_eq!(extra, 1);
        }
        other => panic!("wrong node: {:?}", other.1),
    }
}

#[test]
fn node_end_anchor() {
    let input = chars("a$");
    match Matcher::new(&input, 1).unwrap() {
        (Matcher::Atom(Atom::EndAnchor), extra) => {
            assert_eq!(extra, 0);
        }
        other => panic!("wrong node: {:?}", other.1),
    }
}
