//! Matching behaviour: scanning, anchors, classes, quantifiers, alternation,
//! backreferences, and the boundary cases.

use tinyregex::pattern::Pattern;

fn run(pattern: &str, subject: &str) -> (bool, usize) {
    Pattern::new(pattern).unwrap().test(subject)
}

#[test]
fn literal_substring_found_at_offset() {
    // The pattern is unanchored, so any offset may match; "cat" sits at
    // offset 3 of "concatenate" and consumes 3 characters.
    assert_eq!(run("cat", "concatenate"), (true, 3));
}

#[test]
fn literal_no_match() {
    assert_eq!(run("cat", "dog"), (false, 0));
}

#[test]
fn literal_match_at_start() {
    assert_eq!(run("cat", "cats"), (true, 3));
}

#[test]
fn anchored_both_ends_exact() {
    assert_eq!(run("^cat$", "cat"), (true, 3));
}

#[test]
fn anchored_both_ends_rejects_longer() {
    assert_eq!(run("^cat$", "cats"), (false, 0));
}

#[test]
fn anchored_both_ends_rejects_prefixed() {
    assert_eq!(run("^cat$", "concat"), (false, 0));
}

#[test]
fn anchored_start_stops_after_first_attempt() {
    // "b" occurs at offset 1, but `^` allows only the offset-0 attempt.
    assert_eq!(run("^b", "ab"), (false, 0));
}

#[test]
fn end_anchor_via_later_offset() {
    assert_eq!(run("cat$", "scat"), (true, 3));
}

#[test]
fn class_accepts_member() {
    assert_eq!(run("[abc]", "b"), (true, 1));
}

#[test]
fn negated_class_rejects_member() {
    assert_eq!(run("[^abc]", "a"), (false, 0));
}

#[test]
fn negated_class_accepts_other() {
    assert_eq!(run("[^abc]", "d"), (true, 1));
}

#[test]
fn empty_class_matches_nothing() {
    assert_eq!(run("[]", "a"), (false, 0));
}

#[test]
fn empty_negated_class_matches_anything() {
    assert_eq!(run("[^]", "a"), (true, 1));
}

#[test]
fn plus_consumes_greedily() {
    assert_eq!(run("a+", "aaa"), (true, 3));
}

#[test]
fn plus_needs_one() {
    assert_eq!(run("a+", "bbb"), (false, 0));
}

#[test]
fn plus_on_class() {
    assert_eq!(run("[ab]+", "abba"), (true, 4));
}

#[test]
fn optional_absent() {
    assert_eq!(run("ca?t", "ct"), (true, 2));
}

#[test]
fn optional_present() {
    assert_eq!(run("ca?t", "cat"), (true, 3));
}

#[test]
fn optional_at_end_of_subject() {
    // The subject runs out before the optional node: the attempt still
    // succeeds, consuming what was matched so far.
    assert_eq!(run("cat?", "ca"), (true, 2));
}

#[test]
fn greedy_plus_does_not_backtrack() {
    // `a+` swallows all three characters, so the trailing mandatory `a`
    // finds nothing: greedy consumption is never given back.
    assert_eq!(run("a+a", "aaa"), (false, 0));
}

#[test]
fn alternation_second_branch() {
    assert_eq!(run("(cat|dog)", "dog"), (true, 3));
}

#[test]
fn alternation_no_branch() {
    assert_eq!(run("(cat|dog)", "bird"), (false, 0));
}

#[test]
fn alternation_first_success_wins() {
    // Both branches could match at offset 0; the declared order decides,
    // so only one character is consumed.
    assert_eq!(run("(a|ab)", "ab"), (true, 1));
}

#[test]
fn quantified_group() {
    assert_eq!(run("(ab|c)+", "abc"), (true, 3));
}

#[test]
fn backref_repeats_capture() {
    assert_eq!(run("(cat) and \\1", "cat and cat"), (true, 11));
}

#[test]
fn backref_rejects_other_text() {
    assert_eq!(run("(cat) and \\1", "cat and dog"), (false, 0));
}

#[test]
fn backref_zero_never_matches() {
    assert_eq!(run("(a)\\0", "aa"), (false, 0));
}

#[test]
fn backref_unassigned_never_matches() {
    assert_eq!(run("(a)\\2", "aa"), (false, 0));
}

#[test]
fn compile_is_pure_function_of_text() {
    // Compiling the same text twice yields matchers with identical results.
    let p1 = Pattern::new("(\\d+) cats").unwrap();
    let p2 = Pattern::new("(\\d+) cats").unwrap();
    for subject in ["12 cats", "no cats", "", "99 cats and 1 dog"] {
        assert_eq!(p1.test(subject), p2.test(subject));
    }
}

#[test]
fn empty_pattern_matches_everything() {
    assert_eq!(run("", "anything"), (true, 0));
    assert_eq!(run("", ""), (true, 0));
}

#[test]
fn optional_only_pattern_matches_empty_subject() {
    assert_eq!(run("a?", ""), (true, 0));
}

#[test]
fn anchor_only_pattern_matches_empty_subject() {
    assert_eq!(run("^$", ""), (true, 0));
    assert_eq!(run("$", ""), (true, 0));
}

#[test]
fn wildcard_consumes_one() {
    assert_eq!(run(".", "x"), (true, 1));
}

#[test]
fn wildcard_needs_a_character() {
    assert_eq!(run(".", ""), (false, 0));
}

#[test]
fn digit_escape() {
    assert_eq!(run("\\d", "5"), (true, 1));
    assert_eq!(run("\\d", "x"), (false, 0));
}

#[test]
fn word_escape_accepts_letters_and_digits() {
    assert_eq!(run("\\w", "a"), (true, 1));
    assert_eq!(run("\\w", "Z"), (true, 1));
    assert_eq!(run("\\w", "7"), (true, 1));
}

#[test]
fn word_escape_rejects_punctuation() {
    assert_eq!(run("\\w", "_"), (false, 0));
    assert_eq!(run("\\w", "!"), (false, 0));
}

#[test]
fn escaped_backslash_is_literal() {
    assert_eq!(run("\\\\", "\\"), (true, 1));
}

#[test]
fn stray_quantifier_compiles_to_nothing() {
    // A leading `+` has no atom before it and is dropped, leaving the
    // empty pattern.
    assert_eq!(run("+", "x"), (true, 0));
}

#[test]
fn stray_bracket_compiles_to_nothing() {
    assert_eq!(run("]", "x"), (true, 0));
}

#[test]
fn double_plus_second_is_stray() {
    assert_eq!(run("a++", "aa"), (true, 2));
}

#[test]
fn caret_inside_pattern_asserts_unadvanced_cursor() {
    // A `^` past position 0 compiles to a start-anchor node, which only
    // holds while the attempt has consumed nothing.
    assert_eq!(run("x^y", "xy"), (false, 0));
}

#[test]
fn mixed_pattern_digits_and_words() {
    assert_eq!(run("\\d\\w\\d", "a1b2c"), (true, 3));
}
