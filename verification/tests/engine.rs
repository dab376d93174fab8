use miniregex::compiler::compile_pattern;
use miniregex::elements::{Atom, CompileError, QuantKind, RegexElement};
use miniregex::matcher::{is_match, match_here, match_pattern};

fn chars(s: &str) -> Vec<char> {
    s.chars().collect()
}

fn matches_str(pattern: &str, input: &str) -> bool {
    match match_pattern(&chars(input), &chars(pattern)) {
        Ok(b) => b,
        Err(e) => panic!("pattern {:?} failed to compile: {:?}", pattern, e),
    }
}

#[test]
fn literal_containment() {
    assert!(matches_str("ell", "hello"));
    assert!(!matches_str("elo", "hello"));
}

#[test]
fn anchored_start_matches_only_position_zero() {
    assert!(matches_str("^abc", "abcxyz"));
    assert!(!matches_str("^abc", "xabc"));
}

#[test]
fn anchored_end_matches_only_at_end() {
    assert!(matches_str("abc$", "xabc"));
    assert!(!matches_str("abc$", "abcx"));
}

#[test]
fn star_matches_every_input() {
    assert!(matches_str("a*", ""));
    assert!(matches_str("a*", "bbb"));
    assert!(matches_str("a*", "aaa"));
    assert!(matches_str("a*", "xyz"));
}

#[test]
fn plus_requires_at_least_one_repetition() {
    assert!(matches_str("a+", "aaa"));
    assert!(!matches_str("a+", ""));
    assert!(!matches_str("a+", "b"));
}

#[test]
fn negative_group_excludes_members() {
    assert!(matches_str("[^abc]", "d"));
    assert!(!matches_str("[^abc]", "a"));
}

#[test]
fn positive_group_requires_membership() {
    assert!(matches_str("[abc]", "b"));
    assert!(!matches_str("[abc]", "d"));
}

#[test]
fn digit_class_pair() {
    assert!(matches_str("\\d\\d", "42"));
    assert!(!matches_str("\\d\\d", "4x"));
}

#[test]
fn word_class_is_alphanumeric() {
    assert!(matches_str("\\w", "a"));
    assert!(matches_str("\\w", "Z"));
    assert!(matches_str("\\w", "5"));
    assert!(matches_str("\\w", "\u{00e9}"));
    assert!(!matches_str("\\w", "-"));
    assert!(!matches_str("\\w", " "));
}

#[test]
fn double_quantifier_rejected() {
    assert_eq!(
        compile_pattern(&chars("a**")),
        Err(CompileError::DanglingQuantifier)
    );
}

#[test]
fn leading_quantifier_rejected() {
    assert_eq!(
        compile_pattern(&chars("*abc")),
        Err(CompileError::DanglingQuantifier)
    );
    assert_eq!(
        compile_pattern(&chars("+a")),
        Err(CompileError::DanglingQuantifier)
    );
}

#[test]
fn unterminated_group_rejected() {
    assert_eq!(
        compile_pattern(&chars("[abc")),
        Err(CompileError::UnterminatedGroup)
    );
    assert_eq!(
        compile_pattern(&chars("[^")),
        Err(CompileError::UnterminatedGroup)
    );
}

#[test]
fn invalid_escape_rejected() {
    assert_eq!(
        compile_pattern(&chars("\\x")),
        Err(CompileError::InvalidEscape)
    );
    assert_eq!(
        compile_pattern(&chars("a\\\\b")),
        Err(CompileError::InvalidEscape)
    );
}

#[test]
fn unterminated_escape_rejected() {
    assert_eq!(
        compile_pattern(&chars("ab\\")),
        Err(CompileError::UnterminatedEscape)
    );
}

#[test]
fn misplaced_caret_rejected() {
    assert_eq!(
        compile_pattern(&chars("ab^c")),
        Err(CompileError::MisplacedAnchor)
    );
}

#[test]
fn compile_is_idempotent() {
    let first = compile_pattern(&chars("^a[bc]+d$")).unwrap();
    let second = compile_pattern(&chars("^a[bc]+d$")).unwrap();
    assert_eq!(first, second);
    for input in ["abcd", "abd", "acbcd", "xabd", "abdx"] {
        let iv = chars(input);
        assert_eq!(is_match(&first, &iv), is_match(&second, &iv));
    }
}

#[test]
fn compiled_elements_are_as_stated() {
    let elems = compile_pattern(&chars("a\\d*")).unwrap();
    assert_eq!(
        elems,
        vec![
            RegexElement::Single(Atom::Literal('a')),
            RegexElement::Quantified(Atom::DigitClass, QuantKind::ZeroOrMore),
        ]
    );
}

#[test]
fn is_match_is_deterministic() {
    let elems = compile_pattern(&chars("a[bc]*d")).unwrap();
    let input = chars("zabccdy");
    let first = is_match(&elems, &input);
    let second = is_match(&elems, &input);
    assert_eq!(first, second);
    assert!(first);
}

#[test]
fn unanchored_match_survives_extension() {
    assert!(matches_str("bc", "abcd"));
    assert!(matches_str("bc", "xabcd"));
    assert!(matches_str("bc", "abcdx"));
}

#[test]
fn anchored_match_may_not_survive_extension() {
    assert!(matches_str("^ab", "ab"));
    assert!(!matches_str("^ab", "xab"));
    assert!(matches_str("ab$", "ab"));
    assert!(!matches_str("ab$", "abx"));
}

#[test]
fn empty_pattern_matches_everything() {
    assert!(matches_str("", ""));
    assert!(matches_str("", "abc"));
}

#[test]
fn empty_group_matches_nothing() {
    assert!(!matches_str("[]", "a"));
    assert!(!matches_str("[]", ""));
}

#[test]
fn backtracking_releases_greedy_run() {
    assert!(matches_str("a*a", "aaa"));
    assert!(matches_str("\\w+x", "abx"));
    assert!(matches_str("[ab]+b", "aab"));
}

#[test]
fn quantified_group() {
    assert!(matches_str("[ab]+", "ba"));
    assert!(!matches_str("[ab]+", "c"));
}

#[test]
fn dollar_mid_pattern_is_a_literal() {
    assert!(matches_str("a$b", "xa$by"));
    assert!(!matches_str("a$b", "ab"));
}

#[test]
fn end_anchor_alone_matches_at_end() {
    assert!(matches_str("$", ""));
    assert!(matches_str("$", "a"));
    assert!(matches_str("a*$", "aa"));
    assert!(matches_str("a*$", "ba"));
}

#[test]
fn start_anchor_alone_and_with_end() {
    assert!(matches_str("^", "anything"));
    assert!(matches_str("^$", ""));
    assert!(!matches_str("^$", "a"));
}

#[test]
fn start_anchor_then_quantifier() {
    assert!(matches_str("^a*b", "aab"));
    assert!(!matches_str("^a*b", "xab"));
}

#[test]
fn caret_inside_group_is_a_member() {
    assert!(matches_str("[a^]", "^"));
    assert!(matches_str("[a^]", "a"));
    assert!(!matches_str("[a^]", "b"));
}

#[test]
fn quantifier_after_start_anchor_rejected() {
    assert_eq!(
        compile_pattern(&chars("^*a")),
        Err(CompileError::DanglingQuantifier)
    );
}

#[test]
fn match_pattern_reports_compile_errors() {
    assert_eq!(
        match_pattern(&chars("whatever"), &chars("[oops")),
        Err(CompileError::UnterminatedGroup)
    );
    assert_eq!(match_pattern(&chars("abc"), &chars("b")), Ok(true));
    assert_eq!(match_pattern(&chars("abc"), &chars("z")), Ok(false));
}

#[test]
fn match_here_tests_one_position() {
    let elems = compile_pattern(&chars("bc")).unwrap();
    let input = chars("abc");
    assert!(!match_here(&elems, 0, &input, 0));
    assert!(match_here(&elems, 0, &input, 1));
}
