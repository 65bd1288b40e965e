use ncd::pattern::{wildcard_pattern, PatternMatcher};
use ncd::text::{chars_of, contains_char, starts_with, text_of};
use ncd::DirMatch;

#[test]
fn a_literal_dot_does_not_match_another_character() {
    let m = PatternMatcher::new("v1.0*", false);
    assert!(m.is_wildcard());
    assert!(!m.matches_directory_name("v1-0_release"));
    assert!(m.matches_directory_name("v1.0_release"));
    assert!(m.matches_directory_name("V1.0"));
    assert!(!m.matches_directory_name("v1x0"));
}

#[test]
fn the_pattern_escapes_dots_and_is_anchored() {
    assert_eq!(wildcard_pattern("v1.0*"), "^v1\\.0.*$");
    assert_eq!(wildcard_pattern("a?b"), "^a.b$");
    assert_eq!(wildcard_pattern("*.*"), "^.*\\..*$");
    assert_eq!(wildcard_pattern(""), "^$");
    assert_eq!(wildcard_pattern("plain"), "^plain$");
}

#[test]
fn a_wildcard_matches_the_whole_name_only() {
    let m = PatternMatcher::new("proj*", false);
    assert!(m.matches_directory_name("Projects"));
    assert!(m.matches_directory_name("proj"));
    assert!(!m.matches_directory_name("my_projects"));
    let one = PatternMatcher::new("a?c", false);
    assert!(one.matches_directory_name("abc"));
    assert!(!one.matches_directory_name("ac"));
    assert!(!one.matches_directory_name("abbc"));
    let tail = PatternMatcher::new("*top", false);
    assert!(tail.matches_directory_name("Desktop"));
    assert!(!tail.matches_directory_name("Desktops"));
}

#[test]
fn exact_wildcards_keep_their_case() {
    let m = PatternMatcher::new("Proj*", true);
    assert!(m.matches_directory_name("Projects"));
    assert!(!m.matches_directory_name("projects"));
    let loose = PatternMatcher::new("Proj*", false);
    assert!(loose.matches_directory_name("projects"));
    assert!(loose.matches_directory_name("PROJECTS"));
}

#[test]
fn a_wildcard_that_is_no_expression_is_compared_as_text() {
    let m = PatternMatcher::new("a(*", false);
    assert!(m.is_wildcard());
    assert!(m.matches_directory_name("A(*"));
    assert!(!m.matches_directory_name("a(b"));
    let exact = PatternMatcher::new("a(*", true);
    assert!(exact.matches_directory_name("a(*"));
    assert!(!exact.matches_directory_name("A(*"));
}

#[test]
fn plain_fragments_compare_by_text() {
    let loose = PatternMatcher::new("MyProject", false);
    assert!(!loose.is_wildcard());
    assert_eq!(loose.fragment(), "MyProject");
    assert!(!loose.is_exact());
    assert!(loose.matches_exact_or_case_insensitive("myproject"));
    assert!(loose.matches_exact_or_case_insensitive("MYPROJECT"));
    assert!(loose.matches_directory_name("myPROJECT"));
    assert!(!loose.matches_directory_name("MyProject2"));
    let exact = PatternMatcher::new("MyProject", true);
    assert!(exact.is_exact());
    assert!(exact.matches_exact_or_case_insensitive("MyProject"));
    assert!(!exact.matches_exact_or_case_insensitive("myproject"));
    assert!(!exact.matches_directory_name("MYPROJECT"));
}

#[test]
fn lowercasing_knows_more_than_ascii() {
    let m = PatternMatcher::new("ÄRGER", false);
    assert!(m.matches_exact_or_case_insensitive("ärger"));
    assert!(!m.matches_exact_or_case_insensitive("arger"));
}

#[test]
fn a_fuzzy_scan_accepts_prefixes_unless_exact() {
    let loose = PatternMatcher::new("proj", false);
    assert!(loose.matches_in_scan(DirMatch::Fuzzy, "Projects"));
    assert!(loose.matches_in_scan(DirMatch::Fuzzy, "PROJ"));
    assert!(!loose.matches_in_scan(DirMatch::Fuzzy, "my_proj"));
    assert!(!loose.matches_in_scan(DirMatch::AsIs, "Projects"));
    assert!(loose.matches_in_scan(DirMatch::AsIs, "Proj"));
    let exact = PatternMatcher::new("proj", true);
    assert!(!exact.matches_in_scan(DirMatch::Fuzzy, "projects"));
    assert!(exact.matches_in_scan(DirMatch::Fuzzy, "proj"));
    assert!(!exact.matches_in_scan(DirMatch::Fuzzy, "Proj"));
    let wild = PatternMatcher::new("pr?j", false);
    assert!(wild.matches_in_scan(DirMatch::AsIs, "PROJ"));
    assert!(!wild.matches_in_scan(DirMatch::Fuzzy, "projects"));
}

#[test]
fn text_helpers_read_and_build_text() {
    assert_eq!(chars_of("añb"), vec!['a', 'ñ', 'b']);
    assert_eq!(chars_of(""), Vec::<char>::new());
    let chars = chars_of("hello");
    assert_eq!(text_of(&chars, 1, 4), "ell");
    assert_eq!(text_of(&chars, 2, 2), "");
    assert_eq!(text_of(&chars, 0, 5), "hello");
    assert!(contains_char("a*b", '*'));
    assert!(!contains_char("ab", '*'));
    assert!(starts_with("projects", "proj"));
    assert!(starts_with("proj", ""));
    assert!(!starts_with("pro", "proj"));
    assert!(!starts_with("prxjects", "proj"));
}
