use mf::pattern::{Pattern, PT};

fn start(s: &str) -> PT {
    PT::Start(s.to_string())
}

fn contains(s: &str) -> PT {
    PT::Contains(s.to_string())
}

fn end(s: &str) -> PT {
    PT::End(s.to_string())
}

fn equal(s: &str) -> PT {
    PT::Equal(s.to_string())
}

#[test]
fn pat_new() {
    assert_eq!(Pattern::new("*.rs").rules(), vec![PT::End(".rs".to_string())]);
    assert_eq!(
        Pattern::new("src*m*.rs").rules(),
        vec![
            PT::Start("src".to_string()),
            PT::Contains("m".to_string()),
            PT::End(".rs".to_string())
        ]
    );
}

#[test]
fn pat_matches() {
    let pat = Pattern::new("*src/*.rs");
    assert!(!pat.matches("./Cargo.toml"));
    assert!(pat.matches("./src/main.rs"));
}

#[test]
fn plain_glob_is_one_equal_segment() {
    assert_eq!(Pattern::new("main.rs").rules(), vec![equal("main.rs")]);
    assert_eq!(Pattern::new("").rules(), vec![equal("")]);
}

#[test]
fn plain_glob_matches_itself_only() {
    let pat = Pattern::new("main.rs");
    assert!(pat.matches("main.rs"));
    assert!(!pat.matches(""));
    assert!(!pat.matches("main.r"));
    assert!(!pat.matches("main.rs "));
    assert!(!pat.matches("Main.rs"));
    assert!(!pat.matches("src/main.rs"));
}

#[test]
fn empty_glob_matches_the_empty_subject_only() {
    let pat = Pattern::new("");
    assert!(pat.matches(""));
    assert!(!pat.matches("a"));
}

#[test]
fn leading_star_tests_the_suffix() {
    let pat = Pattern::new("*.rs");
    assert!(pat.matches(".rs"));
    assert!(pat.matches("a.rs"));
    assert!(!pat.matches(""));
    assert!(!pat.matches("a.rsx"));
    assert!(!pat.matches("rs"));
}

#[test]
fn trailing_star_tests_the_prefix() {
    let pat = Pattern::new("src*");
    assert_eq!(pat.rules(), vec![start("src")]);
    assert!(pat.matches("src"));
    assert!(pat.matches("src/main.rs"));
    assert!(!pat.matches("sr"));
    assert!(!pat.matches("a/src"));
}

#[test]
fn star_on_both_sides_tests_for_an_occurrence() {
    let pat = Pattern::new("*foo*");
    assert_eq!(pat.rules(), vec![contains("foo")]);
    assert!(pat.matches("foo"));
    assert!(pat.matches("a foo b"));
    assert!(!pat.matches("fo"));
    assert!(!pat.matches("f-o-o"));
}

#[test]
fn three_segments_are_matched_in_order() {
    let pat = Pattern::new("src*m*.rs");
    assert!(pat.matches("src/main.rs"));
    assert!(!pat.matches("source.rs"));
    assert!(!pat.matches("src/lib.rs"));
    assert!(!pat.matches("src/main.rc"));
}

#[test]
fn bare_star_matches_everything() {
    let pat = Pattern::new("*");
    assert_eq!(pat.rules(), Vec::<PT>::new());
    assert!(pat.matches(""));
    assert!(pat.matches("anything at all"));
    assert!(pat.matches("*"));
}

#[test]
fn stars_in_a_row_count_as_one() {
    assert_eq!(Pattern::new("***").rules(), Vec::<PT>::new());
    assert!(Pattern::new("***").matches("x"));
    assert_eq!(Pattern::new("a**b").rules(), vec![start("a"), end("b")]);
    assert_eq!(
        Pattern::new("**a**b**c**").rules(),
        vec![contains("a"), contains("b"), contains("c")]
    );
}

#[test]
fn floating_literals_are_sought_from_left_to_right() {
    let pat = Pattern::new("*ab*cd*");
    assert!(pat.matches("abcd"));
    assert!(pat.matches("xxabxxcdxx"));
    assert!(!pat.matches("cdab"));
    assert!(!pat.matches("ab"));
}

#[test]
fn cursor_rests_on_the_last_character_of_an_occurrence() {
    // The second literal may begin with the character that ended the first.
    let pat = Pattern::new("*ab*bc*");
    assert!(pat.matches("abc"));
    assert!(pat.matches("abbc"));
    // But it may not reach further back than that.
    let pat = Pattern::new("*abc*bcd*");
    assert!(!pat.matches("abcd"));
    assert!(pat.matches("abcbcd"));
}

#[test]
fn anchors_look_at_the_whole_subject() {
    let pat = Pattern::new("ab*ab");
    assert_eq!(pat.rules(), vec![start("ab"), end("ab")]);
    assert!(pat.matches("ab"));
    assert!(pat.matches("abab"));
    assert!(!pat.matches("aba"));
    let pat = Pattern::new("*ab*abc");
    assert_eq!(pat.rules(), vec![contains("ab"), end("abc")]);
    assert!(pat.matches("abc"));
    assert!(!pat.matches("abcx"));
}

#[test]
fn matching_is_case_sensitive() {
    let pat = Pattern::new("*.RS");
    assert!(pat.matches("a.RS"));
    assert!(!pat.matches("a.rs"));
}

#[test]
fn characters_beyond_ascii_count_as_one_each() {
    let pat = Pattern::new("*é*ü");
    assert_eq!(pat.rules(), vec![contains("é"), end("ü")]);
    assert!(pat.matches("aébü"));
    assert!(pat.matches("éü"));
    assert!(!pat.matches("eu"));
    assert!(Pattern::new("*é*").matches("é"));
}

#[test]
fn a_copy_matches_as_the_pattern_does() {
    let pat = Pattern::new("a*b*c");
    let copy = pat.clone();
    assert_eq!(copy.rules(), pat.rules());
    assert!(copy.matches("a-b-c"));
    assert!(!copy.matches("a-c-b"));
}
