use mf::matcher::{mode_bits, File, FileMatcher, MODE_MASK};
use mf::pattern::Pattern;
use mf::walker::Walker;

fn file(path: &str) -> File {
    File::new(path.to_string(), false, 1000, 100, 0o644)
}

fn dir(path: &str) -> File {
    File::new(path.to_string(), true, 0, 0, 0o755)
}

/// A matcher over `files`, in that order.
fn matcher(files: Vec<File>) -> FileMatcher {
    let mut walk = Walker::new(".".to_string(), false, Some(1));
    walk.supply(files);
    assert!(walk.done());
    FileMatcher::from_dir(walk).unwrap()
}

fn paths(files: &Vec<File>) -> Vec<String> {
    files.iter().map(|f| f.path.clone()).collect()
}

fn sample() -> Vec<File> {
    vec![
        dir("./src"),
        file("./src/main.rs"),
        File::new("./src/lib.rs".to_string(), false, 1001, 100, 0o600),
        dir("./target"),
        File::new("./Cargo.toml".to_string(), false, 1000, 50, 0o644),
        File::new("./run.sh".to_string(), false, 0, 0, 0o4755),
    ]
}

#[test]
fn name_is_the_last_component() {
    assert_eq!(file("a/b/c.txt").name(), "c.txt");
    assert_eq!(file("plain").name(), "plain");
    assert_eq!(file("/rooted").name(), "rooted");
    assert_eq!(file("dir/").name(), "");
    assert_eq!(file("").name(), "");
    assert_eq!(file("./a//b").name(), "b");
}

#[test]
fn record_keeps_what_it_was_given() {
    let f = File::new("x/y".to_string(), true, 7, 8, 0o750);
    assert_eq!(f.path, "x/y");
    assert_eq!(f.path(), "x/y");
    assert!(f.is_dir());
    assert_eq!(f.uid(), 7);
    assert_eq!(f.gid(), 8);
    assert_eq!(f.perms(), 0o750);
    let g = f.clone();
    assert_eq!(g.path, "x/y");
    assert_eq!(g.name(), "y");
    assert!(g.is_dir());
}

#[test]
fn mode_bits_are_the_lower_twelve() {
    assert_eq!(MODE_MASK, 4095);
    assert_eq!(mode_bits(0o100644), 0o644);
    assert_eq!(mode_bits(0o40755), 0o755);
    assert_eq!(mode_bits(0o104755), 0o4755);
    assert_eq!(mode_bits(u32::MAX), 0o7777);
    assert_eq!(mode_bits(0), 0);
}

#[test]
fn no_constraint_lets_everything_through() {
    let m = matcher(sample());
    assert_eq!(paths(&m.matches()), paths(&sample()));
}

#[test]
fn name_patterns_are_joined_by_and() {
    let mut m = matcher(vec![file("out/report.pdf.bak")]);
    m.add_npatterns(&[Pattern::new("*.pdf*"), Pattern::new("*bak")]);
    assert_eq!(paths(&m.matches()), vec!["out/report.pdf.bak"]);

    let mut m = matcher(vec![file("out/report.pdf.bak")]);
    m.add_npatterns(&[Pattern::new("*.pdf"), Pattern::new("*bak")]);
    assert!(m.matches().is_empty());
}

#[test]
fn patterns_added_later_join_the_earlier_ones() {
    let mut m = matcher(sample());
    m.add_npatterns(&[Pattern::new("*.rs")]);
    assert_eq!(paths(&m.matches()), vec!["./src/main.rs", "./src/lib.rs"]);
    m.add_npatterns(&[Pattern::new("main*")]);
    assert_eq!(paths(&m.matches()), vec!["./src/main.rs"]);
    m.add_npatterns(&[]);
    assert_eq!(paths(&m.matches()), vec!["./src/main.rs"]);
}

#[test]
fn name_pattern_sees_the_base_name_only() {
    let mut m = matcher(sample());
    m.add_npatterns(&[Pattern::new("src*")]);
    assert_eq!(paths(&m.matches()), vec!["./src"]);
}

#[test]
fn path_pattern_sees_the_full_path() {
    let mut m = matcher(sample());
    m.add_ppatterns(&[Pattern::new("./src*")]);
    assert_eq!(paths(&m.matches()), vec!["./src", "./src/main.rs", "./src/lib.rs"]);
    m.add_ppatterns(&[Pattern::new("*lib*")]);
    assert_eq!(paths(&m.matches()), vec!["./src/lib.rs"]);
}

#[test]
fn type_f_lets_no_directory_through() {
    let mut m = matcher(sample());
    m.set_ftype(Some('f'));
    let got = m.matches();
    assert_eq!(
        paths(&got),
        vec!["./src/main.rs", "./src/lib.rs", "./Cargo.toml", "./run.sh"]
    );
    assert!(got.iter().all(|f| !f.is_dir()));
}

#[test]
fn type_d_lets_directories_through_only() {
    let mut m = matcher(sample());
    m.set_ftype(Some('d'));
    let got = m.matches();
    assert_eq!(paths(&got), vec!["./src", "./target"]);
    assert!(got.iter().all(|f| f.is_dir()));
}

#[test]
fn another_type_or_none_constrains_nothing() {
    let mut m = matcher(sample());
    m.set_ftype(Some('x'));
    assert_eq!(m.matches().len(), 6);
    m.set_ftype(Some('f'));
    assert_eq!(m.matches().len(), 4);
    m.set_ftype(None);
    assert_eq!(m.matches().len(), 6);
}

#[test]
fn uid_gid_and_perms_are_compared_for_equality() {
    let mut m = matcher(sample());
    m.set_uid(Some(1000));
    assert_eq!(paths(&m.matches()), vec!["./src/main.rs", "./Cargo.toml"]);
    m.set_gid(Some(100));
    assert_eq!(paths(&m.matches()), vec!["./src/main.rs"]);
    m.set_gid(None);
    m.set_uid(None);
    m.set_perms(Some(0o755));
    assert_eq!(paths(&m.matches()), vec!["./src", "./target"]);
    m.set_perms(Some(0o4755));
    assert_eq!(paths(&m.matches()), vec!["./run.sh"]);
    m.set_perms(Some(0o055));
    assert!(m.matches().is_empty());
}

#[test]
fn every_constraint_must_be_met() {
    let mut m = matcher(sample());
    m.set_ftype(Some('f'));
    m.set_uid(Some(1000));
    m.set_perms(Some(0o644));
    m.add_npatterns(&[Pattern::new("*.toml")]);
    m.add_ppatterns(&[Pattern::new("./*")]);
    assert_eq!(paths(&m.matches()), vec!["./Cargo.toml"]);
    m.set_gid(Some(100));
    assert!(m.matches().is_empty());
}

#[test]
fn filtering_twice_changes_nothing() {
    let mut m = matcher(sample());
    m.set_ftype(Some('f'));
    m.add_npatterns(&[Pattern::new("*.rs")]);
    let once = m.matches();
    let mut again = matcher(once.clone());
    again.set_ftype(Some('f'));
    again.add_npatterns(&[Pattern::new("*.rs")]);
    let twice = again.matches();
    assert_eq!(paths(&once), vec!["./src/main.rs", "./src/lib.rs"]);
    assert_eq!(paths(&twice), paths(&once));
}

#[test]
fn matching_leaves_the_matcher_as_it_was() {
    let mut m = matcher(sample());
    m.set_ftype(Some('d'));
    assert_eq!(paths(&m.matches()), paths(&m.matches()));
}

#[test]
fn passes_judges_one_record() {
    let mut m = matcher(vec![]);
    m.set_ftype(Some('f'));
    m.add_npatterns(&[Pattern::new("*.rs")]);
    assert!(m.passes(&file("a/b.rs")));
    assert!(!m.passes(&dir("a/b.rs")));
    assert!(!m.passes(&file("a/b.rc")));
}

#[test]
fn a_failed_walk_gives_no_matcher() {
    let mut walk = Walker::new(".".to_string(), false, None);
    walk.fail(mf::errors::Error("cannot read .".to_string()));
    match FileMatcher::from_dir(walk) {
        Ok(_) => panic!("a matcher came of a failed walk"),
        Err(e) => assert_eq!(e.to_string(), "cannot read ."),
    }
}
