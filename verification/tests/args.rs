use mf::args::{parse, Request};
use mf::options::{Flow, Options};

fn args(list: &[&str]) -> Vec<String> {
    list.iter().map(|s| s.to_string()).collect()
}

fn run(list: &[&str]) -> (Options, String) {
    match parse(args(list)) {
        Ok(Request::Run(o, folder)) => (o, folder),
        Ok(_) => panic!("the command line was not taken as a search"),
        Err(e) => panic!("{}", e.to_string()),
    }
}

fn error(list: &[&str]) -> String {
    match parse(args(list)) {
        Ok(_) => panic!("the command line was taken"),
        Err(e) => e.to_string(),
    }
}

#[test]
fn no_argument_means_the_current_directory() {
    let (o, folder) = run(&["mf"]);
    assert_eq!(folder, ".");
    assert!(!o.depth);
    assert!(o.maxdepth.is_none());
    assert!(o.names.is_empty());
    assert!(o.paths.is_empty());
    assert!(o.ftype.is_none());
    assert!(o.uid.is_none());
    assert!(o.gid.is_none());
    assert!(o.perms.is_none());
    assert!(o.command.is_none());
    let (_, folder) = run(&[]);
    assert_eq!(folder, ".");
}

#[test]
fn folder_is_what_the_options_leave() {
    let (_, folder) = run(&["mf", "/tmp"]);
    assert_eq!(folder, "/tmp");
    let (o, folder) = run(&["mf", "-n", "*.rs", "src", "-d"]);
    assert_eq!(folder, "src");
    assert!(o.depth);
    assert_eq!(o.names.len(), 1);
    assert!(o.names[0].matches("main.rs"));
}

#[test]
fn options_are_taken_in_short_and_long_form() {
    let (o, folder) = run(&[
        "mf", "--depth", "-g", "100", "--uid", "1000", "-P", "644", "--type", "f", "-m", "3",
        "--path", "./src*", "--exec", "echo {}", "dir",
    ]);
    assert_eq!(folder, "dir");
    assert!(o.depth);
    assert_eq!(o.gid, Some(100));
    assert_eq!(o.uid, Some(1000));
    assert_eq!(o.perms, Some(0o644));
    assert_eq!(o.ftype, Some('f'));
    assert_eq!(o.maxdepth, Some(3));
    assert_eq!(o.paths.len(), 1);
    assert!(o.paths[0].matches("./src/lib.rs"));
    assert_eq!(o.command.as_deref(), Some("echo {}"));
}

#[test]
fn repeated_patterns_are_all_kept() {
    let (o, _) = run(&["mf", "-n", "*.pdf*", "-n", "*bak"]);
    assert_eq!(o.names.len(), 2);
    assert!(o.names[0].matches("report.pdf.bak"));
    assert!(o.names[1].matches("report.pdf.bak"));
    assert!(!o.names[0].matches("report.bak"));
}

#[test]
fn help_ends_the_reading() {
    assert!(matches!(parse(args(&["mf", "-h"])), Ok(Request::Help)));
    assert!(matches!(parse(args(&["mf", "--help", "x"])), Ok(Request::Help)));
}

#[test]
fn version_flag_is_rejected() {
    assert!(matches!(parse(args(&["mf", "-V"])), Ok(Request::Reject)));
    assert!(matches!(parse(args(&["mf", "--version"])), Ok(Request::Reject)));
}

#[test]
fn option_without_its_value_is_rejected() {
    assert!(matches!(parse(args(&["mf", ".", "-n"])), Ok(Request::Reject)));
}

#[test]
fn invalid_values_are_errors() {
    assert_eq!(error(&["mf", "-g", "staff"]), "Invalid ID: `staff`.");
    assert_eq!(error(&["mf", "-u", "-1"]), "Invalid ID: `-1`.");
    assert_eq!(error(&["mf", "-P", "rwx"]), "Invalid permission bits: `rwx`");
    assert_eq!(error(&["mf", "-P", "8"]), "Invalid permission bits: `8`");
    assert_eq!(error(&["mf", "-t", "x"]), "Invalid file type: `x`.");
    assert_eq!(error(&["mf", "-t", "ff"]), "Invalid file type: `ff`.");
    assert_eq!(error(&["mf", "-m", "deep"]), "Invalid depth: `deep`.");
    assert_eq!(error(&["mf", "-m", "4294967296"]), "Invalid depth: `4294967296`.");
}

#[test]
fn apply_takes_one_option() {
    let mut o = Options::new();
    assert_eq!(o.apply('d', None).unwrap(), Flow::Go);
    assert!(o.depth);
    assert_eq!(o.apply('h', None).unwrap(), Flow::Help);
    assert_eq!(o.apply('v', None).unwrap(), Flow::Version);
    assert_eq!(o.apply('V', None).unwrap(), Flow::Reject);
    assert_eq!(o.apply('\0', None).unwrap(), Flow::Reject);
    assert_eq!(o.apply('n', None).unwrap(), Flow::Reject);
    assert_eq!(o.apply('x', Some("ls -l".to_string())).unwrap(), Flow::Go);
    assert_eq!(o.command.as_deref(), Some("ls -l"));
    assert_eq!(o.apply('x', None).unwrap(), Flow::Go);
    assert!(o.command.is_none());
    assert_eq!(o.apply('m', Some("+7".to_string())).unwrap(), Flow::Go);
    assert_eq!(o.maxdepth, Some(7));
    assert_eq!(o.apply('t', Some("d".to_string())).unwrap(), Flow::Go);
    assert_eq!(o.ftype, Some('d'));
    assert_eq!(o.apply('P', Some("4755".to_string())).unwrap(), Flow::Go);
    assert_eq!(o.perms, Some(0o4755));
    assert_eq!(
        o.apply('u', Some("".to_string())).unwrap_err().to_string(),
        "Invalid ID: ``."
    );
    assert!(o.uid.is_none());
}
