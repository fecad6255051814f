use mf::errors::Error;
use mf::matcher::File;
use mf::walker::Walker;

/// An entry of a directory tree held in memory.
struct Node {
    path: &'static str,
    children: Option<Vec<Node>>,
}

fn leaf(path: &'static str) -> Node {
    Node { path, children: None }
}

fn branch(path: &'static str, children: Vec<Node>) -> Node {
    Node { path, children: Some(children) }
}

fn find<'a>(nodes: &'a Vec<Node>, path: &str) -> Option<&'a Vec<Node>> {
    for n in nodes {
        if let Some(children) = &n.children {
            if n.path == path {
                return Some(children);
            }
            if let Some(found) = find(children, path) {
                return Some(found);
            }
        }
    }
    None
}

fn listing(nodes: &Vec<Node>) -> Vec<File> {
    nodes
        .iter()
        .map(|n| File::new(n.path.to_string(), n.children.is_some(), 0, 0, 0o644))
        .collect()
}

/// Walks the tree `root`, and gives the paths in the order of the walk and
/// the directories in the order in which they were listed.
fn run(root: &Vec<Node>, depth: bool, maxdepth: Option<u32>) -> (Vec<String>, Vec<String>) {
    let mut walk = Walker::new(".".to_string(), depth, maxdepth);
    let mut listed = vec![];
    loop {
        let wanted = match walk.wanted() {
            Some(path) => path.clone(),
            None => break,
        };
        let entries = if wanted == "." {
            listing(root)
        } else {
            listing(find(root, &wanted).unwrap())
        };
        listed.push(wanted);
        walk.supply(entries);
    }
    let files = walk.finish().unwrap();
    (files.into_iter().map(|f| f.path).collect(), listed)
}

fn tree() -> Vec<Node> {
    vec![
        branch("./a", vec![branch("./a/c", vec![]), leaf("./a/d")]),
        leaf("./b"),
        branch("./e", vec![branch("./e/f", vec![leaf("./e/f/g")])]),
    ]
}

#[test]
fn directory_comes_before_its_file() {
    let t = vec![branch("./D", vec![leaf("./D/F")])];
    let (paths, _) = run(&t, false, None);
    assert_eq!(paths, vec!["./D", "./D/F"]);
}

#[test]
fn directory_comes_after_its_file_depth_first() {
    let t = vec![branch("./D", vec![leaf("./D/F")])];
    let (paths, _) = run(&t, true, None);
    assert_eq!(paths, vec!["./D/F", "./D"]);
}

#[test]
fn walk_gives_every_entry_once() {
    let (paths, listed) = run(&tree(), false, None);
    assert_eq!(
        paths,
        vec!["./a", "./a/c", "./a/d", "./b", "./e", "./e/f", "./e/f/g"]
    );
    assert_eq!(paths.len(), 7);
    assert_eq!(listed, vec![".", "./a", "./a/c", "./e", "./e/f"]);
}

#[test]
fn depth_first_walk_gives_every_entry_once() {
    let (paths, listed) = run(&tree(), true, None);
    assert_eq!(
        paths,
        vec!["./a/c", "./a/d", "./a", "./b", "./e/f/g", "./e/f", "./e"]
    );
    assert_eq!(listed, vec![".", "./a", "./a/c", "./e", "./e/f"]);
}

#[test]
fn root_is_never_given_out() {
    let (paths, _) = run(&tree(), false, None);
    assert!(!paths.contains(&".".to_string()));
    let (paths, listed) = run(&vec![], true, None);
    assert!(paths.is_empty());
    assert_eq!(listed, vec!["."]);
}

#[test]
fn depth_zero_gives_nothing_and_lists_nothing() {
    let walk = Walker::new(".".to_string(), false, Some(0));
    assert!(walk.done());
    assert!(walk.wanted().is_none());
    assert!(walk.finish().unwrap().is_empty());
    let (paths, listed) = run(&tree(), true, Some(0));
    assert!(paths.is_empty());
    assert!(listed.is_empty());
}

#[test]
fn depth_one_gives_the_entries_of_the_root() {
    for depth in [false, true] {
        let (paths, listed) = run(&tree(), depth, Some(1));
        assert_eq!(paths, vec!["./a", "./b", "./e"]);
        assert_eq!(listed, vec!["."]);
    }
}

#[test]
fn depth_two_stops_below_the_second_level() {
    let (paths, listed) = run(&tree(), false, Some(2));
    assert_eq!(paths, vec!["./a", "./a/c", "./a/d", "./b", "./e", "./e/f"]);
    assert_eq!(listed, vec![".", "./a", "./e"]);
    let (paths, _) = run(&tree(), true, Some(2));
    assert_eq!(paths, vec!["./a/c", "./a/d", "./a", "./b", "./e/f", "./e"]);
}

#[test]
fn depth_beyond_the_tree_changes_nothing() {
    assert_eq!(run(&tree(), false, Some(3)), run(&tree(), false, None));
    assert_eq!(run(&tree(), true, Some(u32::MAX)), run(&tree(), true, None));
}

#[test]
fn walker_wants_the_root_first() {
    let walk = Walker::new("/some/where".to_string(), false, None);
    assert!(!walk.done());
    assert_eq!(walk.wanted().unwrap(), "/some/where");
}

#[test]
fn entries_keep_the_order_of_the_listing() {
    let t = vec![leaf("./z"), leaf("./a"), leaf("./m")];
    let (paths, _) = run(&t, false, None);
    assert_eq!(paths, vec!["./z", "./a", "./m"]);
}

#[test]
fn failure_ends_the_walk_and_is_all_that_comes_of_it() {
    let mut walk = Walker::new(".".to_string(), false, None);
    walk.supply(listing(&vec![leaf("./x"), branch("./d", vec![])]));
    assert_eq!(walk.wanted().unwrap(), "./d");
    walk.fail(Error("./d: permission denied".to_string()));
    assert!(walk.done());
    match walk.finish() {
        Ok(_) => panic!("records came of a failed walk"),
        Err(e) => assert_eq!(e.to_string(), "./d: permission denied"),
    }
}

#[test]
fn a_walk_that_is_over_takes_nothing_more() {
    let mut walk = Walker::new(".".to_string(), false, None);
    walk.supply(listing(&vec![leaf("./x")]));
    assert!(walk.done());
    walk.supply(listing(&vec![leaf("./y")]));
    walk.fail(Error("late".to_string()));
    let files = walk.finish().unwrap();
    assert_eq!(files.len(), 1);
    assert_eq!(files[0].path, "./x");

    let mut walk = Walker::new(".".to_string(), false, None);
    walk.fail(Error("first".to_string()));
    walk.supply(listing(&vec![leaf("./y")]));
    walk.fail(Error("second".to_string()));
    assert_eq!(walk.finish().unwrap_err().to_string(), "first");
}

#[test]
fn error_holds_its_message() {
    let e = Error("boom".to_string());
    assert_eq!(e.to_string(), "boom");
    assert_eq!(e.0, "boom");
    assert_eq!(e.clone().to_string(), "boom");
}
