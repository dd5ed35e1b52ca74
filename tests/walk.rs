use ctxgrep::walk::{Probe, Step, Walk};

/// A small file tree held in memory: each path with what looking it up gives.
fn look_up(path: &str) -> Probe {
    let dir = |children: &[&str]| Probe::Directory(children.iter().map(|c| c.to_string()).collect());
    match path {
        "top" => dir(&["top/a.txt", "top/sub"]),
        "top/a.txt" => Probe::File("/abs/top/a.txt".to_string()),
        "top/sub" => dir(&["top/sub/b.txt", "top/sub/sub2"]),
        "top/sub/b.txt" => Probe::File("/abs/top/sub/b.txt".to_string()),
        "top/sub/sub2" => dir(&["top/sub/sub2/c.txt"]),
        "top/sub/sub2/c.txt" => Probe::File("/abs/top/sub/sub2/c.txt".to_string()),
        "mixed" => dir(&["mixed/one.txt", "mixed/locked.txt", "mixed/two.txt", "mixed/fifo"]),
        "mixed/one.txt" => Probe::File("/abs/mixed/one.txt".to_string()),
        "mixed/two.txt" => Probe::File("/abs/mixed/two.txt".to_string()),
        "mixed/fifo" => Probe::Other,
        _ => Probe::Failed("permission denied".to_string()),
    }
}

/// Runs a whole walk: the files found, and the paths that failed.
fn run(root: &str) -> (Vec<String>, Vec<(String, String)>) {
    let mut walk = Walk::new(root);
    let mut files = Vec::new();
    let mut errors = Vec::new();
    while let Some(path) = walk.next_path() {
        let probe = look_up(&path.clone());
        match walk.advance(probe) {
            Step::Found(f) => files.push(f),
            Step::Nothing => {}
            Step::Error(e) => errors.push((e.path, e.cause)),
        }
    }
    assert!(walk.is_done());
    (files, errors)
}

#[test]
fn walk_finds_files_at_every_depth() {
    let (files, errors) = run("top");
    assert_eq!(
        files,
        vec![
            "/abs/top/a.txt".to_string(),
            "/abs/top/sub/b.txt".to_string(),
            "/abs/top/sub/sub2/c.txt".to_string(),
        ]
    );
    assert!(errors.is_empty());
}

#[test]
fn walk_goes_on_past_an_unreadable_file() {
    let (files, errors) = run("mixed");
    assert_eq!(files, vec!["/abs/mixed/one.txt".to_string(), "/abs/mixed/two.txt".to_string()]);
    assert_eq!(errors, vec![("mixed/locked.txt".to_string(), "permission denied".to_string())]);
}

#[test]
fn walk_of_a_single_file() {
    let (files, errors) = run("top/a.txt");
    assert_eq!(files, vec!["/abs/top/a.txt".to_string()]);
    assert!(errors.is_empty());
}

#[test]
fn walk_of_a_missing_root_reports_it() {
    let (files, errors) = run("nowhere");
    assert!(files.is_empty());
    assert_eq!(errors, vec![("nowhere".to_string(), "permission denied".to_string())]);
}

#[test]
fn walk_visits_children_before_later_siblings() {
    let mut walk = Walk::new("top");
    let mut order = Vec::new();
    while let Some(path) = walk.next_path() {
        let p = path.clone();
        order.push(p.clone());
        walk.advance(look_up(&p));
    }
    assert_eq!(
        order,
        vec!["top", "top/a.txt", "top/sub", "top/sub/b.txt", "top/sub/sub2", "top/sub/sub2/c.txt"]
    );
}

#[test]
fn walk_twice_gives_the_same_files() {
    assert_eq!(run("top"), run("top"));
}
