use regex_finder::search::{find, walk_tree, FindError, Probe, Root, Search, Trace};
use regex_finder::trace::{indent, render};

fn root(path: &str) -> Root {
    Root { path: path.to_string(), exists: true }
}

fn missing(path: &str) -> Root {
    Root { path: path.to_string(), exists: false }
}

fn texts(items: &[&str]) -> Vec<String> {
    items.iter().map(|s| s.to_string()).collect()
}

fn dir(children: &[&str]) -> Probe {
    Probe::Directory { children: texts(children) }
}

fn file(name: &str) -> Probe {
    Probe::File { name: Some(name.to_string()) }
}

/// A small tree: `top` holds `a.txt`, `b.log` and `sub`, which holds `c.txt`.
fn sample_tree(path: &str) -> Probe {
    match path {
        "top" => dir(&["top/a.txt", "top/b.log", "top/sub"]),
        "top/a.txt" => file("a.txt"),
        "top/b.log" => file("b.log"),
        "top/sub" => dir(&["top/sub/c.txt"]),
        "top/sub/c.txt" => file("c.txt"),
        "x.csv" => file("x.csv"),
        "empty" => dir(&[]),
        "odd" => dir(&["odd/raw", "odd/z.txt"]),
        "odd/raw" => Probe::File { name: None },
        "odd/z.txt" => file("z.txt"),
        "racy" => dir(&["racy/gone.txt", "racy/here.txt"]),
        "racy/gone.txt" => Probe::Vanished,
        "racy/here.txt" => file("here.txt"),
        "locked" => dir(&["locked/a.txt", "locked/inner", "locked/z.txt"]),
        "locked/a.txt" => file("a.txt"),
        "locked/inner" => Probe::Failed { message: "permission denied".to_string() },
        "locked/z.txt" => file("z.txt"),
        other => panic!("path {} is not in the tree", other),
    }
}

/// Runs a search to its end; returns it with the paths in visiting order
/// and the progress lines.
fn drive(mut search: Search, look: fn(&str) -> Probe) -> (Search, Vec<String>, Vec<Trace>) {
    let mut visited = Vec::new();
    let mut lines = Vec::new();
    while let Some(next) = search.next() {
        assert!(next.depth < usize::MAX);
        let probe = look(next.path.as_str());
        visited.push(next.path);
        if let Some(line) = walk_tree(&mut search, probe) {
            lines.push(line);
        }
    }
    (search, visited, lines)
}

fn search_in(roots: &[&str], patterns: &[&str], verbose: bool) -> Result<Vec<String>, FindError> {
    let roots: Vec<Root> = roots.iter().map(|r| root(r)).collect();
    let search = find(&roots, &texts(patterns), verbose)?;
    let (search, _, _) = drive(search, sample_tree);
    search.finish()
}

fn sorted(mut found: Vec<String>) -> Vec<String> {
    found.sort();
    found
}

#[test]
fn one_pattern_over_a_tree() {
    let found = search_in(&["top"], &[r"\.txt$"], false).unwrap();
    assert_eq!(sorted(found), texts(&["top/a.txt", "top/sub/c.txt"]));
}

#[test]
fn two_patterns_over_a_tree() {
    let found = search_in(&["top"], &[r"\.txt$", r"\.log$"], false).unwrap();
    assert_eq!(sorted(found), texts(&["top/a.txt", "top/b.log", "top/sub/c.txt"]));
}

#[test]
fn a_root_may_be_a_file() {
    let found = search_in(&["x.csv"], &[r"\.csv$"], false).unwrap();
    assert_eq!(found, texts(&["x.csv"]));
}

#[test]
fn an_empty_directory_gives_an_empty_result() {
    let found = search_in(&["empty"], &[r".*"], false).unwrap();
    assert!(found.is_empty());
}

#[test]
fn no_match_is_not_an_error() {
    let found = search_in(&["top"], &[r"\.rs$"], false);
    assert_eq!(found, Ok(Vec::new()));
}

#[test]
fn overlapping_roots_report_a_path_once() {
    let found = search_in(&["top", "top", "top/sub/c.txt"], &[r"\.txt$"], false).unwrap();
    assert_eq!(found, texts(&["top/a.txt", "top/sub/c.txt"]));
}

#[test]
fn a_name_that_matches_two_patterns_is_reported_once() {
    let found = search_in(&["top"], &[r"^a", r"\.txt$", r"a\.txt"], false).unwrap();
    assert_eq!(found, texts(&["top/a.txt", "top/sub/c.txt"]));
}

#[test]
fn the_base_name_is_matched_not_the_path() {
    let found = search_in(&["top"], &["sub"], false).unwrap();
    assert!(found.is_empty());
    let found = search_in(&["top"], &["^c"], false).unwrap();
    assert_eq!(found, texts(&["top/sub/c.txt"]));
}

#[test]
fn an_unbalanced_pattern_stops_the_search_before_it_begins() {
    let roots = vec![root("top")];
    match find(&roots, &texts(&["("]), false) {
        Err(FindError::InvalidPattern(pattern)) => assert_eq!(pattern, "("),
        _ => panic!("the pattern should have been refused"),
    }
}

#[test]
fn the_first_bad_pattern_is_the_one_reported() {
    let roots = vec![root("top")];
    let patterns = texts(&[r"\.txt$", "[", "("]);
    assert_eq!(
        find(&roots, &patterns, true).err(),
        Some(FindError::InvalidPattern("[".to_string()))
    );
}

#[test]
fn a_missing_root_stops_the_search_before_it_begins() {
    let roots = vec![root("top"), missing("nowhere"), missing("neither")];
    assert_eq!(
        find(&roots, &texts(&[r"\.txt$"]), false).err(),
        Some(FindError::InvalidPath("nowhere".to_string()))
    );
}

#[test]
fn roots_are_checked_before_patterns() {
    let roots = vec![missing("nowhere")];
    assert_eq!(
        find(&roots, &texts(&["("]), false).err(),
        Some(FindError::InvalidPath("nowhere".to_string()))
    );
}

#[test]
fn a_fresh_search_stands_before_its_first_root() {
    let roots = vec![root("top"), root("x.csv")];
    let search = find(&roots, &texts(&["a"]), false).unwrap();
    let next = search.next().unwrap();
    assert_eq!(next.path, "top");
    assert_eq!(next.depth, 0);
    assert_eq!(search.finish(), Ok(Vec::new()));
}

#[test]
fn a_search_without_roots_has_nothing_to_visit() {
    let search = find(&Vec::new(), &texts(&["a"]), true).unwrap();
    assert!(search.next().is_none());
    assert_eq!(search.finish(), Ok(Vec::new()));
}

#[test]
fn directories_are_visited_before_their_siblings() {
    let roots = vec![root("top"), root("x.csv")];
    let search = find(&roots, &texts(&["a"]), false).unwrap();
    let (_, visited, _) = drive(search, sample_tree);
    assert_eq!(
        visited,
        texts(&["top", "top/a.txt", "top/b.log", "top/sub", "top/sub/c.txt", "x.csv"])
    );
}

#[test]
fn entries_lie_one_level_below_their_directory() {
    let mut search = find(&vec![root("top")], &texts(&["a"]), false).unwrap();
    walk_tree(&mut search, sample_tree("top"));
    assert_eq!(search.next().unwrap().depth, 1);
    walk_tree(&mut search, sample_tree("top/a.txt"));
    walk_tree(&mut search, sample_tree("top/b.log"));
    let next = search.next().unwrap();
    assert_eq!((next.path.as_str(), next.depth), ("top/sub", 1));
    walk_tree(&mut search, sample_tree("top/sub"));
    let next = search.next().unwrap();
    assert_eq!((next.path.as_str(), next.depth), ("top/sub/c.txt", 2));
}

#[test]
fn a_name_that_is_not_text_is_skipped_silently() {
    let search = find(&vec![root("odd")], &texts(&[".*"]), true).unwrap();
    let (search, visited, lines) = drive(search, sample_tree);
    assert_eq!(visited, texts(&["odd", "odd/raw", "odd/z.txt"]));
    assert_eq!(lines.len(), 2);
    assert_eq!(search.finish(), Ok(texts(&["odd/z.txt"])));
}

#[test]
fn an_unreadable_path_fails_the_whole_search() {
    let search = find(&vec![root("locked"), root("top")], &texts(&[r"\.txt$"]), false).unwrap();
    let (search, visited, _) = drive(search, sample_tree);
    assert_eq!(visited, texts(&["locked", "locked/a.txt", "locked/inner"]));
    assert_eq!(search.finish(), Err(FindError::Traversal("permission denied".to_string())));
}

#[test]
fn nothing_moves_a_failed_search() {
    let mut search = find(&vec![root("locked")], &texts(&[r"\.txt$"]), true).unwrap();
    walk_tree(&mut search, sample_tree("locked"));
    walk_tree(&mut search, sample_tree("locked/a.txt"));
    walk_tree(&mut search, sample_tree("locked/inner"));
    assert!(search.next().is_none());
    assert_eq!(walk_tree(&mut search, file("z.txt")), None);
    assert_eq!(walk_tree(&mut search, dir(&["more"])), None);
    assert_eq!(
        walk_tree(&mut search, Probe::Failed { message: "later".to_string() }),
        None
    );
    assert!(search.next().is_none());
    assert_eq!(search.finish(), Err(FindError::Traversal("permission denied".to_string())));
}

#[test]
fn nothing_moves_a_finished_search() {
    let mut search = find(&vec![root("x.csv")], &texts(&["csv"]), true).unwrap();
    walk_tree(&mut search, sample_tree("x.csv"));
    assert!(search.next().is_none());
    assert_eq!(walk_tree(&mut search, file("y.csv")), None);
    assert_eq!(
        walk_tree(&mut search, Probe::Failed { message: "late".to_string() }),
        None
    );
    assert_eq!(search.finish(), Ok(texts(&["x.csv"])));
}

#[test]
fn record_file_goes_by_the_flag_it_is_given() {
    let mut search = find(&vec![root("p"), root("q"), root("p")], &texts(&["never"]), true).unwrap();
    assert_eq!(
        search.record_file(Some("n".to_string()), true),
        Some(Trace::Matched { depth: 0, name: "n".to_string() })
    );
    assert_eq!(
        search.record_file(Some("m".to_string()), false),
        Some(Trace::Checked { depth: 0, name: "m".to_string() })
    );
    assert_eq!(search.record_file(None, true), None);
    assert_eq!(search.finish(), Ok(texts(&["p"])));
}

#[test]
fn enter_directory_puts_the_entries_first() {
    let mut search = find(&vec![root("d"), root("e")], &texts(&["x"]), true).unwrap();
    assert_eq!(
        search.enter_directory(texts(&["d/1", "d/2"])),
        Some(Trace::Directory { depth: 0, path: "d".to_string() })
    );
    let mut order = Vec::new();
    while let Some(next) = search.next() {
        order.push((next.path, next.depth));
        search.record_file(None, false);
    }
    assert_eq!(
        order,
        vec![("d/1".to_string(), 1), ("d/2".to_string(), 1), ("e".to_string(), 0)]
    );
}

#[test]
fn fail_gives_up_what_was_found() {
    let mut search = find(&vec![root("p"), root("q")], &texts(&["x"]), false).unwrap();
    search.record_file(Some("x".to_string()), true);
    search.fail("gone".to_string());
    assert!(search.next().is_none());
    assert_eq!(search.finish(), Err(FindError::Traversal("gone".to_string())));
}

#[test]
fn a_silent_search_reports_no_progress() {
    let search = find(&vec![root("top")], &texts(&[r"\.txt$"]), false).unwrap();
    let (_, _, lines) = drive(search, sample_tree);
    assert!(lines.is_empty());
}

#[test]
fn verbose_changes_no_result() {
    let quiet = search_in(&["top", "odd"], &[r"\.txt$"], false);
    let loud = search_in(&["top", "odd"], &[r"\.txt$"], true);
    assert_eq!(quiet, loud);
}

#[test]
fn a_verbose_search_reports_each_visit() {
    let search = find(&vec![root("top")], &texts(&[r"\.txt$"]), true).unwrap();
    let (_, _, lines) = drive(search, sample_tree);
    let lines: Vec<String> = lines.iter().map(render).collect();
    assert_eq!(
        lines,
        texts(&[
            "|searching directory: top",
            "|--[*] matched: a.txt",
            "|--[-] checked: b.log",
            "|--searching directory: top/sub",
            "|----[*] matched: c.txt",
        ])
    );
}

#[test]
fn the_margin_grows_by_two_dashes_a_level() {
    assert_eq!(indent(0), "|");
    assert_eq!(indent(1), "|--");
    assert_eq!(indent(3), "|------");
}

#[test]
fn lines_are_laid_out_by_kind() {
    let line = Trace::Directory { depth: 2, path: "a/b".to_string() };
    assert_eq!(render(&line), "|----searching directory: a/b");
    let line = Trace::Matched { depth: 0, name: "x.csv".to_string() };
    assert_eq!(render(&line), "|[*] matched: x.csv");
    let line = Trace::Checked { depth: 1, name: "y".to_string() };
    assert_eq!(render(&line), "|--[-] checked: y");
}

#[test]
fn an_entry_that_went_away_is_passed_over() {
    let search = find(&vec![root("racy")], &texts(&[r"\.txt$"]), true).unwrap();
    let (search, visited, lines) = drive(search, sample_tree);
    assert_eq!(visited, texts(&["racy", "racy/gone.txt", "racy/here.txt"]));
    let lines: Vec<String> = lines.iter().map(render).collect();
    assert_eq!(lines, texts(&["|searching directory: racy", "|--[*] matched: here.txt"]));
    assert_eq!(search.finish(), Ok(texts(&["racy/here.txt"])));
}

#[test]
fn a_visited_file_is_reported_exactly_if_its_name_matches() {
    let patterns = texts(&[r"^a", r"\.log$"]);
    let roots = vec![root("top"), root("odd"), root("x.csv")];
    let search = find(&roots, &patterns, false).unwrap();
    let (search, visited, _) = drive(search, sample_tree);
    let found = search.finish().unwrap();
    let compiled = regex_finder::pattern::compile_all(&patterns).ok().unwrap();
    for path in visited {
        let expected = match sample_tree(path.as_str()) {
            Probe::File { name: Some(name) } => {
                regex_finder::pattern::matches_any(&compiled, name.as_str())
            }
            _ => false,
        };
        assert_eq!(found.contains(&path), expected, "{}", path);
    }
    assert_eq!(sorted(found), texts(&["top/a.txt", "top/b.log"]));
}
