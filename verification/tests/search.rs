use zyma::error::FsError;
use zyma::matcher::build_matcher;
use zyma::search::{
    collect_results, default_worker_count, fs_find_files, is_binary, match_name, scan_lines,
    search_in_dir, worker_count, FileSample, SearchMode, SearchQuery, SearchResult,
};

fn text_file(path: &str, relative: &str, content: &str) -> FileSample {
    FileSample {
        path: path.to_string(),
        relative: relative.to_string(),
        size: content.len() as u64,
        head: content.bytes().take(1024).collect(),
        lines: content.lines().map(|l| Some(l.to_string())).collect(),
    }
}

fn query(pattern: &str, mode: &str) -> SearchQuery {
    SearchQuery::new(
        "/ws".to_string(),
        pattern.to_string(),
        Some(mode.to_string()),
        None,
        None,
        None,
        None,
        None,
    )
}

fn paths(found: &Vec<SearchResult>) -> Vec<String> {
    found.iter().map(|r| r.path.clone()).collect()
}

fn tree() -> Vec<FileSample> {
    vec![
        text_file("/ws/foo.txt", "foo.txt", "alpha\nthe Cat sat\n"),
        text_file("/ws/bar/foo2.txt", "bar/foo2.txt", "category\n  a cat, a dog  \n"),
        text_file("/ws/other.md", "other.md", "nothing here\n"),
    ]
}

#[test]
fn query_defaults_are_content_and_case_insensitive() {
    let q = SearchQuery::new(
        "/ws".to_string(),
        "x".to_string(),
        None,
        None,
        None,
        None,
        None,
        None,
    );
    assert_eq!(q.mode, SearchMode::Content);
    assert!(!q.case_sensitive);
    assert!(!q.whole_word);
    assert!(!q.use_regex);
    assert!(q.include_globs.is_empty());
    assert!(q.exclude_globs.is_empty());
    let other = SearchQuery::new(
        "/ws".to_string(),
        "x".to_string(),
        Some("anything".to_string()),
        Some(true),
        Some(true),
        Some(true),
        Some(" *.rs , ,src/** ,".to_string()),
        Some("target/**".to_string()),
    );
    assert_eq!(other.mode, SearchMode::Content);
    assert!(other.case_sensitive && other.whole_word && other.use_regex);
    assert_eq!(other.include_globs, vec!["*.rs".to_string(), "src/**".to_string()]);
    assert_eq!(other.exclude_globs, vec!["target/**".to_string()]);
    assert_eq!(query("x", "filename").mode, SearchMode::Filename);
}

#[test]
fn filename_search_finds_both_files_in_path_order() {
    let found = search_in_dir(&query("foo", "filename"), &tree()).unwrap();
    assert_eq!(paths(&found), vec!["/ws/bar/foo2.txt".to_string(), "/ws/foo.txt".to_string()]);
    for r in &found {
        assert_eq!(r.line, 0);
        assert_eq!(r.content, "");
    }
}

#[test]
fn filename_search_matches_the_relative_path_only() {
    let found = search_in_dir(&query("ws", "filename"), &tree()).unwrap();
    assert!(found.is_empty());
    let found = search_in_dir(&query("bar/", "filename"), &tree()).unwrap();
    assert_eq!(paths(&found), vec!["/ws/bar/foo2.txt".to_string()]);
}

#[test]
fn content_search_reports_line_numbers_and_trimmed_snippets() {
    let found = search_in_dir(&query("cat", "content"), &tree()).unwrap();
    assert_eq!(found.len(), 3);
    assert_eq!(found[0].path, "/ws/bar/foo2.txt");
    assert_eq!(found[0].line, 1);
    assert_eq!(found[0].content, "category");
    assert_eq!(found[1].path, "/ws/bar/foo2.txt");
    assert_eq!(found[1].line, 2);
    assert_eq!(found[1].content, "a cat, a dog");
    assert_eq!(found[2].path, "/ws/foo.txt");
    assert_eq!(found[2].line, 2);
    assert_eq!(found[2].content, "the Cat sat");
}

#[test]
fn case_sensitive_search_respects_case() {
    let mut q = query("cat", "content");
    q.case_sensitive = true;
    let found = search_in_dir(&q, &tree()).unwrap();
    assert_eq!(found.len(), 2);
    assert_eq!(found[0].path, "/ws/bar/foo2.txt");
    assert_eq!(found[1].path, "/ws/bar/foo2.txt");
    let mut upper = query("CAT", "content");
    upper.case_sensitive = true;
    assert!(search_in_dir(&upper, &tree()).unwrap().is_empty());
    assert_eq!(search_in_dir(&query("CAT", "content"), &tree()).unwrap().len(), 3);
}

#[test]
fn whole_word_cat_does_not_match_category() {
    let m = build_matcher("cat", false, true, false).ok().unwrap();
    assert!(!m.is_match("category"));
    assert!(m.is_match("a cat sat"));
    assert!(m.is_match("Cat"));
    let mut q = query("cat", "content");
    q.whole_word = true;
    let found = search_in_dir(&q, &tree()).unwrap();
    assert_eq!(found.len(), 2);
    assert_eq!(found[0].line, 2);
    assert_eq!(found[0].path, "/ws/bar/foo2.txt");
    assert_eq!(found[1].path, "/ws/foo.txt");
}

#[test]
fn whole_word_literal_is_escaped() {
    let m = build_matcher("a.b", false, true, false).ok().unwrap();
    assert!(m.is_match("x a.b y"));
    assert!(!m.is_match("x aXb y"));
    let re = build_matcher("a.b", false, false, true).ok().unwrap();
    assert!(re.is_match("x aXb y"));
}

#[test]
fn regex_search_matches_by_the_expression() {
    let m = build_matcher("^f.o+$", true, false, true).ok().unwrap();
    assert!(m.is_match("fxooo"));
    assert!(!m.is_match("Fxooo"));
    assert!(!m.is_match("a fxo"));
    let insensitive = build_matcher("^f.o+$", false, false, true).ok().unwrap();
    assert!(insensitive.is_match("Fxooo"));
}

#[test]
fn invalid_regex_is_an_invalid_pattern_and_yields_nothing() {
    let mut q = query("(unclosed", "content");
    q.use_regex = true;
    match search_in_dir(&q, &tree()) {
        Err(FsError::InvalidPattern(p)) => assert_eq!(p, "(unclosed"),
        _ => panic!("an invalid expression was accepted"),
    }
    assert!(matches!(build_matcher("[", false, false, true), Err(FsError::InvalidPattern(_))));
    assert!(build_matcher("[", false, false, false).is_ok());
    assert!(build_matcher("[", false, true, false).is_ok());
}

#[test]
fn terms_must_all_occur() {
    let m = build_matcher("dog  cat", false, false, false).ok().unwrap();
    assert!(m.is_match("a Cat and a Dog"));
    assert!(!m.is_match("a cat alone"));
    assert!(!m.is_match("dog  only"));
    let found = search_in_dir(&query("dog cat", "content"), &tree()).unwrap();
    assert_eq!(found.len(), 1);
    assert_eq!(found[0].line, 2);
}

#[test]
fn a_pattern_of_white_space_is_looked_for_as_it_stands() {
    let m = build_matcher("  \t ", false, false, false).ok().unwrap();
    assert!(m.is_match("any  \t line"));
    assert!(!m.is_match("any \t line"));
    let found = search_in_dir(&query("  ", "content"), &tree()).unwrap();
    assert_eq!(found.len(), 1);
    assert_eq!(found[0].path, "/ws/bar/foo2.txt");
    assert_eq!(found[0].line, 2);
}

#[test]
fn empty_pattern_finds_nothing_and_never_fails() {
    assert!(search_in_dir(&query("", "content"), &tree()).unwrap().is_empty());
    assert!(search_in_dir(&query("", "filename"), &tree()).unwrap().is_empty());
    let mut q = query("", "content");
    q.use_regex = true;
    q.include_globs = vec!["[".to_string()];
    assert!(search_in_dir(&q, &tree()).unwrap().is_empty());
}

#[test]
fn binary_file_is_left_out_of_content_but_not_of_names() {
    let mut binary = text_file("/ws/foo.bin", "foo.bin", "foo\n");
    binary.head = vec![b'f', b'o', b'o', 0, b'\n'];
    let files = vec![binary, text_file("/ws/foo.txt", "foo.txt", "foo\n")];
    let found = search_in_dir(&query("foo", "content"), &files).unwrap();
    assert_eq!(paths(&found), vec!["/ws/foo.txt".to_string()]);
    let found = search_in_dir(&query("foo", "filename"), &files).unwrap();
    assert_eq!(paths(&found), vec!["/ws/foo.bin".to_string(), "/ws/foo.txt".to_string()]);
}

#[test]
fn the_sniff_looks_at_the_first_1024_bytes_only() {
    let mut head = vec![b'a'; 2000];
    assert!(!is_binary(&head));
    head[1024] = 0;
    assert!(!is_binary(&head));
    head[1023] = 0;
    assert!(is_binary(&head));
    assert!(!is_binary(&[]));
    assert!(is_binary(&[0]));
}

#[test]
fn oversized_file_is_left_out_of_content() {
    let mut big = text_file("/ws/big.txt", "big.txt", "foo\n");
    big.size = 512001;
    let mut edge = text_file("/ws/edge.txt", "edge.txt", "foo\n");
    edge.size = 512000;
    let found = search_in_dir(&query("foo", "content"), &vec![big, edge]).unwrap();
    assert_eq!(paths(&found), vec!["/ws/edge.txt".to_string()]);
}

#[test]
fn overlong_and_unreadable_lines_are_passed_over_but_counted() {
    let m = build_matcher("x", false, false, false).ok().unwrap();
    let lines = vec![
        Some("x".repeat(10001)),
        None,
        Some("x".repeat(10000)),
        Some("no".to_string()),
        Some("  x  ".to_string()),
    ];
    let found = scan_lines(&m, "C:\\ws\\a.txt", &lines);
    assert_eq!(found.len(), 2);
    assert_eq!(found[0].line, 3);
    assert_eq!(found[0].content, "x".repeat(100));
    assert_eq!(found[0].path, "C:/ws/a.txt");
    assert_eq!(found[1].line, 5);
    assert_eq!(found[1].content, "x");
}

#[test]
fn one_file_contributes_at_most_its_share() {
    let m = build_matcher("hit", false, false, false).ok().unwrap();
    let lines: Vec<Option<String>> = (0..2500).map(|i| Some(format!("hit {}", i))).collect();
    let found = scan_lines(&m, "/ws/a.txt", &lines);
    assert_eq!(found.len(), 2000);
    assert_eq!(found[0].line, 1);
    assert_eq!(found[1999].line, 2000);
    assert_eq!(found[1999].content, "hit 1999");
}

#[test]
fn three_thousand_matching_lines_yield_two_thousand_sorted_results() {
    let body: String = (0..1000).map(|i| format!("match {}\n", i)).collect();
    let files = vec![
        text_file("/ws/c.txt", "c.txt", &body),
        text_file("/ws/a.txt", "a.txt", &body),
        text_file("/ws/b.txt", "b.txt", &body),
    ];
    let found = search_in_dir(&query("match", "content"), &files).unwrap();
    assert_eq!(found.len(), 2000);
    for w in found.windows(2) {
        assert!((w[0].path.as_str(), w[0].line) <= (w[1].path.as_str(), w[1].line));
    }
    assert_eq!(found[0].path, "/ws/a.txt");
    assert_eq!(found[0].line, 1);
    assert_eq!(found[999].line, 1000);
    assert_eq!(found[1000].path, "/ws/c.txt");
    assert!(found.iter().all(|r| r.path != "/ws/b.txt"));
}

#[test]
fn collect_orders_by_path_bytes_then_line() {
    let r = |p: &str, l: usize| SearchResult { path: p.to_string(), line: l, content: String::new() };
    let received = vec![r("b", 2), r("a/b", 7), r("B", 1), r("a", 9), r("b", 1), r("é", 1), r("a", 3)];
    let got: Vec<(String, usize)> =
        collect_results(received).into_iter().map(|x| (x.path, x.line)).collect();
    let want: Vec<(String, usize)> = vec![
        ("B".to_string(), 1),
        ("a".to_string(), 3),
        ("a".to_string(), 9),
        ("a/b".to_string(), 7),
        ("b".to_string(), 1),
        ("b".to_string(), 2),
        ("é".to_string(), 1),
    ];
    assert_eq!(got, want);
    assert!(collect_results(Vec::new()).is_empty());
}

#[test]
fn collect_keeps_the_first_two_thousand_received() {
    let received: Vec<SearchResult> = (0..2500)
        .map(|i| SearchResult { path: format!("{:05}", 5000 - i), line: 1, content: String::new() })
        .collect();
    let got = collect_results(received);
    assert_eq!(got.len(), 2000);
    assert_eq!(got[0].path, "03001");
    assert_eq!(got[1999].path, "05000");
}

#[test]
fn include_and_exclude_globs_filter_by_relative_path() {
    let files = vec![
        text_file("/ws/src/a.rs", "src/a.rs", "needle\n"),
        text_file("/ws/src/gen/b.rs", "src/gen/b.rs", "needle\n"),
        text_file("/ws/doc/c.md", "doc/c.md", "needle\n"),
    ];
    let mut q = query("needle", "content");
    q.include_globs = vec!["*.rs".to_string()];
    assert_eq!(
        paths(&search_in_dir(&q, &files).unwrap()),
        vec!["/ws/src/a.rs".to_string(), "/ws/src/gen/b.rs".to_string()]
    );
    q.exclude_globs = vec!["src/gen/**".to_string()];
    assert_eq!(paths(&search_in_dir(&q, &files).unwrap()), vec!["/ws/src/a.rs".to_string()]);
    q.include_globs = Vec::new();
    assert_eq!(
        paths(&search_in_dir(&q, &files).unwrap()),
        vec!["/ws/doc/c.md".to_string(), "/ws/src/a.rs".to_string()]
    );
    q.mode = SearchMode::Filename;
    q.pattern = "doc".to_string();
    q.exclude_globs = Vec::new();
    assert_eq!(paths(&search_in_dir(&q, &files).unwrap()), vec!["/ws/doc/c.md".to_string()]);
    q.exclude_globs = vec!["*.md".to_string()];
    assert!(search_in_dir(&q, &files).unwrap().is_empty());
}

#[test]
fn globs_see_backslashes_as_slashes() {
    let files = vec![text_file("C:\\ws\\src\\a.rs", "src\\a.rs", "needle\n")];
    let mut q = query("needle", "content");
    q.include_globs = vec!["src/*.rs".to_string()];
    let found = search_in_dir(&q, &files).unwrap();
    assert_eq!(paths(&found), vec!["C:/ws/src/a.rs".to_string()]);
    let plan = query("src/a", "filename").compile().ok().unwrap();
    let hit = match_name(plan.matcher.as_ref().unwrap(), "C:\\ws\\src\\a.rs", "src\\a.rs");
    assert_eq!(hit.unwrap().path, "C:/ws/src/a.rs");
}

#[test]
fn invalid_glob_fails_the_whole_query() {
    let mut q = query("needle", "content");
    q.include_globs = vec!["*.rs".to_string(), "a[".to_string()];
    match search_in_dir(&q, &tree()) {
        Err(FsError::InvalidPattern(p)) => assert_eq!(p, "a["),
        _ => panic!("an invalid include glob was accepted"),
    }
    let mut q = query("needle", "content");
    q.exclude_globs = vec!["{a".to_string()];
    match search_in_dir(&q, &tree()) {
        Err(FsError::InvalidPattern(p)) => assert_eq!(p, "{a"),
        _ => panic!("an invalid exclude glob was accepted"),
    }
}

#[test]
fn find_files_applies_both_globs() {
    let candidates = vec![
        "/ws/src/a.rs".to_string(),
        "/ws/src/b.txt".to_string(),
        "/ws\\target\\c.rs".to_string(),
        "/ws/src/d.rs".to_string(),
    ];
    let found = fs_find_files(&candidates, "**/*.rs", Some("**/target/**".to_string()));
    assert_eq!(found.ok().unwrap(), vec!["/ws/src/a.rs".to_string(), "/ws/src/d.rs".to_string()]);
    let found = fs_find_files(&candidates, "**/*.rs", None);
    assert_eq!(
        found.ok().unwrap(),
        vec!["/ws/src/a.rs".to_string(), "/ws/target/c.rs".to_string(), "/ws/src/d.rs".to_string()]
    );
    assert!(matches!(fs_find_files(&candidates, "a[", None), Err(FsError::InvalidPattern(_))));
    assert!(matches!(
        fs_find_files(&candidates, "*", Some("a[".to_string())),
        Err(FsError::InvalidPattern(_))
    ));
}

#[test]
fn worker_count_is_capped_at_eight() {
    assert_eq!(worker_count(1), 1);
    assert_eq!(worker_count(7), 7);
    assert_eq!(worker_count(8), 8);
    assert_eq!(worker_count(64), 8);
    let n = default_worker_count();
    assert!(1 <= n && n <= 8);
}

#[test]
fn a_backslash_in_a_glob_is_read_as_a_slash() {
    let files = vec![
        text_file("/ws/src/a.rs", "src/a.rs", "needle\n"),
        text_file("/ws/doc/a.rs", "doc/a.rs", "needle\n"),
    ];
    let mut q = query("needle", "content");
    q.include_globs = vec!["src\\*.rs".to_string()];
    assert_eq!(paths(&search_in_dir(&q, &files).unwrap()), vec!["/ws/src/a.rs".to_string()]);
    q.include_globs = vec!["src\\".to_string()];
    assert!(search_in_dir(&q, &files).unwrap().is_empty());
    let candidates = vec!["/ws/src/a.rs".to_string(), "/ws/doc/a.rs".to_string()];
    let found = fs_find_files(&candidates, "**\\src\\*", Some("**\\doc\\**".to_string()));
    assert_eq!(found.ok().unwrap(), vec!["/ws/src/a.rs".to_string()]);
}
