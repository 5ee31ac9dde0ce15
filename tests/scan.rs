use feature_miner::{
    commit_records, line_records, extension_allowed, format_commit_time, FIRST_RENDERABLE_SECOND,
    LAST_RENDERABLE_SECOND, parse_pattern_line, scan_history, scan_lines,
    Aggregator, CommitInfo, HistoryEntry, Occurrence, PatternError, PatternFile, PatternLine,
    PatternSet,
};
use rayon::iter::{IntoParallelRefIterator, ParallelIterator};

fn pairs(items: &[(&str, &str)]) -> Vec<(String, String)> {
    items.iter().map(|(l, p)| (l.to_string(), p.to_string())).collect()
}

fn lines(items: &[&str]) -> Vec<String> {
    items.iter().map(|s| s.to_string()).collect()
}

fn key(o: &Occurrence) -> (String, String, usize) {
    (o.feature.clone(), o.path.clone(), o.line)
}

fn commit(hash: &str, message: &str) -> CommitInfo {
    CommitInfo::new(hash.to_string(), Some("Ada".to_string()), 0, Some(message.to_string())).unwrap()
}

#[test]
fn compile_keeps_labels_in_order() {
    let ps = PatternSet::compile(&pairs(&[("alpha", "a+"), ("beta", "b")])).unwrap();
    assert_eq!(ps.len(), 2);
    assert_eq!(ps.label(0), "alpha");
    assert_eq!(ps.label(1), "beta");
}

#[test]
fn compile_empty_list_succeeds() {
    let ps = PatternSet::compile(&Vec::new()).unwrap();
    assert_eq!(ps.len(), 0);
    assert!(scan_lines(&ps, &"a.c".to_string(), &lines(&["anything"])).is_empty());
}

#[test]
fn compile_reports_first_invalid_pattern() {
    let r = PatternSet::compile(&pairs(&[("ok", "x"), ("bad", "("), ("worse", "[")]));
    assert_eq!(r.err(), Some(PatternError::InvalidPattern { index: 1 }));
}

#[test]
fn compile_rejects_empty_label() {
    let r = PatternSet::compile(&pairs(&[("", "x")]));
    assert_eq!(r.err(), Some(PatternError::InvalidPattern { index: 0 }));
}

#[test]
fn matching_returns_ascending_indices() {
    let ps = PatternSet::compile(&pairs(&[
        ("w", r"\w+"),
        ("d", r"\d+"),
        ("l", r"\pL+"),
        ("foo", "foo"),
        ("bar", "bar"),
        ("barfoo", "barfoo"),
        ("foobar", "foobar"),
    ]))
    .unwrap();
    assert_eq!(ps.matching("foobar"), vec![0, 2, 3, 4, 6]);
}

#[test]
fn scan_lines_reports_each_line_and_pattern() {
    let ps = PatternSet::compile(&pairs(&[("lock", "mutex"), ("alloc", "k[mz]alloc")])).unwrap();
    let text = lines(&["int x;", "mutex_lock(&m); kmalloc(4);", "", "kzalloc(1)"]);
    let r = scan_lines(&ps, &"drivers/a.c".to_string(), &text);
    let keys: Vec<_> = r.iter().map(key).collect();
    assert_eq!(
        keys,
        vec![
            ("lock".to_string(), "drivers/a.c".to_string(), 2),
            ("alloc".to_string(), "drivers/a.c".to_string(), 2),
            ("alloc".to_string(), "drivers/a.c".to_string(), 4),
        ]
    );
    for o in &r {
        assert!(o.commit_hash.is_none() && o.author.is_none() && o.date.is_none());
        assert!(o.commit_message.is_none() && o.branch.is_none());
    }
}

#[test]
fn scan_lines_no_match_gives_nothing() {
    let ps = PatternSet::compile(&pairs(&[("x", "zzz")])).unwrap();
    let r = scan_lines(&ps, &"f.c".to_string(), &lines(&["a", "b"]));
    assert!(r.is_empty());
    let empty = scan_lines(&ps, &"f.c".to_string(), &Vec::new());
    assert!(empty.is_empty());
}

#[test]
fn scanning_twice_gives_the_same_records() {
    let ps = PatternSet::compile(&pairs(&[("a", "a"), ("b", "b")])).unwrap();
    let text = lines(&["ab", "ba", "c"]);
    let path = "x.txt".to_string();
    let r1: Vec<_> = scan_lines(&ps, &path, &text).iter().map(key).collect();
    let r2: Vec<_> = scan_lines(&ps, &path, &text).iter().map(key).collect();
    assert_eq!(r1, r2);
    assert_eq!(r1.len(), 4);
}

#[test]
fn every_record_has_one_shape() {
    let ps = PatternSet::compile(&pairs(&[("fix", "fix")])).unwrap();
    let mut all = scan_lines(&ps, &"a.c".to_string(), &lines(&["fix me"]));
    all.extend(scan_history(&ps, &vec![HistoryEntry::walked(commit("abc", "fix bug"))]));
    assert_eq!(all.len(), 2);
    for o in &all {
        assert!(o.is_exclusive());
        assert!((o.line > 0 && o.commit_hash.is_none()) || (o.line == 0 && o.commit_hash.is_some()));
    }
}

#[test]
fn extension_filter_follows_allow_list() {
    let allow = vec!["c".to_string(), "h".to_string()];
    assert!(!extension_allowed("foo.py", &allow));
    assert!(extension_allowed("foo.c", &allow));
    assert!(extension_allowed("foo.h", &allow));
    assert!(!extension_allowed("Makefile", &allow));
    assert!(!extension_allowed(".c", &allow));
    assert!(extension_allowed("a.tar.c", &allow));
    assert!(extension_allowed("anything", &Vec::new()));
}

#[test]
fn extension_filter_on_file_scan() {
    let allow = vec!["c".to_string(), "h".to_string()];
    let ps = PatternSet::compile(&pairs(&[("feat", "spin_lock")])).unwrap();
    let content = lines(&["spin_lock(&l);"]);
    let mut total = 0;
    for name in ["foo.py", "foo.c"] {
        if extension_allowed(name, &allow) {
            total += scan_lines(&ps, &name.to_string(), &content).len();
        }
    }
    assert_eq!(total, 1);
}

#[test]
fn parse_line_kinds() {
    assert_eq!(parse_pattern_line("   "), PatternLine::Blank);
    assert_eq!(parse_pattern_line("only one field"), PatternLine::Malformed);
    assert_eq!(parse_pattern_line("a, b, c"), PatternLine::Malformed);
    assert_eq!(
        parse_pattern_line("  feat1, foo.*  "),
        PatternLine::Entry("feat1".to_string(), "foo.*".to_string())
    );
    assert_eq!(
        parse_pattern_line("(lock, r\"spin_lock\\s*\")"),
        PatternLine::Entry("lock".to_string(), "spin_lock\\s*".to_string())
    );
    assert_eq!(
        parse_pattern_line("bar, red"),
        PatternLine::Entry("bar".to_string(), "red".to_string())
    );
}

#[test]
fn malformed_line_is_skipped_not_fatal() {
    let file = PatternFile::parse(&lines(&["this line is malformed", "\"feat1, foo.*\"", ""]));
    assert_eq!(file.entries, vec![("feat1".to_string(), "foo.*".to_string())]);
    assert_eq!(file.malformed, vec![1]);
    let ps = PatternSet::compile(&file.entries).unwrap();
    assert_eq!(ps.len(), 1);
    assert_eq!(ps.label(0), "feat1");
}

#[test]
fn commit_time_is_rendered_in_utc() {
    assert_eq!(format_commit_time(0).unwrap(), "1970-01-01 00:00:00");
    assert_eq!(format_commit_time(1431648000).unwrap(), "2015-05-15 00:00:00");
    assert_eq!(format_commit_time(-1).unwrap(), "1969-12-31 23:59:59");
    assert!(format_commit_time(i64::MAX).is_none());
    assert!(format_commit_time(i64::MIN).is_none());
}

#[test]
fn commit_time_range_edges() {
    assert_eq!(FIRST_RENDERABLE_SECOND, -8_334_601_228_800);
    assert_eq!(LAST_RENDERABLE_SECOND, 8_210_266_876_799);
    assert_eq!(format_commit_time(FIRST_RENDERABLE_SECOND).unwrap(), "-262143-01-01 00:00:00");
    assert!(format_commit_time(FIRST_RENDERABLE_SECOND - 1).is_none());
    assert_eq!(format_commit_time(LAST_RENDERABLE_SECOND).unwrap(), "+262142-12-31 23:59:59");
    assert!(format_commit_time(LAST_RENDERABLE_SECOND + 1).is_none());
    assert!(format_commit_time(8_100_000_000_000).is_some());
}

#[test]
fn commit_fallbacks() {
    let c = CommitInfo::new("h1".to_string(), None, 86400, None).unwrap();
    assert_eq!(c.author, "Unknown");
    assert_eq!(c.message, "");
    assert_eq!(c.date, "1970-01-02 00:00:00");
    assert_eq!(c.hash, "h1");
    assert!(CommitInfo::new("h".to_string(), None, i64::MIN, None).is_none());
}

#[test]
fn history_scan_commit_and_branch() {
    let ps = PatternSet::compile(&pairs(&[("fix", "fix"), ("feat", "feat")])).unwrap();
    let entries = vec![
        HistoryEntry::walked(commit("aaa", "fix: feature flag")),
        HistoryEntry::walked(commit("bbb", "docs")),
        HistoryEntry::branch_tip(Some("origin/main".to_string()), commit("ccc", "feat x")),
        HistoryEntry::branch_tip(None, commit("ddd", "fix y")),
    ];
    let r = scan_history(&ps, &entries);
    assert_eq!(r.len(), 4);
    assert_eq!((r[0].feature.as_str(), r[0].path.as_str()), ("fix", "Commit Message"));
    assert_eq!(r[1].feature, "feat");
    assert_eq!(r[1].commit_hash.as_deref(), Some("aaa"));
    assert_eq!(r[1].commit_message.as_deref(), Some("fix: feature flag"));
    assert_eq!(r[1].branch, None);
    assert_eq!(r[2].path, "Branch");
    assert_eq!(r[2].branch.as_deref(), Some("origin/main"));
    assert_eq!(r[2].date.as_deref(), Some("1970-01-01 00:00:00"));
    assert_eq!(r[3].branch.as_deref(), Some("Unnamed"));
    assert_eq!(r[3].author.as_deref(), Some("Ada"));
    for o in &r {
        assert_eq!(o.line, 0);
    }
}

#[test]
fn no_repository_gives_file_hits_only() {
    let ps = PatternSet::compile(&pairs(&[("todo", "TODO")])).unwrap();
    let mut agg = Aggregator::new();
    let files = scan_lines(&ps, &"main.c".to_string(), &lines(&["// TODO", "x"]));
    assert_eq!(agg.append_all(files), 0);
    let history = scan_history(&ps, &Vec::new());
    assert!(history.is_empty());
    assert_eq!(agg.append_all(history), 0);
    let out = agg.into_occurrences();
    assert_eq!(out.len(), 1);
    assert_eq!(out[0].line, 1);
}

#[test]
fn aggregator_refuses_mixed_records() {
    let mut agg = Aggregator::new();
    let bad = Occurrence {
        feature: "f".to_string(),
        path: "p".to_string(),
        line: 3,
        commit_hash: Some("h".to_string()),
        author: None,
        date: None,
        commit_message: None,
        branch: None,
    };
    let empty = Occurrence { line: 0, commit_hash: None, ..bad.duplicate() };
    let good = Occurrence { commit_hash: None, ..bad.duplicate() };
    assert!(!agg.append(bad.duplicate()));
    assert!(!agg.append(empty));
    assert!(agg.append(good));
    assert_eq!(agg.len(), 1);
    assert_eq!(agg.append_all(vec![bad]), 1);
    assert_eq!(agg.len(), 1);
}

#[test]
fn parallel_scan_matches_sequential_scan() {
    let ps = PatternSet::compile(&pairs(&[("even", "even"), ("line", "line")])).unwrap();
    let files: Vec<(String, Vec<String>)> = (0..10_000)
        .map(|i| {
            let tag = if i % 2 == 0 { "even" } else { "odd" };
            (format!("dir/f{}.c", i), vec![format!("{} line", tag), "nothing".to_string()])
        })
        .collect();
    let parts: Vec<Vec<Occurrence>> =
        files.par_iter().map(|(p, l)| scan_lines(&ps, p, l)).collect();
    let mut agg = Aggregator::new();
    for part in parts {
        assert_eq!(agg.append_all(part), 0);
    }
    let mut parallel: Vec<_> = agg.into_occurrences().iter().map(key).collect();
    let mut sequential: Vec<_> = Vec::new();
    for (p, l) in &files {
        sequential.extend(scan_lines(&ps, p, l).iter().map(key));
    }
    assert_eq!(parallel.len(), 15_000);
    parallel.sort();
    sequential.sort();
    assert_eq!(parallel, sequential);
    let mut dedup = parallel.clone();
    dedup.dedup();
    assert_eq!(dedup.len(), parallel.len());
}

#[test]
fn line_records_one_per_matched_index() {
    let ps = PatternSet::compile(&pairs(&[("a", "a"), ("b", "b"), ("c", "c")])).unwrap();
    let r = line_records(&ps, &"src/x.h".to_string(), 7, &vec![0, 2]);
    let keys: Vec<_> = r.iter().map(key).collect();
    assert_eq!(
        keys,
        vec![
            ("a".to_string(), "src/x.h".to_string(), 7),
            ("c".to_string(), "src/x.h".to_string(), 7),
        ]
    );
    assert!(line_records(&ps, &"src/x.h".to_string(), 7, &Vec::new()).is_empty());
}

#[test]
fn commit_records_one_per_matched_index() {
    let ps = PatternSet::compile(&pairs(&[("a", "a"), ("b", "b")])).unwrap();
    let tip = HistoryEntry::branch_tip(Some("origin/dev".to_string()), commit("c0ffee", "b a"));
    let r = commit_records(&ps, &tip, &vec![1]);
    assert_eq!(r.len(), 1);
    assert_eq!(r[0].feature, "b");
    assert_eq!(r[0].path, "Branch");
    assert_eq!(r[0].line, 0);
    assert_eq!(r[0].commit_hash.as_deref(), Some("c0ffee"));
    assert_eq!(r[0].branch.as_deref(), Some("origin/dev"));
    let walked = HistoryEntry::walked(commit("beef", "a"));
    let w = commit_records(&ps, &walked, &vec![0, 1]);
    assert_eq!(w.len(), 2);
    assert_eq!(w[1].path, "Commit Message");
    assert_eq!(w[1].branch, None);
}
