use tarpaulin::paths::{Component, FilePath};
use tarpaulin::traces::{trace_coverable, trace_covered, CoverageStat, LogicState, Trace, TraceMap};

fn path(s: &str) -> FilePath {
    let mut components = vec![Component::RootDir];
    for part in s.split('/').filter(|p| !p.is_empty()) {
        components.push(Component::Normal(part.to_string()));
    }
    FilePath { components }
}

fn line(n: u64, hits: u64) -> Trace {
    Trace { line: n, address: None, length: 1, stats: CoverageStat::Line(hits) }
}

fn state(t: bool, f: bool) -> LogicState {
    LogicState { been_true: t, been_false: f }
}

fn add(m: &mut TraceMap, p: &str, t: Trace) {
    assert!(m.fits_trace(&t));
    m.add_trace(&path(p), t);
}

#[test]
fn amounts_per_statistic() {
    assert_eq!(trace_coverable(&line(1, 0)), 1);
    assert_eq!(trace_covered(&line(1, 0)), 0);
    assert_eq!(trace_covered(&line(1, 9)), 1);
    let b = Trace { line: 2, address: None, length: 1, stats: CoverageStat::Branch(state(true, false)) };
    assert_eq!(trace_coverable(&b), 2);
    assert_eq!(trace_covered(&b), 1);
    let c = Trace {
        line: 3,
        address: None,
        length: 1,
        stats: CoverageStat::Condition(vec![state(true, true), state(false, false), state(false, true)]),
    };
    assert_eq!(trace_coverable(&c), 6);
    assert_eq!(trace_covered(&c), 3);
}

#[test]
fn add_trace_groups_by_file() {
    let mut m = TraceMap::new();
    assert!(m.is_empty());
    add(&mut m, "/p/a.rs", line(1, 1));
    add(&mut m, "/p/b.rs", line(1, 0));
    add(&mut m, "/p/a.rs", line(2, 0));
    assert_eq!(m.file_count(), 2);
    assert_eq!(m.path_at(0).display(), "/p/a.rs");
    assert_eq!(m.traces_at(0).len(), 2);
    assert_eq!(m.traces_at(1).len(), 1);
    let files: Vec<String> = m.files().iter().map(|f| f.display()).collect();
    assert_eq!(files, vec!["/p/a.rs".to_string(), "/p/b.rs".to_string()]);
}

#[test]
fn counts_under_paths() {
    let mut m = TraceMap::new();
    add(&mut m, "/p/src/a.rs", line(1, 1));
    add(&mut m, "/p/src/a.rs", line(2, 0));
    add(&mut m, "/p/src/sub/b.rs", line(1, 3));
    add(&mut m, "/p/tests/t.rs", line(1, 0));
    assert_eq!(m.coverable_in_path(&path("/p/src")), 3);
    assert_eq!(m.covered_in_path(&path("/p/src")), 2);
    assert_eq!(m.coverable_in_path(&path("/p/src/a.rs")), 2);
    assert_eq!(m.covered_in_path(&path("/p/src/a.rs")), 1);
    assert_eq!(m.coverable_in_path(&path("/p/sr")), 0);
    assert_eq!(m.total_coverable(), 4);
    assert_eq!(m.total_covered(), 2);
    assert_eq!(m.get_child_traces(&path("/p/src")).len(), 3);
}

#[test]
fn nested_path_counts_no_more_than_its_directory() {
    let mut m = TraceMap::new();
    add(&mut m, "/p/src/a.rs", line(1, 1));
    add(&mut m, "/p/src/x/b.rs", line(1, 0));
    add(&mut m, "/p/src/x/c.rs", line(1, 1));
    for inner in ["/p/src/x", "/p/src/x/b.rs", "/p/src/a.rs"] {
        assert!(m.coverable_in_path(&path(inner)) <= m.coverable_in_path(&path("/p/src")));
        assert!(m.covered_in_path(&path(inner)) <= m.covered_in_path(&path("/p/src")));
        assert!(m.covered_in_path(&path(inner)) <= m.coverable_in_path(&path(inner)));
    }
}

#[test]
fn adding_a_trace_adds_its_amount() {
    let mut m = TraceMap::new();
    add(&mut m, "/p/a.rs", line(1, 1));
    let before = m.total_coverable();
    let c = Trace { line: 2, address: None, length: 1, stats: CoverageStat::Condition(vec![state(true, false); 2]) };
    add(&mut m, "/p/a.rs", c);
    assert_eq!(m.total_coverable(), before + 4);
}
