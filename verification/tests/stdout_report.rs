use tarpaulin::config::{CiService, Config};
use tarpaulin::paths::{Component, FilePath};
use tarpaulin::reporting::stdout::{accumulate_lines, report_body, sort_lines, uncovered_in, uncovered_ranges};
use tarpaulin::traces::{CoverageStat, LogicState, Trace, TraceMap};

fn path(s: &str) -> FilePath {
    let mut components = Vec::new();
    if s.starts_with('/') {
        components.push(Component::RootDir);
    }
    for part in s.split('/').filter(|p| !p.is_empty()) {
        components.push(Component::Normal(part.to_string()));
    }
    FilePath { components }
}

fn line(n: u64, hits: u64) -> Trace {
    Trace { line: n, address: None, length: 1, stats: CoverageStat::Line(hits) }
}

fn branch(n: u64, been_true: bool, been_false: bool) -> Trace {
    Trace { line: n, address: Some(n * 4), length: 2, stats: CoverageStat::Branch(LogicState { been_true, been_false }) }
}

fn map(files: Vec<(&str, Vec<Trace>)>) -> TraceMap {
    let mut m = TraceMap::new();
    for (p, ts) in files {
        for t in ts {
            assert!(m.fits_trace(&t));
            m.add_trace(&path(p), t);
        }
    }
    m
}

fn config(verbose: bool) -> Config {
    Config {
        manifest: path("/p/Cargo.toml"),
        verbose,
        coveralls: None,
        ci_tool: None::<CiService>,
        report_uri: None,
    }
}

fn strings(v: &[&str]) -> Vec<String> {
    v.iter().map(|s| s.to_string()).collect()
}

#[test]
fn accumulate_starts_a_group() {
    let (acc, group) = accumulate_lines((vec![], vec![]), 4);
    assert!(acc.is_empty());
    assert_eq!(group, vec![4]);
}

#[test]
fn accumulate_extends_a_run() {
    let (acc, group) = accumulate_lines((strings(&["1"]), vec![3, 4]), 5);
    assert_eq!(acc, strings(&["1"]));
    assert_eq!(group, vec![3, 4, 5]);
}

#[test]
fn accumulate_closes_a_range() {
    let (acc, group) = accumulate_lines((strings(&["1"]), vec![3, 4, 5]), 9);
    assert_eq!(acc, strings(&["1", "3-5"]));
    assert_eq!(group, vec![9]);
}

#[test]
fn accumulate_closes_a_single_line() {
    let (acc, group) = accumulate_lines((vec![], vec![7]), 7);
    assert_eq!(acc, strings(&["7"]));
    assert_eq!(group, vec![7]);
}

#[test]
fn fold_gives_maximal_ranges() {
    let lines = vec![1u64, 2, 3, 5, 8, 9, 12];
    let (groups, last) = lines.into_iter().fold((vec![], vec![]), accumulate_lines);
    let (groups, _) = accumulate_lines((groups, last), u64::MAX);
    assert_eq!(groups, strings(&["1-3", "5", "8-9", "12"]));
}

#[test]
fn sort_lines_sorts() {
    assert_eq!(sort_lines(vec![5, 1, 4, 1, 3]), vec![1, 1, 3, 4, 5]);
    assert_eq!(sort_lines(vec![]), Vec::<u64>::new());
}

#[test]
fn uncovered_lines_are_zero_hit_lines() {
    let ts = vec![line(3, 0), line(1, 2), branch(2, false, false), line(7, 0)];
    assert_eq!(uncovered_in(&ts), vec![3, 7]);
}

#[test]
fn uncovered_ranges_sorted_and_grouped() {
    let ts = vec![line(9, 0), line(2, 0), line(3, 0), line(4, 1), line(5, 0), line(1, 0)];
    assert_eq!(uncovered_ranges(&ts), strings(&["1-3", "5", "9"]));
}

#[test]
fn uncovered_ranges_keep_repeated_lines() {
    let ts = vec![line(3, 0), line(3, 0)];
    assert_eq!(uncovered_ranges(&ts), strings(&["3", "3"]));
}

#[test]
fn uncovered_run_ending_below_max_is_not_flushed() {
    let ts = vec![line(2, 0), line(u64::MAX - 1, 0)];
    assert_eq!(uncovered_ranges(&ts), strings(&["2"]));
    let ts = vec![line(u64::MAX - 2, 0), line(u64::MAX - 1, 0)];
    assert!(uncovered_ranges(&ts).is_empty());
}

#[test]
fn empty_map_reports_no_results() {
    let r = report_body(&config(true), &TraceMap::new());
    assert_eq!(r.text, "No Coverage Results Collected\n");
    assert!(r.totals.is_none());
}

fn sample() -> TraceMap {
    map(vec![
        ("/p/src/lib.rs", vec![line(1, 2), line(5, 0), line(2, 0), line(3, 0), line(7, 1)]),
        ("/p/src/main.rs", vec![line(10, 0)]),
        ("/other/gen.rs", vec![branch(1, true, false)]),
    ])
}

#[test]
fn plain_report_counts_each_file() {
    let r = report_body(&config(false), &sample());
    assert_eq!(
        r.text,
        "Coverage Results\n\nTested / Total Lines:\nsrc/lib.rs: 2/5\nsrc/main.rs: 0/1\n/other/gen.rs: 1/2\n"
    );
    assert_eq!(r.totals, Some((3, 8)));
}

#[test]
fn verbose_report_lists_uncovered_ranges() {
    let r = report_body(&config(true), &sample());
    assert_eq!(
        r.text,
        "Coverage Results\n\nUncovered Lines:\nsrc/lib.rs: 2-3, 5\nsrc/main.rs: 10\n\n\
         Tested / Total Lines:\nsrc/lib.rs: 2/5\nsrc/main.rs: 0/1\n/other/gen.rs: 1/2\n"
    );
}

#[test]
fn verbose_report_without_uncovered_lines() {
    let m = map(vec![("/p/a.rs", vec![line(1, 1)])]);
    let r = report_body(&config(true), &m);
    assert_eq!(r.text, "Coverage Results\n\nUncovered Lines:\n\nTested / Total Lines:\na.rs: 1/1\n");
    assert_eq!(r.totals, Some((1, 1)));
}
