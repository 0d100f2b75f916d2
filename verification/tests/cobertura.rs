use tarpaulin::config::{CiService, Config};
use tarpaulin::paths::{Component, FilePath};
use tarpaulin::reporting::cobertura::{render_line, render_sources, timestamp_from_clock, Error, Line, Report};
use tarpaulin::traces::{CoverageStat, Trace, TraceMap};

fn path(s: &str) -> FilePath {
    let mut components = vec![Component::RootDir];
    for part in s.split('/').filter(|p| !p.is_empty()) {
        components.push(Component::Normal(part.to_string()));
    }
    FilePath { components }
}

fn line(n: u64, hits: u64) -> Trace {
    Trace { line: n, address: None, length: 1, stats: CoverageStat::Line(hits) }
}

fn config() -> Config {
    Config {
        manifest: path("/p/Cargo.toml"),
        verbose: false,
        coveralls: None,
        ci_tool: None::<CiService>,
        report_uri: None,
    }
}

fn sample() -> TraceMap {
    let mut m = TraceMap::new();
    for (p, t) in [
        ("/p/src/lib.rs", line(1, 2)),
        ("/p/src/lib.rs", line(5, 0)),
        ("/p/src/sub/x.rs", line(3, 1)),
        ("/p/src/z.rs", line(1, 0)),
        ("/q/gen.rs", line(8, 4)),
    ] {
        assert!(m.fits_trace(&t));
        m.add_trace(&path(p), t);
    }
    m
}

fn plain(l: &Line) -> (u64, u64) {
    match l {
        Line::Plain { number, hits } => (*number, *hits),
        Line::Branch { .. } => panic!("branch line"),
    }
}

#[test]
fn sources_are_the_project_directory() {
    let s = render_sources(&config());
    assert_eq!(s.len(), 1);
    assert_eq!(s[0].display(), "/p");
    let mut c = config();
    c.manifest = path("/");
    assert!(render_sources(&c).is_empty());
}

#[test]
fn render_line_keeps_number_and_hits() {
    assert_eq!(plain(&render_line(&line(12, 3))), (12, 3));
}

#[test]
fn packages_follow_file_directories() {
    let r = Report::render_at(&config(), &sample(), 1_700_000_000);
    assert_eq!(r.timestamp(), 1_700_000_000);
    assert_eq!((r.line_rate().numerator, r.line_rate().denominator), (0, 1));
    assert_eq!((r.branch_rate().numerator, r.branch_rate().denominator), (0, 1));
    let names: Vec<&str> = r.packages().iter().map(|p| p.name().as_str()).collect();
    // Directories in file order; only consecutive repeats are dropped.
    assert_eq!(names, vec!["src", "src/sub", "src", ""]);

    let src = &r.packages()[0];
    assert_eq!((src.line_rate().numerator, src.line_rate().denominator), (2, 4));
    let classes: Vec<(&str, &str)> =
        src.classes().iter().map(|c| (c.name().as_str(), c.file_name().as_str())).collect();
    assert_eq!(classes, vec![("lib", "src/lib.rs"), ("z", "src/z.rs")]);

    let lib = &src.classes()[0];
    assert_eq!((lib.line_rate().numerator, lib.line_rate().denominator), (1, 2));
    let lines: Vec<(u64, u64)> = lib.lines().iter().map(plain).collect();
    assert_eq!(lines, vec![(1, 2), (5, 0)]);
    assert_eq!(lib.method_count(), 0);

    let outside = &r.packages()[3];
    assert_eq!(outside.classes()[0].file_name(), "/q/gen.rs");
    assert_eq!(outside.classes()[0].name(), "gen");
}

#[test]
fn render_uses_the_clock() {
    let r = Report::render(&config(), &sample());
    let r = match r {
        Ok(r) => r,
        Err(_) => panic!("render failed"),
    };
    assert!(r.timestamp() > 1_500_000_000);
    assert_eq!(r.packages().len(), 4);
}

#[test]
fn empty_map_has_no_packages() {
    let r = Report::render_at(&config(), &TraceMap::new(), 0);
    assert!(r.packages().is_empty());
    assert_eq!(r.sources().len(), 1);
}

#[test]
fn error_text() {
    assert_eq!(Error::Unknown.description(), "Unknown Error");
    assert_eq!(Error::Unknown.message(), "Unknown Error");
    assert!(Error::Unknown.cause().is_none());
}

#[test]
fn timestamp_comes_from_the_clock_reading() {
    assert_eq!(timestamp_from_clock(Some((1_700_000_000, 0))), Some(1_700_000_000));
    assert_eq!(timestamp_from_clock(Some((0, 5))), Some(0));
    assert_eq!(timestamp_from_clock(None), None);
    // Far past the range of dates that chrono represents.
    assert_eq!(timestamp_from_clock(Some((1u64 << 62, 0))), None);
}
