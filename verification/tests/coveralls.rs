use std::collections::HashMap;

use tarpaulin::config::{CiService, Config};
use tarpaulin::paths::{Component, FilePath};
use tarpaulin::report::coveralls::mk_report_identity;
use tarpaulin::report::types;
use tarpaulin::reporting::coveralls::{export_endpoint, get_coveralls_id, source_steps, Endpoint, Error, Identity};
use tarpaulin::traces::{CoverageStat, LogicState, Trace, TraceMap};

fn path(s: &str) -> FilePath {
    let mut components = vec![Component::RootDir];
    for part in s.split('/').filter(|p| !p.is_empty()) {
        components.push(Component::Normal(part.to_string()));
    }
    FilePath { components }
}

fn config(key: Option<&str>, ci: Option<CiService>) -> Config {
    Config {
        manifest: path("/p/Cargo.toml"),
        verbose: false,
        coveralls: key.map(|k| k.to_string()),
        ci_tool: ci,
        report_uri: None,
    }
}

fn line(n: u64, hits: u64) -> Trace {
    Trace { line: n, address: None, length: 1, stats: CoverageStat::Line(hits) }
}

#[test]
fn no_key_is_an_error() {
    match get_coveralls_id(&config(None, Some(CiService::Travis))) {
        Err(Error::NoKey) => {}
        _ => panic!("expected NoKey"),
    }
    match mk_report_identity(&config(None, None)) {
        Err(types::Error::CoverallsAuth) => {}
        _ => panic!("expected CoverallsAuth"),
    }
}

#[test]
fn key_without_ci_is_a_repo_token() {
    match get_coveralls_id(&config(Some("secret"), None)) {
        Ok(Identity::RepoToken(k)) => assert_eq!(k, "secret"),
        _ => panic!("expected a repo token"),
    }
}

#[test]
fn key_with_ci_is_a_service_token() {
    match get_coveralls_id(&config(Some("job-7"), Some(CiService::Other("drone".to_string())))) {
        Ok(Identity::ServiceToken(s)) => {
            assert_eq!(s.service_job_id, "job-7");
            match s.service_name {
                CiService::Other(name) => assert_eq!(name, "drone"),
                _ => panic!("wrong service"),
            }
        }
        _ => panic!("expected a service token"),
    }
    match mk_report_identity(&config(Some("k"), Some(CiService::Circle))) {
        Ok(Identity::ServiceToken(s)) => {
            assert!(matches!(s.service_name, CiService::Circle));
            assert_eq!(s.service_job_id, "k");
        }
        _ => panic!("expected a service token"),
    }
}

#[test]
fn error_descriptions() {
    assert_eq!(Error::NoKey.description(), "No Coveralls Key Provided");
    assert_eq!(Error::NoKey.message(), "No Coveralls Key Provided");
    assert!(Error::NoKey.cause().is_none());
    let e = Error::Export(curl::Error::new(6));
    assert_eq!(e.description(), "Could Not Export Report");
    assert_eq!(e.message(), "Could Not Export Report");
    assert_eq!(e.cause().map(|c| c.code()), Some(6));
}

fn as_map(inserts: &[(usize, usize)]) -> HashMap<usize, usize> {
    let mut m = HashMap::new();
    for (k, v) in inserts {
        m.insert(*k, *v);
    }
    m
}

#[test]
fn one_submission_per_trace() {
    let mut m = TraceMap::new();
    let branch = Trace {
        line: 4,
        address: None,
        length: 1,
        stats: CoverageStat::Branch(LogicState { been_true: true, been_false: false }),
    };
    for (p, t) in [
        ("/p/src/a.rs", line(1, 2)),
        ("/p/src/a.rs", branch),
        ("/p/src/a.rs", line(1, 0)),
        ("/p/src/b.rs", line(9, 5)),
    ] {
        assert!(m.fits_trace(&t));
        m.add_trace(&path(p), t);
    }
    let steps = source_steps(&config(Some("k"), None), &m);
    assert_eq!(steps.len(), 4);
    assert_eq!(steps[0].rel_path.display(), "src/a.rs");
    assert_eq!(steps[0].path.display(), "/p/src/a.rs");
    assert_eq!(steps[0].lines, as_map(&[(1, 2)]));
    assert!(steps[0].supported);
    assert_eq!(steps[1].lines, as_map(&[(1, 2)]));
    assert!(!steps[1].supported);
    // A later trace of the same line replaces its hits.
    assert_eq!(steps[2].lines, as_map(&[(1, 0)]));
    assert!(steps[2].supported);
    // Each file starts with an empty line map.
    assert_eq!(steps[3].rel_path.display(), "src/b.rs");
    assert_eq!(steps[3].lines, as_map(&[(9, 5)]));
}

#[test]
fn export_goes_to_the_report_uri_or_coveralls() {
    assert!(matches!(export_endpoint(&config(Some("k"), None)), Endpoint::Coveralls));
    let mut c = config(Some("k"), None);
    c.report_uri = Some("https://cov.example/api".to_string());
    match export_endpoint(&c) {
        Endpoint::Uri(uri) => assert_eq!(uri, "https://cov.example/api"),
        Endpoint::Coveralls => panic!("expected the configured URI"),
    }
}

#[test]
fn later_line_traces_overwrite_earlier_hits() {
    let mut m = TraceMap::new();
    for t in [line(3, 1), line(5, 0), line(3, 7)] {
        assert!(m.fits_trace(&t));
        m.add_trace(&path("/p/src/c.rs"), t);
    }
    let steps = source_steps(&config(Some("k"), None), &m);
    assert_eq!(steps.len(), 3);
    assert_eq!(steps[1].lines, as_map(&[(3, 1), (5, 0)]));
    assert_eq!(steps[2].lines, as_map(&[(3, 7), (5, 0)]));
}
