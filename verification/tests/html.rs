use tarpaulin::config::{CiService, Config};
use tarpaulin::paths::{Component, FilePath};
use tarpaulin::report::html_report::{get_entries, render_page, render_results, report_page, CoverageRow, BOOTSTRAP_LINKS};
use tarpaulin::report::types;
use tarpaulin::reporting::html::{Error, Report};
use tarpaulin::traces::TraceMap;

fn path(s: &str) -> FilePath {
    let mut components = vec![Component::RootDir];
    for part in s.split('/').filter(|p| !p.is_empty()) {
        components.push(Component::Normal(part.to_string()));
    }
    FilePath { components }
}

fn config(manifest: &str) -> Config {
    Config {
        manifest: path(manifest),
        verbose: false,
        coveralls: None,
        ci_tool: None::<CiService>,
        report_uri: None,
    }
}

#[test]
fn no_results_note() {
    assert_eq!(render_results(&Vec::new()), "<p>No coverage results to show</p>");
}

#[test]
fn results_table_escapes_text() {
    let rows = vec![
        CoverageRow { path: path("/p/<a>&\"b\""), depth: 1, line_coverage: 75, hit_rate: 3 },
        CoverageRow { path: path("/p/c.rs"), depth: 1, line_coverage: 0, hit_rate: 0 },
    ];
    assert_eq!(
        render_results(&rows),
        "<table class=\"table table-striped\"><thead><tr><th>Item</th><th>Line Coverage</th>\
         <th>Hit Rate</th></tr></thead><tbody>\
         <tr><td>/p/&lt;a&gt;&amp;&quot;b&quot;</td><td>75%</td><td>3</td></tr>\
         <tr><td>/p/c.rs</td><td>0%</td><td>0</td></tr></tbody></table>"
    );
}

#[test]
fn page_layout() {
    let page = report_page(&TraceMap::new(), &config("/home/a&b/Cargo.toml"));
    let expected = format!(
        "<!DOCTYPE html><html><head><title>Tarpaulin Coverage Report</title><p>{}</p></head>\
         <body><div class=\"container\"><div class=\"page-header\"><h1>Tarpaulin Coverage Report</h1>\
         </div><h3>Run Summary</h3><p>Manifest path /home/a&amp;b/Cargo.toml</p><h3>Coverage Results</h3>\
         <p><p>No coverage results to show</p></p></div></body></html>",
        BOOTSTRAP_LINKS
    );
    assert_eq!(page, expected);
    assert!(BOOTSTRAP_LINKS.starts_with("<!-- Latest compiled and minified CSS -->"));
    assert!(BOOTSTRAP_LINKS.ends_with("crossorigin=\"anonymous\"></script>"));
}

#[test]
fn page_with_rows_embeds_the_table() {
    let rows = vec![CoverageRow { path: path("/p/a.rs"), depth: 0, line_coverage: 100, hit_rate: 1 }];
    let page = render_page(&config("/p/Cargo.toml"), &rows);
    assert!(page.contains("<p><table class=\"table table-striped\">"));
    assert!(page.contains("<td>/p/a.rs</td><td>100%</td><td>1</td>"));
}

#[test]
fn no_entries_are_gathered() {
    assert!(get_entries(&TraceMap::new()).is_empty());
}

#[test]
fn html_report_is_not_supported() {
    assert!(matches!(Report::render(&config("/p/Cargo.toml"), &TraceMap::new()), Err(Error::Unknown)));
    let r = Report {};
    assert!(matches!(r.export(&config("/p/Cargo.toml")), Err(Error::Unknown)));
    assert_eq!(Error::Unknown.description(), "");
    assert_eq!(Error::Unknown.message(), "");
    assert!(Error::Unknown.cause().is_none());
}

#[test]
fn report_error_defaults_to_unknown() {
    assert!(matches!(types::Error::default(), types::Error::Unknown));
    assert_eq!(types::Error::CoverallsAuth.message(), "Unknown Error");
    assert_eq!(types::Error::Network.message(), "Unknown Error");
}
