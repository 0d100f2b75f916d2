//! The HTML coverage report page.
use vstd::prelude::*;
use crate::config::Config;
use crate::paths::{FilePath, PathPart, display};
use crate::text::{decimal, decimal_string};
use crate::traces::TraceMap;

verus! {

/// The stylesheet and script links placed in the page head.
pub const BOOTSTRAP_LINKS: &'static str = "<!-- Latest compiled and minified CSS -->\n                    <link rel=\"stylesheet\" href=\"https://maxcdn.bootstrapcdn.com/bootstrap/3.3.7/css/bootstrap.min.css\" \n                    integrity=\"sha384-BVYiiSIFeK1dGmJRAkycuHAHRg32OmUcww7on3RYdg4Va+PmSTsz/K68vbdEjh4u\" \n                    crossorigin=\"anonymous\">\n\n                    <!-- Optional theme -->\n                    <link rel=\"stylesheet\" href=\"https://maxcdn.bootstrapcdn.com/bootstrap/3.3.7/css/bootstrap-theme.min.css\" \n                    integrity=\"sha384-rHyoN1iRsVXV4nD0JutlnGaslCJuC7uwjduW9SVrLvRYooPp2bWYgmgJQIXwl/Sp\" \n                    crossorigin=\"anonymous\">\n\n                    <!-- Latest compiled and minified JavaScript -->\n                    <script src=\"https://maxcdn.bootstrapcdn.com/bootstrap/3.3.7/js/bootstrap.min.js\" \n                    integrity=\"sha384-Tc5IQib027qvyjSMfHjOMaLkfuWVxZxUPnCJA7l2mCWNIpG9mGCD8wGNIcPD7Txa\" \n                    crossorigin=\"anonymous\"></script>";

/// A row of the results table: an item, its line coverage in percent and its
/// hit rate.
pub struct CoverageRow {
    pub path: FilePath,
    pub depth: usize,
    pub line_coverage: usize,
    pub hit_rate: usize,
}

/// A row as a value.
pub struct CoverageRowView {
    pub path: Seq<PathPart>,
    pub depth: usize,
    pub line_coverage: usize,
    pub hit_rate: usize,
}

impl View for CoverageRow {
    type V = CoverageRowView;

    open spec fn view(&self) -> CoverageRowView {
        CoverageRowView {
            path: self.path@,
            depth: self.depth,
            line_coverage: self.line_coverage,
            hit_rate: self.hit_rate,
        }
    }
}

/// The HTML escaping of one character: `&`, `"`, `<` and `>` become entities.
pub open spec fn escaped_char(c: char) -> Seq<char> {
    if c == '&' {
        seq!['&', 'a', 'm', 'p', ';']
    } else if c == '"' {
        seq!['&', 'q', 'u', 'o', 't', ';']
    } else if c == '<' {
        seq!['&', 'l', 't', ';']
    } else if c == '>' {
        seq!['&', 'g', 't', ';']
    } else {
        seq![c]
    }
}

/// The HTML escaping of a text.
pub open spec fn html_escaped(s: Seq<char>) -> Seq<char>
    decreases s.len(),
{
    if s.len() == 0 {
        Seq::empty()
    } else {
        html_escaped(s.drop_last()) + escaped_char(s.last())
    }
}

/// `text` as horrorshow renders a `&str`: escaped for HTML.
#[verifier::external_body]
fn escape_html(text: &str) -> (r: String)
    ensures
        r@ == html_escaped(text@),
{
    horrorshow::Template::into_string(text).unwrap_or_default()
}

/// The table row of one result.
pub open spec fn row_html(row: CoverageRowView) -> Seq<char> {
    "<tr><td>"@ + html_escaped(display(row.path)) + "</td><td>"@ + html_escaped(
        decimal(row.line_coverage as nat).push('%'),
    ) + "</td><td>"@ + html_escaped(decimal(row.hit_rate as nat)) + "</td></tr>"@
}

/// The table rows of the first `k` results.
pub open spec fn rows_html(rows: Seq<CoverageRowView>, k: nat) -> Seq<char>
    decreases k,
{
    if k == 0 {
        Seq::empty()
    } else {
        rows_html(rows, (k - 1) as nat) + row_html(rows[k - 1])
    }
}

/// The results part of the page: a note where there is no result, a table
/// of the results otherwise.
pub open spec fn results_html(rows: Seq<CoverageRowView>) -> Seq<char> {
    if rows.len() == 0 {
        "<p>No coverage results to show</p>"@
    } else {
        "<table class=\"table table-striped\"><thead><tr><th>Item</th><th>Line Coverage</th><th>Hit Rate</th></tr></thead><tbody>"@
            + rows_html(rows, rows.len()) + "</tbody></table>"@
    }
}

/// The whole page for a manifest path and the results.
pub open spec fn page_html(manifest: Seq<PathPart>, rows: Seq<CoverageRowView>) -> Seq<char> {
    "<!DOCTYPE html><html><head><title>Tarpaulin Coverage Report</title><p>"@ + BOOTSTRAP_LINKS@
        + "</p></head><body><div class=\"container\"><div class=\"page-header\"><h1>Tarpaulin Coverage Report</h1></div><h3>Run Summary</h3><p>"@
        + html_escaped("Manifest path "@ + display(manifest))
        + "</p><h3>Coverage Results</h3><p>"@ + results_html(rows) + "</p></div></body></html>"@
}

/// The views of a sequence of rows.
pub open spec fn row_views(rows: Seq<CoverageRow>) -> Seq<CoverageRowView> {
    rows.map_values(|r: CoverageRow| r@)
}

/// The rows of the report: none are gathered from the traces yet.
pub fn get_entries(res: &TraceMap) -> (r: Vec<CoverageRow>)
    ensures
        r@.len() == 0,
{
    Vec::new()
}

/// Appends the table row of one result.
fn push_row(out: &mut String, row: &CoverageRow)
    ensures
        final(out)@ == old(out)@ + row_html(row@),
{
    out.append("<tr><td>");
    out.append(escape_html(row.path.display().as_str()).as_str());
    out.append("</td><td>");
    let mut pct = decimal_string(row.line_coverage as u64);
    crate::text::push_char(&mut pct, '%');
    out.append(escape_html(pct.as_str()).as_str());
    out.append("</td><td>");
    out.append(escape_html(decimal_string(row.hit_rate as u64).as_str()).as_str());
    out.append("</td></tr>");
    assert(final(out)@ =~= old(out)@ + row_html(row@));
}

/// The results part of the page.
pub fn render_results(results: &Vec<CoverageRow>) -> (r: String)
    ensures
        r@ == results_html(row_views(results@)),
{
    let mut r = String::new();
    if results.len() == 0 {
        r.append("<p>No coverage results to show</p>");
        assert(r@ =~= results_html(row_views(results@)));
        return r;
    }
    r.append("<table class=\"table table-striped\"><thead><tr><th>Item</th><th>Line Coverage</th><th>Hit Rate</th></tr></thead><tbody>");
    let ghost start = r@;
    let ghost rows = row_views(results@);
    let mut i: usize = 0;
    while i < results.len()
        invariant
            i <= results@.len(),
            rows == row_views(results@),
            r@ == start + rows_html(rows, i as nat),
        decreases results@.len() - i,
    {
        push_row(&mut r, &results[i]);
        assert(r@ =~= start + rows_html(rows, (i + 1) as nat));
        i = i + 1;
    }
    r.append("</tbody></table>");
    assert(r@ =~= results_html(row_views(results@)));
    r
}

/// The page for a manifest path and the results.
pub fn render_page(config: &Config, results: &Vec<CoverageRow>) -> (r: String)
    ensures
        r@ == page_html(config.manifest@, row_views(results@)),
{
    let mut r = String::new();
    r.append("<!DOCTYPE html><html><head><title>Tarpaulin Coverage Report</title><p>");
    r.append(BOOTSTRAP_LINKS);
    r.append("</p></head><body><div class=\"container\"><div class=\"page-header\"><h1>Tarpaulin Coverage Report</h1></div><h3>Run Summary</h3><p>");
    let mut summary = String::from_str("Manifest path ");
    summary.append(config.manifest.display().as_str());
    r.append(escape_html(summary.as_str()).as_str());
    r.append("</p><h3>Coverage Results</h3><p>");
    r.append(render_results(results).as_str());
    r.append("</p></div></body></html>");
    assert(r@ =~= page_html(config.manifest@, row_views(results@)));
    r
}

/// The report page for the traces: the manifest path and the results table.
pub fn report_page(coverage_data: &TraceMap, config: &Config) -> (r: String)
    ensures
        r@ == page_html(config.manifest@, Seq::empty()),
{
    let results = get_entries(coverage_data);
    let r = render_page(config, &results);
    assert(row_views(results@) =~= Seq::<CoverageRowView>::empty());
    r
}

/// Escaped text holds no markup: no `<`, `>` or `"` is left in it.
pub proof fn law_escaped_text_has_no_markup(s: Seq<char>)
    ensures
        forall|i: int|
            0 <= i < html_escaped(s).len() ==> #[trigger] html_escaped(s)[i] != '<' && html_escaped(s)[i]
                != '>' && html_escaped(s)[i] != '"',
    decreases s.len(),
{
    if s.len() > 0 {
        law_escaped_text_has_no_markup(s.drop_last());
        let prev = html_escaped(s.drop_last());
        let e = escaped_char(s.last());
        assert forall|i: int| 0 <= i < html_escaped(s).len() implies #[trigger] html_escaped(s)[i] != '<'
            && html_escaped(s)[i] != '>' && html_escaped(s)[i] != '"' by {
            if i >= prev.len() {
                assert(html_escaped(s)[i] == e[i - prev.len()]);
            } else {
                assert(html_escaped(s)[i] == prev[i]);
            }
        }
    }
}

/// The report page (what `report_page` returns) depends on nothing but the
/// manifest path: two runs whose manifests are the same path get the same
/// page, whatever their traces, the clock and the other settings.
pub proof fn law_page_depends_only_on_manifest(c1: Config, c2: Config)
    requires
        c1.manifest@ == c2.manifest@,
    ensures
        page_html(c1.manifest@, Seq::empty()) == page_html(c2.manifest@, Seq::empty()),
{
}

} // verus!
