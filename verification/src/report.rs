use vstd::prelude::*;

use crate::diagnostic::{file_views, findings, FileFindings, FileLintResult, Finding, LintResult, Severity, Violation};
use crate::messages::{label, severity_label};
use crate::order::copy_violation;
use crate::text::{decimal, decimal_string};

verus! {

// ---------------------------------------------------------------------------
// What is shown of a file's findings
// ---------------------------------------------------------------------------

/// The findings shown for a file: all of them, or only the errors when `quiet`.
pub open spec fn displayed(fs: Seq<Finding>, quiet: bool) -> Seq<Finding>
    decreases fs.len(),
{
    if fs.len() == 0 {
        Seq::empty()
    } else {
        let d = displayed(fs.drop_last(), quiet);
        if !quiet || fs.last().severity == Severity::Error {
            d.push(fs.last())
        } else {
            d
        }
    }
}

/// The violations shown for a file: all of them, or only the errors when `quiet`.
pub fn displayed_violations(violations: &Vec<Violation>, quiet: bool) -> (r: Vec<Violation>)
    ensures
        findings(r@) == displayed(findings(violations@), quiet),
{
    let ghost fs = findings(violations@);
    let mut out: Vec<Violation> = Vec::new();
    let mut i: usize = 0;
    while i < violations.len()
        invariant
            i <= violations.len(),
            fs == findings(violations@),
            findings(out@) == displayed(fs.take(i as int), quiet),
        decreases violations.len() - i,
    {
        let ghost before = findings(out@);
        assert(fs.take(i + 1).drop_last() =~= fs.take(i as int));
        assert(fs.take(i + 1).last() == violations@[i as int]@);
        if !quiet || violations[i].severity == Severity::Error {
            let v = copy_violation(&violations[i]);
            out.push(v);
            assert(findings(out@) =~= before.push(v@));
        }
        i += 1;
    }
    assert(fs.take(violations.len() as int) =~= fs);
    out
}

/// The stable name of a severity in JSON output.
pub open spec fn json_severity(severity: Severity) -> Seq<char> {
    match severity {
        Severity::Error => "error"@,
        Severity::Warning => "warning"@,
    }
}

pub fn severity_json(severity: Severity) -> (r: &'static str)
    ensures
        r@ == json_severity(severity),
{
    match severity {
        Severity::Error => "error",
        Severity::Warning => "warning",
    }
}

// ---------------------------------------------------------------------------
// Text output
// ---------------------------------------------------------------------------

/// The colors of text output.
#[derive(Debug, Clone, Copy, PartialEq, Eq, Structural)]
pub enum Color {
    Plain,
    Red,
    Yellow,
    Blue,
    Green,
}

/// A piece of an output line, with its color.
pub struct Span {
    pub color: Color,
    pub text: String,
}

impl View for Span {
    type V = (Color, Seq<char>);

    open spec fn view(&self) -> (Color, Seq<char>) {
        (self.color, self.text@)
    }
}

pub open spec fn line_views(line: Seq<Span>) -> Seq<(Color, Seq<char>)> {
    line.map_values(|s: Span| s@)
}

pub open spec fn lines_views(lines: Seq<Vec<Span>>) -> Seq<Seq<(Color, Seq<char>)>> {
    lines.map_values(|l: Vec<Span>| line_views(l@))
}

/// Where a finding is: its severity's label, and its line when it has one.
pub open spec fn location(f: Finding) -> Seq<char> {
    if f.line_num == 0 {
        label(f.severity)
    } else {
        label(f.severity) + " line "@ + decimal(f.line_num as nat)
    }
}

/// The two lines that show a finding: where it is with its message, then the offending
/// text.
pub open spec fn finding_lines(f: Finding) -> Seq<Seq<(Color, Seq<char>)>> {
    seq![
        seq![(Color::Plain, "  "@), (Color::Yellow, location(f) + ":"@), (Color::Plain, " "@ + f.message)],
        seq![(Color::Plain, "  "@), (Color::Blue, ">"@), (Color::Plain, " "@ + f.line_content)],
    ]
}

pub open spec fn findings_lines(fs: Seq<Finding>) -> Seq<Seq<(Color, Seq<char>)>>
    decreases fs.len(),
{
    if fs.len() == 0 {
        Seq::empty()
    } else {
        findings_lines(fs.drop_last()) + finding_lines(fs.last())
    }
}

pub open spec fn has_error(fs: Seq<Finding>) -> bool {
    exists|i: int| 0 <= i < fs.len() && (#[trigger] fs[i]).severity == Severity::Error
}

/// A file's part of the text output: nothing when no finding is shown; else a header (red
/// when an error is shown, yellow otherwise), the shown findings, and an empty line.
pub open spec fn file_lines(r: FileFindings, quiet: bool) -> Seq<Seq<(Color, Seq<char>)>> {
    let d = displayed(r.findings, quiet);
    if d.len() == 0 {
        Seq::empty()
    } else {
        let header = if has_error(d) {
            (Color::Red, "✗ "@ + r.path)
        } else {
            (Color::Yellow, "! "@ + r.path)
        };
        seq![seq![header]] + findings_lines(d) + seq![Seq::empty()]
    }
}

/// The text output of a scan's results, file by file.
pub open spec fn text_lines(rs: Seq<FileFindings>, quiet: bool) -> Seq<Seq<(Color, Seq<char>)>>
    decreases rs.len(),
{
    if rs.len() == 0 {
        Seq::empty()
    } else {
        text_lines(rs.drop_last(), quiet) + file_lines(rs.last(), quiet)
    }
}

fn span(color: Color, text: String) -> (r: Span)
    ensures
        r@ == (color, text@),
{
    Span { color, text }
}

fn prefixed(prefix: &str, text: &str) -> (r: String)
    ensures
        r@ == prefix@ + text@,
{
    let mut r = prefix.to_owned();
    r.append(text);
    r
}

fn location_text(v: &Violation) -> (r: String)
    ensures
        r@ == location(v@) + ":"@,
{
    let mut r = severity_label(v.severity).to_owned();
    if v.line_num != 0 {
        r.append(" line ");
        let digits = decimal_string(v.line_num);
        r.append(digits.as_str());
    }
    r.append(":");
    r
}

fn push_finding_lines(out: &mut Vec<Vec<Span>>, v: &Violation)
    ensures
        lines_views(final(out)@) == lines_views(old(out)@) + finding_lines(v@),
{
    let ghost before = lines_views(out@);
    let first = vec![
        span(Color::Plain, "  ".to_owned()),
        span(Color::Yellow, location_text(v)),
        span(Color::Plain, prefixed(" ", v.message.as_str())),
    ];
    let second = vec![
        span(Color::Plain, "  ".to_owned()),
        span(Color::Blue, ">".to_owned()),
        span(Color::Plain, prefixed(" ", v.line_content.as_str())),
    ];
    let ghost fl = finding_lines(v@);
    assert(line_views(first@) =~= fl[0]);
    assert(line_views(second@) =~= fl[1]);
    out.push(first);
    out.push(second);
    assert(lines_views(out@) =~= before + fl);
}

fn any_error(vs: &Vec<Violation>) -> (r: bool)
    ensures
        r == has_error(findings(vs@)),
{
    let mut i: usize = 0;
    while i < vs.len()
        invariant
            i <= vs.len(),
            forall|k: int| 0 <= k < i ==> vs@[k].severity != Severity::Error,
        decreases vs.len() - i,
    {
        if vs[i].severity == Severity::Error {
            assert(findings(vs@)[i as int].severity == Severity::Error);
            return true;
        }
        i += 1;
    }
    assert forall|k: int| 0 <= k < findings(vs@).len() implies (#[trigger] findings(vs@)[k]).severity != Severity::Error by {
        assert(findings(vs@)[k] == vs@[k]@);
    }
    false
}

/// The text output of a scan's results, as lines of colored pieces. Files with nothing to
/// show (a file with only warnings when `quiet`) are left out.
pub fn render_text(results: &Vec<FileLintResult>, quiet: bool) -> (r: Vec<Vec<Span>>)
    ensures
        lines_views(r@) == text_lines(file_views(results@), quiet),
{
    let ghost rv = file_views(results@);
    let mut out: Vec<Vec<Span>> = Vec::new();
    let mut i: usize = 0;
    while i < results.len()
        invariant
            i <= results.len(),
            rv == file_views(results@),
            lines_views(out@) == text_lines(rv.take(i as int), quiet),
        decreases results.len() - i,
    {
        let ghost start = lines_views(out@);
        assert(rv.take(i + 1).drop_last() =~= rv.take(i as int));
        assert(rv.take(i + 1).last() == results@[i as int]@);
        let file = &results[i];
        let shown = displayed_violations(&file.violations, quiet);
        let ghost d = findings(shown@);
        if shown.len() > 0 {
            let header = if any_error(&shown) {
                span(Color::Red, prefixed("✗ ", file.path.as_str()))
            } else {
                span(Color::Yellow, prefixed("! ", file.path.as_str()))
            };
            let ghost hv = header@;
            let hl = vec![header];
            assert(line_views(hl@) =~= seq![hv]);
            out.push(hl);
            let ghost after_header = lines_views(out@);
            assert(after_header =~= start + seq![seq![hv]]);
            let mut k: usize = 0;
            while k < shown.len()
                invariant
                    k <= shown.len(),
                    d == findings(shown@),
                    lines_views(out@) == after_header + findings_lines(d.take(k as int)),
                decreases shown.len() - k,
            {
                assert(d.take(k + 1).drop_last() =~= d.take(k as int));
                assert(d.take(k + 1).last() == shown@[k as int]@);
                push_finding_lines(&mut out, &shown[k]);
                assert(after_header + findings_lines(d.take(k as int)) + finding_lines(shown@[k as int]@)
                    =~= after_header + findings_lines(d.take(k + 1)));
                k += 1;
            }
            assert(d.take(shown.len() as int) =~= d);
            let ghost before_blank = lines_views(out@);
            let blank: Vec<Span> = Vec::new();
            assert(line_views(blank@) =~= Seq::<(Color, Seq<char>)>::empty());
            out.push(blank);
            assert(lines_views(out@) =~= before_blank.push(Seq::empty()));
            assert(lines_views(out@) =~= start + file_lines(results@[i as int]@, quiet));
        } else {
            assert(lines_views(out@) =~= start + file_lines(results@[i as int]@, quiet));
        }
        i += 1;
    }
    assert(rv.take(results.len() as int) =~= rv);
    out
}

/// The text of a line: its pieces one after the other.
pub open spec fn line_text(line: Seq<(Color, Seq<char>)>) -> Seq<char>
    decreases line.len(),
{
    if line.len() == 0 {
        Seq::empty()
    } else {
        line_text(line.drop_last()) + line.last().1
    }
}

/// The text of lines without colors, each line ended by a newline.
pub open spec fn plain(lines: Seq<Seq<(Color, Seq<char>)>>) -> Seq<char>
    decreases lines.len(),
{
    if lines.len() == 0 {
        Seq::empty()
    } else {
        plain(lines.drop_last()) + line_text(lines.last()) + "\n"@
    }
}

/// The output as plain text, each line ended by a newline (what is shown without colors).
pub fn plain_text(lines: &Vec<Vec<Span>>) -> (r: String)
    ensures
        r@ == plain(lines_views(lines@)),
{
    let ghost lv = lines_views(lines@);
    let mut r = String::new();
    let mut i: usize = 0;
    proof {
        reveal_strlit("\n");
    }
    while i < lines.len()
        invariant
            i <= lines.len(),
            lv == lines_views(lines@),
            r@ == plain(lv.take(i as int)),
        decreases lines.len() - i,
    {
        assert(lv.take(i + 1).drop_last() =~= lv.take(i as int));
        let line = &lines[i];
        let ghost ln = line_views(line@);
        assert(lv.take(i + 1).last() == ln);
        let ghost start = r@;
        let mut k: usize = 0;
        while k < line.len()
            invariant
                k <= line.len(),
                ln == line_views(line@),
                r@ == start + line_text(ln.take(k as int)),
            decreases line.len() - k,
        {
            assert(ln.take(k + 1).drop_last() =~= ln.take(k as int));
            assert(ln.take(k + 1).last() == line@[k as int]@);
            r.append(line[k].text.as_str());
            assert(r@ =~= start + line_text(ln.take(k + 1)));
            k += 1;
        }
        assert(ln.take(line.len() as int) =~= ln);
        r.append("\n");
        i += 1;
    }
    assert(lv.take(lines.len() as int) =~= lv);
    r
}

// ---------------------------------------------------------------------------
// JSON output
// ---------------------------------------------------------------------------

/// The version of the JSON document's shape.
pub const JSON_SCHEMA_VERSION: u32 = 1;

/// A violation in the JSON document; `line` is left out for a file-level finding.
pub struct JsonViolation {
    pub severity: &'static str,
    pub rule_id: Option<String>,
    pub line: Option<usize>,
    pub message: String,
    pub line_content: String,
}

/// A file with its shown violations in the JSON document.
pub struct JsonFile {
    pub path: String,
    pub violations: Vec<JsonViolation>,
}

/// The JSON document of a scan: counts over the whole scan, and the files with shown
/// findings (so `files` need not have `files_checked` entries).
pub struct JsonReport {
    pub schema_version: u32,
    pub files_checked: usize,
    pub violations_found: usize,
    pub warnings_found: usize,
    pub files: Vec<JsonFile>,
}

/// A JSON violation as plain values.
pub struct JsonViolationView {
    pub severity: Seq<char>,
    pub rule_id: Option<Seq<char>>,
    pub line: Option<nat>,
    pub message: Seq<char>,
    pub line_content: Seq<char>,
}

impl View for JsonViolation {
    type V = JsonViolationView;

    open spec fn view(&self) -> JsonViolationView {
        JsonViolationView {
            severity: self.severity@,
            rule_id: match self.rule_id {
                Some(id) => Some(id@),
                None => None,
            },
            line: match self.line {
                Some(n) => Some(n as nat),
                None => None,
            },
            message: self.message@,
            line_content: self.line_content@,
        }
    }
}

pub open spec fn json_violations(v: Seq<JsonViolation>) -> Seq<JsonViolationView> {
    v.map_values(|x: JsonViolation| x@)
}

impl View for JsonFile {
    type V = (Seq<char>, Seq<JsonViolationView>);

    open spec fn view(&self) -> (Seq<char>, Seq<JsonViolationView>) {
        (self.path@, json_violations(self.violations@))
    }
}

pub open spec fn json_file_views(v: Seq<JsonFile>) -> Seq<(Seq<char>, Seq<JsonViolationView>)> {
    v.map_values(|x: JsonFile| x@)
}

/// How a finding is written in the JSON document.
pub open spec fn json_violation(f: Finding) -> JsonViolationView {
    JsonViolationView {
        severity: json_severity(f.severity),
        rule_id: f.rule_id,
        line: if f.line_num == 0 { None } else { Some(f.line_num as nat) },
        message: f.message,
        line_content: f.line_content,
    }
}

/// The files of the JSON document: each file with a shown finding, with those findings.
pub open spec fn json_files(rs: Seq<FileFindings>, quiet: bool) -> Seq<(Seq<char>, Seq<JsonViolationView>)>
    decreases rs.len(),
{
    if rs.len() == 0 {
        Seq::empty()
    } else {
        let prev = json_files(rs.drop_last(), quiet);
        let d = displayed(rs.last().findings, quiet);
        if d.len() == 0 {
            prev
        } else {
            prev.push((rs.last().path, d.map_values(|f: Finding| json_violation(f))))
        }
    }
}

fn json_violation_of(v: &Violation) -> (r: JsonViolation)
    ensures
        r@ == json_violation(v@),
{
    let rule_id = match &v.rule_id {
        Some(id) => Some(id.clone()),
        None => None,
    };
    JsonViolation {
        severity: severity_json(v.severity),
        rule_id,
        line: if v.line_num == 0 { None } else { Some(v.line_num) },
        message: v.message.clone(),
        line_content: v.line_content.clone(),
    }
}

/// The JSON document of a scan. The counts are those of the whole scan; with `quiet`, the
/// files' lists hold their errors only, as the text output does.
pub fn render_json(result: &LintResult, quiet: bool) -> (r: JsonReport)
    ensures
        r.schema_version == JSON_SCHEMA_VERSION,
        r.files_checked == result.files_checked,
        r.violations_found == result.violations_found,
        r.warnings_found == result.warnings_found,
        json_file_views(r.files@) == json_files(file_views(result.results@), quiet),
{
    let ghost rv = file_views(result.results@);
    let mut files: Vec<JsonFile> = Vec::new();
    let mut i: usize = 0;
    while i < result.results.len()
        invariant
            i <= result.results.len(),
            rv == file_views(result.results@),
            json_file_views(files@) == json_files(rv.take(i as int), quiet),
        decreases result.results.len() - i,
    {
        assert(rv.take(i + 1).drop_last() =~= rv.take(i as int));
        assert(rv.take(i + 1).last() == result.results@[i as int]@);
        let file = &result.results[i];
        let shown = displayed_violations(&file.violations, quiet);
        let ghost d = findings(shown@);
        if shown.len() > 0 {
            let mut vs: Vec<JsonViolation> = Vec::new();
            let mut k: usize = 0;
            while k < shown.len()
                invariant
                    k <= shown.len(),
                    d == findings(shown@),
                    json_violations(vs@) == d.take(k as int).map_values(|f: Finding| json_violation(f)),
                decreases shown.len() - k,
            {
                let x = json_violation_of(&shown[k]);
                let ghost before = json_violations(vs@);
                vs.push(x);
                assert(d[k as int] == shown@[k as int]@);
                assert(json_violations(vs@) =~= before.push(x@));
                assert(d.take(k + 1).map_values(|f: Finding| json_violation(f)) =~= d.take(k as int).map_values(
                    |f: Finding| json_violation(f),
                ).push(json_violation(d[k as int])));
                k += 1;
            }
            assert(d.take(shown.len() as int) =~= d);
            let ghost before = json_file_views(files@);
            let jf = JsonFile { path: file.path.clone(), violations: vs };
            files.push(jf);
            assert(json_file_views(files@) =~= before.push(jf@));
        }
        i += 1;
    }
    assert(rv.take(result.results.len() as int) =~= rv);
    JsonReport {
        schema_version: JSON_SCHEMA_VERSION,
        files_checked: result.files_checked,
        violations_found: result.violations_found,
        warnings_found: result.warnings_found,
        files,
    }
}

} // verus!
