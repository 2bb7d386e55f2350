use vstd::prelude::*;

use crate::cli::{fails, run_exit, threshold, FailLevel, Options, EXIT_FINDINGS, EXIT_SUCCESS};
use crate::diagnostic::LintResult;
use crate::context::lockfiles::{manifest_ecosystem, Ecosystem};
use crate::bounded_io::BoundedReadError;
use crate::diagnostic::{FileFindings, Finding, Severity, ViolationKind};
use crate::file_types::{package_json, style_for};
use crate::ignore_directives::{inline_directive, line_directive, Directive};
use crate::parsers::line::{
    bounded_append, comment_or_placeholder, initial_state, is_all, kept_findings, limit_finding, line_file_findings, scan,
    step, without_rule, ScanState, MAX_VIOLATIONS_PER_FILE,
};
use crate::json::{as_text, json_parse, member, JsonTree};
use crate::parsers::line::file_findings;
use crate::parsers::package_json::{insert_by_line, script_findings, script_line, sort_by_line};
use crate::rules::bun::bun_kinds;
use crate::rules::npm::npm_kinds;
use crate::rules::pnpm::pnpm_kinds;
use crate::rules::yarn::yarn_kinds;
use crate::rules::{javascript_kinds, line_findings};
use crate::text::{ends_with, is_space, lines, split_once, starts_with, strip_prefix, trim};
use crate::context::bun::{before_hash, bunfig_frozen, frozen_lockfile_from};
use crate::report::displayed;
use crate::context::git::byte_len;
use crate::context::js_workspace::{
    declares, declares_from, double_star, glob_matches, normalized_member, pnpm_patterns, pnpm_patterns_upto,
    segment_matches, segments_match, unquoted,
    MAX_WORKSPACE_PATTERNS, MAX_WORKSPACE_PATTERN_LENGTH,
};
use crate::context::lockfiles::expected_paths;
use crate::paths::{dedup_paths, file_name, insert_path, path_before, same_path, sort_paths};
use crate::scanner::{
    acceptable_paths, any_tracked, cargo_workspace_paths, go_mod_needs_sum, js_workspace_paths, lockfile_reports, lookup,
    manifest_report, reports_upto, severity_count, source_report, total_count, RepoFile,
};

verus! {

// ---------------------------------------------------------------------------
// Exit codes and thresholds
// ---------------------------------------------------------------------------

/// An error fails a run, whatever the warning threshold.
pub proof fn law_errors_always_fail(errors: usize, warnings: usize, max_warnings: Option<usize>)
    requires
        errors > 0,
    ensures
        fails(errors, warnings, max_warnings),
{
}

/// Without errors, a run fails exactly when the warnings exceed the threshold; with no
/// threshold, warnings never fail it.
pub proof fn law_warnings_fail_only_above_threshold(warnings: usize, max_warnings: Option<usize>)
    ensures
        fails(0, warnings, max_warnings) <==> (max_warnings matches Some(max) && warnings > max),
        fails(0, warnings, None) == false,
{
}

/// `--fail-on warning` is `--max-warnings 0`: both give the threshold 0, and `--fail-on
/// warning` gives it whatever `--max-warnings` says.
pub proof fn law_fail_on_warning_is_max_warnings_zero(max_warnings: Option<usize>)
    ensures
        threshold(max_warnings, FailLevel::Warning) == Some(0usize),
        threshold(Some(0usize), FailLevel::Error) == Some(0usize),
        threshold(None, FailLevel::Error) == None::<usize>,
{
}

/// Of `--max-warnings` and `--fail-on`, the stricter threshold holds.
pub proof fn law_strictest_threshold_wins(max: usize, fail_on: FailLevel)
    ensures
        threshold(Some(max), fail_on) matches Some(t) && t <= max && (fail_on == FailLevel::Warning ==> t == 0),
        fail_on == FailLevel::Error ==> threshold(Some(max), fail_on) == Some(max),
{
}

// ---------------------------------------------------------------------------
// Output
// ---------------------------------------------------------------------------

/// Without `--quiet` every finding is shown; with it, exactly the errors are, in order.
pub proof fn law_quiet_shows_errors_only(fs: Seq<Finding>)
    ensures
        displayed(fs, false) == fs,
        displayed(fs, true).len() == severity_count(fs, Severity::Error),
        forall|i: int| 0 <= i < displayed(fs, true).len() ==> (#[trigger] displayed(fs, true)[i]).severity == Severity::Error,
    decreases fs.len(),
{
    if fs.len() > 0 {
        law_quiet_shows_errors_only(fs.drop_last());
        assert(fs.drop_last().push(fs.last()) =~= fs);
        let d = displayed(fs.drop_last(), true);
        assert forall|i: int| 0 <= i < displayed(fs, true).len() implies (#[trigger] displayed(fs, true)[i]).severity == Severity::Error by {
            if i < d.len() {
                assert(displayed(fs, true)[i] == d[i]);
            }
        }
    } else {
        assert(displayed(fs, false) =~= fs);
    }
}

// ---------------------------------------------------------------------------
// The tracked-lockfile check
// ---------------------------------------------------------------------------

proof fn lemma_reports_are_warnings(root: Seq<char>, in_index: Seq<Seq<char>>, files: Seq<RepoFile>, n: nat)
    ensures
        forall|i: int, j: int|
            0 <= i < reports_upto(root, in_index, files, n).len() && 0 <= j < reports_upto(root, in_index, files, n)[i].findings.len()
                ==> #[trigger] reports_upto(root, in_index, files, n)[i].findings[j].severity == Severity::Warning,
    decreases n,
{
    if n > 0 {
        lemma_reports_are_warnings(root, in_index, files, (n - 1) as nat);
    }
}

proof fn lemma_no_errors(rs: Seq<FileFindings>)
    requires
        forall|i: int, j: int|
            0 <= i < rs.len() && 0 <= j < rs[i].findings.len() ==> #[trigger] rs[i].findings[j].severity == Severity::Warning,
    ensures
        total_count(rs, Severity::Error) == 0,
    decreases rs.len(),
{
    if rs.len() > 0 {
        let init = rs.drop_last();
        assert forall|i: int, j: int| 0 <= i < init.len() && 0 <= j < init[i].findings.len() implies #[trigger] init[i].findings[j].severity
            == Severity::Warning by {
            assert(init[i] == rs[i]);
        }
        lemma_no_errors(init);
        let fs = rs.last().findings;
        assert forall|j: int| 0 <= j < fs.len() implies (#[trigger] fs[j]).severity == Severity::Warning by {
            assert(rs[rs.len() - 1].findings[j].severity == Severity::Warning);
        }
        lemma_severity_count_zero(fs);
    }
}

proof fn lemma_severity_count_zero(fs: Seq<Finding>)
    requires
        forall|j: int| 0 <= j < fs.len() ==> (#[trigger] fs[j]).severity == Severity::Warning,
    ensures
        severity_count(fs, Severity::Error) == 0,
    decreases fs.len(),
{
    if fs.len() > 0 {
        let init = fs.drop_last();
        assert forall|j: int| 0 <= j < init.len() implies (#[trigger] init[j]).severity == Severity::Warning by {
            assert(init[j] == fs[j]);
        }
        lemma_severity_count_zero(init);
        assert(fs.last() == fs[fs.len() - 1]);
    }
}

/// What the tracked-lockfile check reports are warnings, never errors: it adds nothing to
/// the errors that fail a run.
pub proof fn law_lockfile_findings_are_warnings(root: Seq<char>, in_index: Seq<Seq<char>>, files: Seq<RepoFile>)
    ensures
        forall|i: int, j: int|
            0 <= i < lockfile_reports(root, in_index, files).len() && 0 <= j < lockfile_reports(root, in_index, files)[i].findings.len()
                ==> #[trigger] lockfile_reports(root, in_index, files)[i].findings[j].severity == Severity::Warning,
        total_count(lockfile_reports(root, in_index, files), Severity::Error) == 0,
{
    lemma_reports_are_warnings(root, in_index, files, in_index.len());
    lemma_no_errors(lockfile_reports(root, in_index, files));
}

/// A Go module whose `go.mod` (as read) requires nothing needs no `go.sum`: it gets no
/// warning.
pub proof fn law_go_module_without_requirements(root: Seq<char>, manifest: Seq<char>, in_index: Seq<Seq<char>>, files: Seq<RepoFile>, text: Seq<char>)
    requires
        manifest_ecosystem(manifest) == Some(Ecosystem::Go),
        lookup(files, manifest) == Some(text),
        !go_mod_needs_sum(text),
    ensures
        manifest_report(root, manifest, in_index, files) is None,
{
}


// ---------------------------------------------------------------------------
// Line scanning
// ---------------------------------------------------------------------------

proof fn lemma_kinds_are_errors(line: Seq<char>, bun_frozen_lockfile: bool)
    ensures
        forall|i: int|
            0 <= i < javascript_kinds(line, bun_frozen_lockfile).len()
                ==> (#[trigger] javascript_kinds(line, bun_frozen_lockfile)[i]).spec_severity() == Severity::Error,
{
    let a = npm_kinds(line);
    let b = pnpm_kinds(line);
    let c = yarn_kinds(line);
    let d = bun_kinds(line, bun_frozen_lockfile);
    assert(forall|i: int| 0 <= i < a.len() ==> (#[trigger] a[i]).spec_severity() == Severity::Error);
    assert(forall|i: int| 0 <= i < b.len() ==> (#[trigger] b[i]).spec_severity() == Severity::Error);
    assert(forall|i: int| 0 <= i < c.len() ==> (#[trigger] c[i]).spec_severity() == Severity::Error);
    assert(forall|i: int| 0 <= i < d.len() ==> (#[trigger] d[i]).spec_severity() == Severity::Error);
    let k = javascript_kinds(line, bun_frozen_lockfile);
    assert(k == a + b + c + d);
    assert forall|i: int| 0 <= i < k.len() implies (#[trigger] k[i]).spec_severity() == Severity::Error by {
        if i < a.len() {
            assert(k[i] == a[i]);
        } else if i < a.len() + b.len() {
            assert(k[i] == b[i - a.len()]);
        } else if i < a.len() + b.len() + c.len() {
            assert(k[i] == c[i - a.len() - b.len()]);
        } else {
            assert(k[i] == d[i - a.len() - b.len() - c.len()]);
        }
    }
}

proof fn lemma_without_rule_keeps(fs: Seq<Finding>, rule: Seq<char>, p: spec_fn(Finding) -> bool)
    requires
        forall|i: int| 0 <= i < fs.len() ==> p(#[trigger] fs[i]),
    ensures
        forall|i: int| 0 <= i < without_rule(fs, rule).len() ==> p(#[trigger] without_rule(fs, rule)[i]),
    decreases fs.len(),
{
    if fs.len() > 0 {
        let init = fs.drop_last();
        assert forall|i: int| 0 <= i < init.len() implies p(#[trigger] init[i]) by {
            assert(init[i] == fs[i]);
        }
        lemma_without_rule_keeps(init, rule, p);
        let rest = without_rule(init, rule);
        let w = without_rule(fs, rule);
        assert forall|i: int| 0 <= i < w.len() implies p(#[trigger] w[i]) by {
            if i < rest.len() {
                assert(w[i] == rest[i]);
            } else {
                assert(w[i] == fs.last());
                assert(fs.last() == fs[fs.len() - 1]);
            }
        }
    }
}

/// The findings a linted line keeps are errors on that line.
proof fn lemma_kept_findings(
    effective: Seq<char>,
    line_num: int,
    bun_frozen_lockfile: bool,
    previous: Option<Directive>,
    inline: Option<Directive>,
)
    ensures
        forall|i: int|
            0 <= i < kept_findings(effective, line_num, bun_frozen_lockfile, previous, inline).len() ==> {
                let f = #[trigger] kept_findings(effective, line_num, bun_frozen_lockfile, previous, inline)[i];
                f.line_num == line_num && f.severity == Severity::Error
            },
{
    let p = |f: Finding| f.line_num == line_num && f.severity == Severity::Error;
    lemma_kinds_are_errors(effective, bun_frozen_lockfile);
    let kinds = javascript_kinds(effective, bun_frozen_lockfile);
    let fs = line_findings(kinds, line_num, effective);
    assert forall|i: int| 0 <= i < fs.len() implies p(#[trigger] fs[i]) by {
        assert(fs[i] == crate::diagnostic::finding(kinds[i], line_num, crate::text::trim(effective)));
    }
    let fs1 = match previous {
        Some(Directive::Specific(rule)) => without_rule(fs, rule),
        _ => fs,
    };
    if let Some(Directive::Specific(rule)) = previous {
        lemma_without_rule_keeps(fs, rule, p);
    }
    if let Some(Directive::Specific(rule)) = inline {
        lemma_without_rule_keeps(fs1, rule, p);
    }
}

/// A step keeps a property of findings that the findings before it, the limit finding, and
/// every error on the stepped line have.
proof fn lemma_step_keeps(
    s: ScanState,
    line: Seq<char>,
    n: int,
    is_markdown: bool,
    bun_frozen_lockfile: bool,
    prefix: Seq<char>,
    suffix: Seq<char>,
    p: spec_fn(Finding) -> bool,
)
    requires
        forall|i: int| 0 <= i < s.found.len() ==> p(#[trigger] s.found[i]),
        p(limit_finding()),
        forall|f: Finding| f.line_num == n && f.severity == Severity::Error ==> #[trigger] p(f),
    ensures
        forall|i: int|
            0 <= i < step(s, line, n, is_markdown, bun_frozen_lockfile, prefix, suffix).found.len()
                ==> p(#[trigger] step(s, line, n, is_markdown, bun_frozen_lockfile, prefix, suffix).found[i]),
{
    let t = step(s, line, n, is_markdown, bun_frozen_lockfile, prefix, suffix);
    let inline = inline_directive(line, prefix, suffix);
    let effective = match inline {
        Some((code, _)) => code,
        None => line,
    };
    let inline_d = match inline {
        Some((_, d)) => Some(d),
        None => None,
    };
    let kept = kept_findings(effective, n, bun_frozen_lockfile, s.skip_next, inline_d);
    lemma_kept_findings(effective, n, bun_frozen_lockfile, s.skip_next, inline_d);
    let all = s.found + kept;
    assert forall|i: int| 0 <= i < all.len() implies p(#[trigger] all[i]) by {
        if i < s.found.len() {
            assert(all[i] == s.found[i]);
        } else {
            assert(all[i] == kept[i - s.found.len()]);
        }
    }
    if all.len() >= MAX_VIOLATIONS_PER_FILE {
        let cut = seq![limit_finding()] + all.take(MAX_VIOLATIONS_PER_FILE as int);
        assert forall|i: int| 0 <= i < cut.len() implies p(#[trigger] cut[i]) by {
            if i > 0 {
                assert(cut[i] == all[i - 1]);
            }
        }
    }
}

/// The state after each line: a stopped scan holds the limit's worth of findings and the
/// limit finding; one that goes on holds fewer than the limit.
proof fn lemma_scan_bounded(
    ls: Seq<Seq<char>>,
    n: int,
    is_markdown: bool,
    bun_frozen_lockfile: bool,
    prefix: Seq<char>,
    suffix: Seq<char>,
)
    ensures
        scan(ls, n, is_markdown, bun_frozen_lockfile, prefix, suffix).stopped
            ==> scan(ls, n, is_markdown, bun_frozen_lockfile, prefix, suffix).found.len() == MAX_VIOLATIONS_PER_FILE + 1,
        !scan(ls, n, is_markdown, bun_frozen_lockfile, prefix, suffix).stopped
            ==> scan(ls, n, is_markdown, bun_frozen_lockfile, prefix, suffix).found.len() < MAX_VIOLATIONS_PER_FILE,
    decreases n,
{
    if n > 0 {
        lemma_scan_bounded(ls, n - 1, is_markdown, bun_frozen_lockfile, prefix, suffix);
    }
}

proof fn lemma_scan_errors(
    ls: Seq<Seq<char>>,
    n: int,
    is_markdown: bool,
    bun_frozen_lockfile: bool,
    prefix: Seq<char>,
    suffix: Seq<char>,
)
    ensures
        forall|i: int|
            0 <= i < scan(ls, n, is_markdown, bun_frozen_lockfile, prefix, suffix).found.len() ==> {
                let f = #[trigger] scan(ls, n, is_markdown, bun_frozen_lockfile, prefix, suffix).found[i];
                f.severity == Severity::Error && (f.line_num == 0 || 1 <= f.line_num <= n)
            },
    decreases n,
{
    if n > 0 {
        lemma_scan_errors(ls, n - 1, is_markdown, bun_frozen_lockfile, prefix, suffix);
        let p = |f: Finding| f.severity == Severity::Error && (f.line_num == 0 || 1 <= f.line_num <= n);
        let s = scan(ls, n - 1, is_markdown, bun_frozen_lockfile, prefix, suffix);
        assert forall|i: int| 0 <= i < s.found.len() implies p(#[trigger] s.found[i]) by {}
        lemma_step_keeps(s, ls[n - 1], n, is_markdown, bun_frozen_lockfile, prefix, suffix, p);
    }
}

/// A line-based file reports at most `MAX_VIOLATIONS_PER_FILE` findings and the limit
/// finding, all of them errors, each on a line of the file or on none.
pub proof fn law_line_findings_bounded_errors(
    content: Seq<char>,
    is_markdown: bool,
    bun_frozen_lockfile: bool,
    prefix: Seq<char>,
    suffix: Seq<char>,
)
    ensures
        line_file_findings(content, is_markdown, bun_frozen_lockfile, prefix, suffix).len() <= MAX_VIOLATIONS_PER_FILE + 1,
        forall|i: int|
            0 <= i < line_file_findings(content, is_markdown, bun_frozen_lockfile, prefix, suffix).len() ==> {
                let f = #[trigger] line_file_findings(content, is_markdown, bun_frozen_lockfile, prefix, suffix)[i];
                f.severity == Severity::Error && (f.line_num == 0 || 1 <= f.line_num <= lines(content).len())
            },
{
    let ls = lines(content);
    lemma_scan_bounded(ls, ls.len() as int, is_markdown, bun_frozen_lockfile, prefix, suffix);
    lemma_scan_errors(ls, ls.len() as int, is_markdown, bun_frozen_lockfile, prefix, suffix);
}

proof fn lemma_no_code_block(
    ls: Seq<Seq<char>>,
    n: int,
    bun_frozen_lockfile: bool,
    prefix: Seq<char>,
    suffix: Seq<char>,
)
    ensures
        !scan(ls, n, false, bun_frozen_lockfile, prefix, suffix).in_code_block,
    decreases n,
{
    if n > 0 {
        lemma_no_code_block(ls, n - 1, bun_frozen_lockfile, prefix, suffix);
    }
}

proof fn lemma_scan_skips_line(
    ls: Seq<Seq<char>>,
    k: int,
    n: int,
    bun_frozen_lockfile: bool,
    prefix: Seq<char>,
    suffix: Seq<char>,
)
    requires
        0 <= k,
        k + 2 <= n,
        k + 1 < ls.len(),
        inline_directive(ls[k], prefix, suffix) is None,
        line_directive(ls[k], prefix, suffix) == Some(Directive::All),
    ensures
        forall|i: int|
            0 <= i < scan(ls, n, false, bun_frozen_lockfile, prefix, suffix).found.len()
                ==> (#[trigger] scan(ls, n, false, bun_frozen_lockfile, prefix, suffix).found[i]).line_num != k + 2,
    decreases n,
{
    let p = |f: Finding| f.line_num != k + 2;
    if n == k + 2 {
        lemma_scan_errors(ls, k, false, bun_frozen_lockfile, prefix, suffix);
        let s0 = scan(ls, k, false, bun_frozen_lockfile, prefix, suffix);
        lemma_no_code_block(ls, k, bun_frozen_lockfile, prefix, suffix);
        lemma_no_code_block(ls, k + 1, bun_frozen_lockfile, prefix, suffix);
        let s1 = scan(ls, k + 1, false, bun_frozen_lockfile, prefix, suffix);
        assert(s1 == step(s0, ls[k], k + 1, false, bun_frozen_lockfile, prefix, suffix));
        assert(s1.found == s0.found);
        assert(!s1.stopped ==> s1.skip_next == Some(Directive::All));
        let s2 = scan(ls, k + 2, false, bun_frozen_lockfile, prefix, suffix);
        assert(s2 == step(s1, ls[k + 1], k + 2, false, bun_frozen_lockfile, prefix, suffix));
        assert(s2.found == s1.found);
        assert forall|i: int| 0 <= i < s2.found.len() implies p(#[trigger] s2.found[i]) by {
            assert(s2.found[i] == s0.found[i]);
        }
    } else {
        lemma_scan_skips_line(ls, k, n - 1, bun_frozen_lockfile, prefix, suffix);
        let s = scan(ls, n - 1, false, bun_frozen_lockfile, prefix, suffix);
        assert forall|i: int| 0 <= i < s.found.len() implies p(#[trigger] s.found[i]) by {}
        lemma_step_keeps(s, ls[n - 1], n, false, bun_frozen_lockfile, prefix, suffix, p);
    }
}

/// A directive on a line of its own that ignores every rule suppresses the next line: no
/// finding is reported on it (for files other than Markdown).
pub proof fn law_ignore_directive_covers_next_line(
    content: Seq<char>,
    k: int,
    bun_frozen_lockfile: bool,
    prefix: Seq<char>,
    suffix: Seq<char>,
)
    requires
        0 <= k,
        k + 1 < lines(content).len(),
        inline_directive(lines(content)[k], prefix, suffix) is None,
        line_directive(lines(content)[k], prefix, suffix) == Some(Directive::All),
    ensures
        forall|i: int|
            0 <= i < line_file_findings(content, false, bun_frozen_lockfile, prefix, suffix).len()
                ==> (#[trigger] line_file_findings(content, false, bun_frozen_lockfile, prefix, suffix)[i]).line_num
                != k + 2,
{
    let ls = lines(content);
    lemma_scan_skips_line(ls, k, ls.len() as int, bun_frozen_lockfile, prefix, suffix);
}

proof fn lemma_scan_skips_inline(
    ls: Seq<Seq<char>>,
    k: int,
    n: int,
    is_markdown: bool,
    bun_frozen_lockfile: bool,
    prefix: Seq<char>,
    suffix: Seq<char>,
)
    requires
        0 <= k,
        k + 1 <= n,
        k < ls.len(),
        inline_directive(ls[k], prefix, suffix) matches Some((_, Directive::All)),
    ensures
        forall|i: int|
            0 <= i < scan(ls, n, is_markdown, bun_frozen_lockfile, prefix, suffix).found.len()
                ==> (#[trigger] scan(ls, n, is_markdown, bun_frozen_lockfile, prefix, suffix).found[i]).line_num != k + 1,
    decreases n,
{
    let p = |f: Finding| f.line_num != k + 1;
    if n == k + 1 {
        lemma_scan_errors(ls, k, is_markdown, bun_frozen_lockfile, prefix, suffix);
        let s0 = scan(ls, k, is_markdown, bun_frozen_lockfile, prefix, suffix);
        let s1 = scan(ls, k + 1, is_markdown, bun_frozen_lockfile, prefix, suffix);
        assert(s1 == step(s0, ls[k], k + 1, is_markdown, bun_frozen_lockfile, prefix, suffix));
        assert(s1.found == s0.found);
        assert forall|i: int| 0 <= i < s1.found.len() implies p(#[trigger] s1.found[i]) by {
            assert(s1.found[i] == s0.found[i]);
        }
    } else {
        lemma_scan_skips_inline(ls, k, n - 1, is_markdown, bun_frozen_lockfile, prefix, suffix);
        let s = scan(ls, n - 1, is_markdown, bun_frozen_lockfile, prefix, suffix);
        assert forall|i: int| 0 <= i < s.found.len() implies p(#[trigger] s.found[i]) by {}
        lemma_step_keeps(s, ls[n - 1], n, is_markdown, bun_frozen_lockfile, prefix, suffix, p);
    }
}

/// A directive at the end of a line that ignores every rule suppresses that line: no
/// finding is reported on it.
pub proof fn law_inline_ignore_covers_its_line(
    content: Seq<char>,
    k: int,
    is_markdown: bool,
    bun_frozen_lockfile: bool,
    prefix: Seq<char>,
    suffix: Seq<char>,
)
    requires
        0 <= k < lines(content).len(),
        inline_directive(lines(content)[k], prefix, suffix) matches Some((_, Directive::All)),
    ensures
        forall|i: int|
            0 <= i < line_file_findings(content, is_markdown, bun_frozen_lockfile, prefix, suffix).len()
                ==> (#[trigger] line_file_findings(content, is_markdown, bun_frozen_lockfile, prefix, suffix)[i]).line_num
                != k + 1,
{
    let ls = lines(content);
    lemma_scan_skips_inline(ls, k, ls.len() as int, is_markdown, bun_frozen_lockfile, prefix, suffix);
}


// ---------------------------------------------------------------------------
// `package.json` scripts and whole files
// ---------------------------------------------------------------------------

proof fn lemma_insert_by_line_keeps(s: Seq<Finding>, f: Finding, p: spec_fn(Finding) -> bool)
    requires
        forall|i: int| 0 <= i < s.len() ==> p(#[trigger] s[i]),
        p(f),
    ensures
        insert_by_line(s, f).len() == s.len() + 1,
        forall|i: int| 0 <= i < insert_by_line(s, f).len() ==> p(#[trigger] insert_by_line(s, f)[i]),
    decreases s.len(),
{
    if s.len() > 0 && s.last().line_num > f.line_num {
        let init = s.drop_last();
        assert forall|i: int| 0 <= i < init.len() implies p(#[trigger] init[i]) by {
            assert(init[i] == s[i]);
        }
        lemma_insert_by_line_keeps(init, f, p);
        let r = insert_by_line(s, f);
        let rest = insert_by_line(init, f);
        assert forall|i: int| 0 <= i < r.len() implies p(#[trigger] r[i]) by {
            if i < rest.len() {
                assert(r[i] == rest[i]);
            } else {
                assert(r[i] == s[s.len() - 1]);
            }
        }
    } else {
        let r = insert_by_line(s, f);
        assert forall|i: int| 0 <= i < r.len() implies p(#[trigger] r[i]) by {
            if i < s.len() {
                assert(r[i] == s[i]);
            }
        }
    }
}

proof fn lemma_sort_by_line_keeps(s: Seq<Finding>, p: spec_fn(Finding) -> bool)
    requires
        forall|i: int| 0 <= i < s.len() ==> p(#[trigger] s[i]),
    ensures
        sort_by_line(s).len() == s.len(),
        forall|i: int| 0 <= i < sort_by_line(s).len() ==> p(#[trigger] sort_by_line(s)[i]),
    decreases s.len(),
{
    if s.len() > 0 {
        let init = s.drop_last();
        assert forall|i: int| 0 <= i < init.len() implies p(#[trigger] init[i]) by {
            assert(init[i] == s[i]);
        }
        lemma_sort_by_line_keeps(init, p);
        assert(p(s[s.len() - 1]));
        lemma_insert_by_line_keeps(sort_by_line(init), s.last(), p);
    }
}

proof fn lemma_script_findings(
    entries: Seq<(Seq<char>, JsonTree)>,
    i: int,
    acc: Seq<Finding>,
    content: Seq<char>,
    bun_frozen_lockfile: bool,
)
    requires
        acc.len() < MAX_VIOLATIONS_PER_FILE,
        forall|j: int| 0 <= j < acc.len() ==> (#[trigger] acc[j]).severity == Severity::Error,
    ensures
        script_findings(entries, i, acc, content, bun_frozen_lockfile).len() <= MAX_VIOLATIONS_PER_FILE + 1,
        forall|j: int|
            0 <= j < script_findings(entries, i, acc, content, bun_frozen_lockfile).len()
                ==> (#[trigger] script_findings(entries, i, acc, content, bun_frozen_lockfile)[j]).severity == Severity::Error,
    decreases entries.len() - i,
{
    if 0 <= i < entries.len() {
        match as_text(entries[i].1) {
            None => {
                lemma_script_findings(entries, i + 1, acc, content, bun_frozen_lockfile);
            },
            Some(script) => {
                let n = script_line(content, entries[i].0);
                let kinds = javascript_kinds(script, bun_frozen_lockfile);
                lemma_kinds_are_errors(script, bun_frozen_lockfile);
                let fs = line_findings(kinds, n, script);
                let all = acc + fs;
                assert forall|j: int| 0 <= j < all.len() implies (#[trigger] all[j]).severity == Severity::Error by {
                    if j < acc.len() {
                        assert(all[j] == acc[j]);
                    } else {
                        assert(all[j] == fs[j - acc.len()]);
                        assert(fs[j - acc.len()] == crate::diagnostic::finding(kinds[j - acc.len()], n, crate::text::trim(script)));
                    }
                }
                if all.len() >= MAX_VIOLATIONS_PER_FILE {
                    let cut = all.take(MAX_VIOLATIONS_PER_FILE as int).push(limit_finding());
                    assert forall|j: int| 0 <= j < cut.len() implies (#[trigger] cut[j]).severity == Severity::Error by {
                        if j < MAX_VIOLATIONS_PER_FILE {
                            assert(cut[j] == all[j]);
                        }
                    }
                } else {
                    lemma_script_findings(entries, i + 1, all, content, bun_frozen_lockfile);
                }
            },
        }
    }
}

/// Whatever a file holds, it reports at most `MAX_VIOLATIONS_PER_FILE` findings and the
/// limit finding, and every finding about its commands is an error.
pub proof fn law_file_findings_bounded_errors(
    content: Seq<char>,
    is_package_json: bool,
    is_markdown: bool,
    bun_frozen_lockfile: bool,
    prefix: Seq<char>,
    suffix: Seq<char>,
)
    ensures
        file_findings(content, is_package_json, is_markdown, bun_frozen_lockfile, prefix, suffix).len()
            <= MAX_VIOLATIONS_PER_FILE + 1,
        forall|i: int|
            0 <= i < file_findings(content, is_package_json, is_markdown, bun_frozen_lockfile, prefix, suffix).len()
                ==> (#[trigger] file_findings(content, is_package_json, is_markdown, bun_frozen_lockfile, prefix, suffix)[i]).severity
                == Severity::Error,
{
    if is_package_json {
        match json_parse(content) {
            None => {},
            Some(doc) => match member(doc, "scripts"@) {
                Some(JsonTree::Object(entries)) => {
                    lemma_script_findings(entries, 0, Seq::empty(), content, bun_frozen_lockfile);
                    let sf = script_findings(entries, 0, Seq::empty(), content, bun_frozen_lockfile);
                    let p = |f: Finding| f.severity == Severity::Error;
                    assert forall|j: int| 0 <= j < sf.len() implies p(#[trigger] sf[j]) by {}
                    lemma_sort_by_line_keeps(sf, p);
                },
                _ => {},
            },
        }
    } else {
        law_line_findings_bounded_errors(content, is_markdown, bun_frozen_lockfile, prefix, suffix);
    }
}


// ---------------------------------------------------------------------------
// Lockfiles that satisfy a manifest
// ---------------------------------------------------------------------------

/// Some path of `r` names the same path as `x`.
pub open spec fn names_path(r: Seq<Seq<char>>, x: Seq<char>) -> bool {
    exists|j: int| 0 <= j < r.len() && same_path(#[trigger] r[j], x)
}

proof fn lemma_insert_path_members(s: Seq<Seq<char>>, x: Seq<char>)
    ensures
        insert_path(s, x).contains(x),
        forall|i: int| 0 <= i < s.len() ==> insert_path(s, x).contains(#[trigger] s[i]),
    decreases s.len(),
{
    let r = insert_path(s, x);
    if s.len() == 0 {
        assert(r[0] == x);
    } else if path_before(x, s[0]) {
        assert(r[0] == x);
        assert forall|i: int| 0 <= i < s.len() implies r.contains(#[trigger] s[i]) by {
            assert(r[i + 1] == s[i]);
        }
    } else {
        let t = s.drop_first();
        lemma_insert_path_members(t, x);
        let rt = insert_path(t, x);
        let jx = choose|j: int| 0 <= j < rt.len() && rt[j] == x;
        assert(r[jx + 1] == x);
        assert forall|i: int| 0 <= i < s.len() implies r.contains(#[trigger] s[i]) by {
            if i == 0 {
                assert(r[0] == s[0]);
            } else {
                assert(t[i - 1] == s[i]);
                assert(rt.contains(t[i - 1]));
                let j = choose|j: int| 0 <= j < rt.len() && rt[j] == t[i - 1];
                assert(r[j + 1] == s[i]);
            }
        }
    }
}

proof fn lemma_sort_paths_members(s: Seq<Seq<char>>)
    ensures
        forall|i: int| 0 <= i < s.len() ==> sort_paths(s).contains(#[trigger] s[i]),
    decreases s.len(),
{
    if s.len() > 0 {
        let init = s.drop_last();
        lemma_sort_paths_members(init);
        lemma_insert_path_members(sort_paths(init), s.last());
        let si = sort_paths(init);
        assert forall|i: int| 0 <= i < s.len() implies sort_paths(s).contains(#[trigger] s[i]) by {
            if i < init.len() {
                assert(init[i] == s[i]);
                assert(si.contains(init[i]));
                let j = choose|j: int| 0 <= j < si.len() && si[j] == init[i];
                assert(insert_path(si, s.last()).contains(si[j]));
            }
        }
    }
}

proof fn lemma_dedup_paths_names(s: Seq<Seq<char>>)
    ensures
        forall|i: int| 0 <= i < s.len() ==> names_path(dedup_paths(s), #[trigger] s[i]),
    decreases s.len(),
{
    if s.len() > 0 {
        let init = s.drop_last();
        lemma_dedup_paths_names(init);
        let d = dedup_paths(init);
        let r = dedup_paths(s);
        assert forall|i: int| 0 <= i < s.len() implies names_path(r, #[trigger] s[i]) by {
            if i < init.len() {
                assert(init[i] == s[i]);
                assert(names_path(d, init[i]));
                let j = choose|j: int| 0 <= j < d.len() && same_path(#[trigger] d[j], init[i]);
                assert(r[j] == d[j]);
            } else if d.len() > 0 && same_path(d.last(), s.last()) {
                assert(same_path(r[d.len() - 1], s[i]));
            } else {
                assert(r[d.len() as int] == s[i]);
            }
        }
    }
}

/// A lockfile in the index satisfies a manifest when it is one of those expected beside it,
/// or one of a workspace above a Cargo or JavaScript manifest that has it as a member: the
/// manifest then gets no warning.
pub proof fn law_committed_lockfile_satisfies(
    root: Seq<char>,
    manifest: Seq<char>,
    in_index: Seq<Seq<char>>,
    files: Seq<RepoFile>,
    lock: Seq<char>,
    j: int,
)
    requires
        expected_paths(manifest) is Some,
        expected_paths(manifest).unwrap().contains(lock)
            || (file_name(manifest) == Some("Cargo.toml"@) && cargo_workspace_paths(manifest, files).contains(lock))
            || (file_name(manifest) == Some("package.json"@) && js_workspace_paths(manifest, files).contains(lock)),
        0 <= j < in_index.len(),
        same_path(in_index[j], lock),
    ensures
        manifest_report(root, manifest, in_index, files) is None,
{
    reveal_strlit("Cargo.toml");
    reveal_strlit("package.json");
    let expected = expected_paths(manifest).unwrap();
    let acc = acceptable_paths(manifest, expected, files);
    let extra = if file_name(manifest) == Some("Cargo.toml"@) {
        cargo_workspace_paths(manifest, files)
    } else {
        js_workspace_paths(manifest, files)
    };
    if file_name(manifest) == Some("Cargo.toml"@) || file_name(manifest) == Some("package.json"@) {
        let all = expected + extra;
        let li: int;
        if expected.contains(lock) {
            let q = choose|q: int| 0 <= q < expected.len() && expected[q] == lock;
            assert(all[q] == expected[q]);
            li = q;
        } else {
            assert(extra.contains(lock));
            let q = choose|q: int| 0 <= q < extra.len() && extra[q] == lock;
            assert(all[expected.len() + q] == extra[q]);
            li = expected.len() + q;
        }
        assert(0 <= li < all.len() && all[li] == lock);
        lemma_sort_paths_members(all);
        let sorted = sort_paths(all);
        assert(sorted.contains(all[li]));
        let si = choose|q: int| 0 <= q < sorted.len() && sorted[q] == all[li];
        lemma_dedup_paths_names(sorted);
        assert(names_path(dedup_paths(sorted), sorted[si]));
        assert(acc == dedup_paths(sorted));
        let k = choose|q: int| 0 <= q < acc.len() && same_path(#[trigger] acc[q], lock);
        assert(same_path(acc[k], in_index[j]));
        assert(any_tracked(acc, in_index));
    } else {
        let q = choose|q: int| 0 <= q < expected.len() && expected[q] == lock;
        assert(acc == expected);
        assert(same_path(acc[q], in_index[j]));
        assert(any_tracked(acc, in_index));
    }
}


// ---------------------------------------------------------------------------
// Inputs and rules
// ---------------------------------------------------------------------------

/// A scanned file that cannot be read within its limits is reported as an error, never
/// skipped.
pub proof fn law_unreadable_inputs_are_errors(path: Seq<char>, error: BoundedReadError, bun_frozen_lockfile: bool)
    requires
        style_for(path) is Some || package_json(path),
    ensures
        source_report(path, Err(error), bun_frozen_lockfile) matches Some(r) && r.path == path && r.findings.len() == 1
            && r.findings[0].severity == Severity::Error && r.findings[0].rule_id == Some("scan-input-unavailable"@),
{
}

/// When the repository's `bunfig.toml` freezes the lockfile, a bare `bun install` is not
/// reported.
pub proof fn law_bunfig_frozen_lockfile_accepts_install(line: Seq<char>)
    ensures
        forall|i: int| 0 <= i < bun_kinds(line, true).len() ==> #[trigger] bun_kinds(line, true)[i] != ViolationKind::BunFrozenLockfile,
{
}


// ---------------------------------------------------------------------------
// Workspace globs
// ---------------------------------------------------------------------------

/// A glob segment without `*` or `?` matches exactly the path segment it spells.
pub proof fn law_literal_segment_matches_itself(p: Seq<char>, t: Seq<char>)
    requires
        forall|i: int| 0 <= i < p.len() ==> #[trigger] p[i] != '*' && p[i] != '?',
    ensures
        segment_matches(p, t) <==> p == t,
    decreases p.len(),
{
    if p.len() == 0 {
        if t.len() == 0 {
            assert(p =~= t);
        }
    } else {
        let pi = p.drop_last();
        assert forall|i: int| 0 <= i < pi.len() implies #[trigger] pi[i] != '*' && pi[i] != '?' by {
            assert(pi[i] == p[i]);
        }
        assert(p.last() == p[p.len() - 1]);
        if t.len() > 0 {
            law_literal_segment_matches_itself(pi, t.drop_last());
            if pi == t.drop_last() && p.last() == t.last() {
                assert(p =~= t) by {
                    assert(p =~= pi.push(p.last()));
                    assert(t =~= t.drop_last().push(t.last()));
                }
            }
            if p == t {
                assert(pi =~= t.drop_last());
            }
        }
    }
}

/// A `*` segment matches any one path segment.
pub proof fn law_star_matches_any_segment(t: Seq<char>)
    ensures
        segment_matches(seq!['*'], t),
    decreases t.len(),
{
    let star = seq!['*'];
    assert(star.drop_last() =~= Seq::<char>::empty());
    assert(star.last() == '*');
    if t.len() > 0 {
        law_star_matches_any_segment(t.drop_last());
        assert(segment_matches(star, t.drop_last()));
    } else {
        assert(segment_matches(Seq::<char>::empty(), t));
        assert(segment_matches(star.drop_last(), t));
    }
}

/// A `?` segment matches exactly the path segments of one character.
pub proof fn law_question_mark_matches_one_character(t: Seq<char>)
    ensures
        segment_matches(seq!['?'], t) <==> t.len() == 1,
{
    let q = seq!['?'];
    assert(q.drop_last() =~= Seq::<char>::empty());
    assert(q.last() == '?');
    if t.len() > 0 {
        assert(segment_matches(q.drop_last(), t.drop_last()) == (t.drop_last().len() == 0));
    }
}

/// A `**` pattern spans any number of path segments, none included.
pub proof fn law_double_star_spans_any_segments(ts: Seq<Seq<char>>)
    ensures
        segments_match(seq![double_star()], ts),
    decreases ts.len(),
{
    let ps = seq![double_star()];
    assert(ps.drop_last() =~= Seq::<Seq<char>>::empty());
    assert(ps.last() == double_star());
    if ts.len() > 0 {
        law_double_star_spans_any_segments(ts.drop_last());
        assert(segments_match(ps, ts.drop_last()));
    } else {
        assert(segments_match(Seq::<Seq<char>>::empty(), ts));
        assert(segments_match(ps.drop_last(), ts));
    }
}


// ---------------------------------------------------------------------------
// Order of findings and rule-specific directives
// ---------------------------------------------------------------------------

/// The findings are in line order (the limit finding, which has no line, first).
pub open spec fn in_line_order(fs: Seq<Finding>) -> bool {
    forall|i: int, j: int| 0 <= i < j < fs.len() ==> (#[trigger] fs[i]).line_num <= (#[trigger] fs[j]).line_num
}

/// The code of a line once an inline directive at its end is cut off.
pub open spec fn effective_line(line: Seq<char>, prefix: Seq<char>, suffix: Seq<char>) -> Seq<char> {
    match inline_directive(line, prefix, suffix) {
        Some((code, _)) => code,
        None => line,
    }
}

/// The inline directive at the end of a line, if any.
pub open spec fn inline_of(line: Seq<char>, prefix: Seq<char>, suffix: Seq<char>) -> Option<Directive> {
    match inline_directive(line, prefix, suffix) {
        Some((_, d)) => Some(d),
        None => None,
    }
}

/// A step keeps a property of findings that the findings before it, the limit finding, and
/// the findings the stepped line keeps have.
proof fn lemma_step_keeps_kept(
    s: ScanState,
    line: Seq<char>,
    n: int,
    is_markdown: bool,
    bun_frozen_lockfile: bool,
    prefix: Seq<char>,
    suffix: Seq<char>,
    p: spec_fn(Finding) -> bool,
)
    requires
        forall|i: int| 0 <= i < s.found.len() ==> p(#[trigger] s.found[i]),
        p(limit_finding()),
        forall|i: int|
            0 <= i < kept_findings(
                effective_line(line, prefix, suffix),
                n,
                bun_frozen_lockfile,
                s.skip_next,
                inline_of(line, prefix, suffix),
            ).len() ==> p(
                #[trigger] kept_findings(
                    effective_line(line, prefix, suffix),
                    n,
                    bun_frozen_lockfile,
                    s.skip_next,
                    inline_of(line, prefix, suffix),
                )[i],
            ),
    ensures
        forall|i: int|
            0 <= i < step(s, line, n, is_markdown, bun_frozen_lockfile, prefix, suffix).found.len()
                ==> p(#[trigger] step(s, line, n, is_markdown, bun_frozen_lockfile, prefix, suffix).found[i]),
{
    let kept = kept_findings(
        effective_line(line, prefix, suffix),
        n,
        bun_frozen_lockfile,
        s.skip_next,
        inline_of(line, prefix, suffix),
    );
    let all = s.found + kept;
    assert forall|i: int| 0 <= i < all.len() implies p(#[trigger] all[i]) by {
        if i < s.found.len() {
            assert(all[i] == s.found[i]);
        } else {
            assert(all[i] == kept[i - s.found.len()]);
        }
    }
    if all.len() >= MAX_VIOLATIONS_PER_FILE {
        let cut = seq![limit_finding()] + all.take(MAX_VIOLATIONS_PER_FILE as int);
        assert forall|i: int| 0 <= i < cut.len() implies p(#[trigger] cut[i]) by {
            if i > 0 {
                assert(cut[i] == all[i - 1]);
            }
        }
    }
}

proof fn lemma_scan_in_line_order(
    ls: Seq<Seq<char>>,
    n: int,
    is_markdown: bool,
    bun_frozen_lockfile: bool,
    prefix: Seq<char>,
    suffix: Seq<char>,
)
    ensures
        in_line_order(scan(ls, n, is_markdown, bun_frozen_lockfile, prefix, suffix).found),
    decreases n,
{
    if n > 0 {
        lemma_scan_in_line_order(ls, n - 1, is_markdown, bun_frozen_lockfile, prefix, suffix);
        lemma_scan_errors(ls, n - 1, is_markdown, bun_frozen_lockfile, prefix, suffix);
        let s = scan(ls, n - 1, is_markdown, bun_frozen_lockfile, prefix, suffix);
        let line = ls[n - 1];
        let kept = kept_findings(
            effective_line(line, prefix, suffix),
            n,
            bun_frozen_lockfile,
            s.skip_next,
            inline_of(line, prefix, suffix),
        );
        lemma_kept_findings(effective_line(line, prefix, suffix), n, bun_frozen_lockfile, s.skip_next, inline_of(line, prefix, suffix));
        let all = s.found + kept;
        assert(in_line_order(all)) by {
            assert forall|i: int, j: int| 0 <= i < j < all.len() implies (#[trigger] all[i]).line_num <= (#[trigger] all[j]).line_num by {
                if j < s.found.len() {
                    assert(all[i] == s.found[i]);
                    assert(all[j] == s.found[j]);
                } else if i < s.found.len() {
                    assert(all[i] == s.found[i]);
                    assert(all[j] == kept[j - s.found.len()]);
                } else {
                    assert(all[i] == kept[i - s.found.len()]);
                    assert(all[j] == kept[j - s.found.len()]);
                }
            }
        }
        assert forall|i: int| 0 <= i < all.len() implies (#[trigger] all[i]).line_num >= 0 by {
            if i < s.found.len() {
                assert(all[i] == s.found[i]);
            } else {
                assert(all[i] == kept[i - s.found.len()]);
            }
        }
        if all.len() >= MAX_VIOLATIONS_PER_FILE {
            let cut = seq![limit_finding()] + all.take(MAX_VIOLATIONS_PER_FILE as int);
            assert forall|i: int, j: int| 0 <= i < j < cut.len() implies (#[trigger] cut[i]).line_num <= (#[trigger] cut[j]).line_num by {
                assert(cut[j] == all[j - 1]);
                if i > 0 {
                    assert(cut[i] == all[i - 1]);
                }
            }
        }
    }
}

/// The findings of a line-based file are in line order, the limit finding first when the
/// file reached the limit.
pub proof fn law_line_findings_in_line_order(
    content: Seq<char>,
    is_markdown: bool,
    bun_frozen_lockfile: bool,
    prefix: Seq<char>,
    suffix: Seq<char>,
)
    ensures
        in_line_order(line_file_findings(content, is_markdown, bun_frozen_lockfile, prefix, suffix)),
{
    let ls = lines(content);
    lemma_scan_in_line_order(ls, ls.len() as int, is_markdown, bun_frozen_lockfile, prefix, suffix);
}

proof fn lemma_without_rule_drops(fs: Seq<Finding>, rule: Seq<char>)
    ensures
        forall|i: int|
            0 <= i < without_rule(fs, rule).len() ==> (#[trigger] without_rule(fs, rule)[i]).rule_id != Some(rule),
    decreases fs.len(),
{
    if fs.len() > 0 {
        lemma_without_rule_drops(fs.drop_last(), rule);
        let rest = without_rule(fs.drop_last(), rule);
        let w = without_rule(fs, rule);
        assert forall|i: int| 0 <= i < w.len() implies (#[trigger] w[i]).rule_id != Some(rule) by {
            if i < rest.len() {
                assert(w[i] == rest[i]);
            }
        }
    }
}

proof fn lemma_scan_drops_rule(
    ls: Seq<Seq<char>>,
    k: int,
    n: int,
    rule: Seq<char>,
    bun_frozen_lockfile: bool,
    prefix: Seq<char>,
    suffix: Seq<char>,
)
    requires
        0 <= k,
        k + 2 <= n,
        k + 1 < ls.len(),
        inline_directive(ls[k], prefix, suffix) is None,
        line_directive(ls[k], prefix, suffix) == Some(Directive::Specific(rule)),
    ensures
        forall|i: int|
            0 <= i < scan(ls, n, false, bun_frozen_lockfile, prefix, suffix).found.len() ==> {
                let f = #[trigger] scan(ls, n, false, bun_frozen_lockfile, prefix, suffix).found[i];
                !(f.line_num == k + 2 && f.rule_id == Some(rule))
            },
    decreases n,
{
    let p = |f: Finding| !(f.line_num == k + 2 && f.rule_id == Some(rule));
    if n == k + 2 {
        lemma_scan_errors(ls, k, false, bun_frozen_lockfile, prefix, suffix);
        lemma_no_code_block(ls, k, bun_frozen_lockfile, prefix, suffix);
        let s0 = scan(ls, k, false, bun_frozen_lockfile, prefix, suffix);
        let s1 = scan(ls, k + 1, false, bun_frozen_lockfile, prefix, suffix);
        assert(s1 == step(s0, ls[k], k + 1, false, bun_frozen_lockfile, prefix, suffix));
        assert(s1.found == s0.found);
        assert(!s1.stopped ==> s1.skip_next == Some(Directive::Specific(rule)));
        assert forall|i: int| 0 <= i < s1.found.len() implies p(#[trigger] s1.found[i]) by {
            assert(s1.found[i] == s0.found[i]);
        }
        let line = ls[k + 1];
        let eff = effective_line(line, prefix, suffix);
        let inl = inline_of(line, prefix, suffix);
        let fs = line_findings(javascript_kinds(eff, bun_frozen_lockfile), k + 2, eff);
        let q = |f: Finding| f.rule_id != Some(rule);
        lemma_without_rule_drops(fs, rule);
        assert forall|i: int| 0 <= i < without_rule(fs, rule).len() implies q(#[trigger] without_rule(fs, rule)[i]) by {}
        if let Some(Directive::Specific(other)) = inl {
            lemma_without_rule_keeps(without_rule(fs, rule), other, q);
        }
        if s1.stopped {
            assert(step(s1, line, k + 2, false, bun_frozen_lockfile, prefix, suffix) == s1);
        } else {
            let kept = kept_findings(eff, k + 2, bun_frozen_lockfile, s1.skip_next, inl);
            assert forall|i: int| 0 <= i < kept.len() implies p(#[trigger] kept[i]) by {
                assert(q(kept[i]));
            }
            lemma_step_keeps_kept(s1, line, k + 2, false, bun_frozen_lockfile, prefix, suffix, p);
        }
    } else {
        lemma_scan_drops_rule(ls, k, n - 1, rule, bun_frozen_lockfile, prefix, suffix);
        let s = scan(ls, n - 1, false, bun_frozen_lockfile, prefix, suffix);
        assert forall|i: int| 0 <= i < s.found.len() implies p(#[trigger] s.found[i]) by {}
        lemma_step_keeps(s, ls[n - 1], n, false, bun_frozen_lockfile, prefix, suffix, p);
    }
}

/// A directive on a line of its own that ignores one rule suppresses that rule on the next
/// line: no finding of that rule is reported there (for files other than Markdown).
pub proof fn law_rule_directive_drops_its_rule_on_next_line(
    content: Seq<char>,
    k: int,
    rule: Seq<char>,
    bun_frozen_lockfile: bool,
    prefix: Seq<char>,
    suffix: Seq<char>,
)
    requires
        0 <= k,
        k + 1 < lines(content).len(),
        inline_directive(lines(content)[k], prefix, suffix) is None,
        line_directive(lines(content)[k], prefix, suffix) == Some(Directive::Specific(rule)),
    ensures
        forall|i: int|
            0 <= i < line_file_findings(content, false, bun_frozen_lockfile, prefix, suffix).len() ==> {
                let f = #[trigger] line_file_findings(content, false, bun_frozen_lockfile, prefix, suffix)[i];
                !(f.line_num == k + 2 && f.rule_id == Some(rule))
            },
{
    let ls = lines(content);
    lemma_scan_drops_rule(ls, k, ls.len() as int, rule, bun_frozen_lockfile, prefix, suffix);
}

// ---------------------------------------------------------------------------
// Declared workspace members
// ---------------------------------------------------------------------------

/// Pattern `j` is one of those looked at: among the first `MAX_WORKSPACE_PATTERNS`, and no
/// longer than `MAX_WORKSPACE_PATTERN_LENGTH` bytes.
pub open spec fn considered(ps: Seq<Seq<char>>, j: int) -> bool {
    0 <= j < ps.len() && j < MAX_WORKSPACE_PATTERNS && byte_len(ps[j]) <= MAX_WORKSPACE_PATTERN_LENGTH
}

/// Pattern `j` is a negation (`!…`) whose glob matches the member.
pub open spec fn excludes(ps: Seq<Seq<char>>, rel: Seq<char>, j: int) -> bool {
    considered(ps, j) && match strip_prefix(ps[j], seq!['!']) {
        Some(negated) => glob_matches(negated, rel),
        None => false,
    }
}

/// Pattern `j` is a positive pattern whose glob matches the member.
pub open spec fn includes(ps: Seq<Seq<char>>, rel: Seq<char>, j: int) -> bool {
    considered(ps, j) && strip_prefix(ps[j], seq!['!']) is None && glob_matches(ps[j], rel)
}

proof fn lemma_declares_from(ps: Seq<Seq<char>>, rel: Seq<char>, i: int, matched: bool)
    requires
        0 <= i,
    ensures
        declares_from(ps, rel, i, matched) == (!(exists|j: int| i <= j && #[trigger] excludes(ps, rel, j)) && (matched
            || exists|j: int| i <= j && #[trigger] includes(ps, rel, j))),
    decreases ps.len() - i,
{
    if i >= ps.len() || i >= MAX_WORKSPACE_PATTERNS {
        assert(forall|j: int| i <= j ==> !#[trigger] excludes(ps, rel, j));
        assert(forall|j: int| i <= j ==> !#[trigger] includes(ps, rel, j));
    } else {
        let next = if byte_len(ps[i]) > MAX_WORKSPACE_PATTERN_LENGTH {
            matched
        } else {
            match strip_prefix(ps[i], seq!['!']) {
                Some(_) => matched,
                None => matched || glob_matches(ps[i], rel),
            }
        };
        lemma_declares_from(ps, rel, i + 1, next);
        if excludes(ps, rel, i) {
            assert(declares_from(ps, rel, i, matched) == false);
        }
        if includes(ps, rel, i) {
            assert(next);
        }
        if exists|j: int| i + 1 <= j && #[trigger] excludes(ps, rel, j) {
            let j = choose|j: int| i + 1 <= j && #[trigger] excludes(ps, rel, j);
            assert(i <= j && excludes(ps, rel, j));
        }
        if exists|j: int| i + 1 <= j && #[trigger] includes(ps, rel, j) {
            let j = choose|j: int| i + 1 <= j && #[trigger] includes(ps, rel, j);
            assert(i <= j && includes(ps, rel, j));
        }
        if exists|j: int| i <= j && #[trigger] excludes(ps, rel, j) {
            let j = choose|j: int| i <= j && #[trigger] excludes(ps, rel, j);
            if j > i {
                assert(i + 1 <= j && excludes(ps, rel, j));
            }
        }
        if exists|j: int| i <= j && #[trigger] includes(ps, rel, j) {
            let j = choose|j: int| i <= j && #[trigger] includes(ps, rel, j);
            if j > i {
                assert(i + 1 <= j && includes(ps, rel, j));
            }
        }
    }
}

/// A workspace declares a member exactly when one of its positive patterns matches the
/// member's path and none of its negated (`!`) patterns does, among the patterns looked at.
pub proof fn law_declared_members(patterns: Seq<Seq<char>>, member_rel: Seq<char>)
    ensures
        declares(patterns, member_rel) == ((exists|j: int| #[trigger] includes(patterns, normalized_member(member_rel), j))
            && !(exists|j: int| #[trigger] excludes(patterns, normalized_member(member_rel), j))),
{
    let rel = normalized_member(member_rel);
    lemma_declares_from(patterns, rel, 0, false);
    if exists|j: int| #[trigger] includes(patterns, rel, j) {
        let j = choose|j: int| #[trigger] includes(patterns, rel, j);
        assert(0 <= j && includes(patterns, rel, j));
    }
    if exists|j: int| #[trigger] excludes(patterns, rel, j) {
        let j = choose|j: int| #[trigger] excludes(patterns, rel, j);
        assert(0 <= j && excludes(patterns, rel, j));
    }
}

// ---------------------------------------------------------------------------
// The bun configuration
// ---------------------------------------------------------------------------

/// Line `i` of a `bunfig.toml` as read: its text before `#`, trimmed.
pub open spec fn bunfig_line(ls: Seq<Seq<char>>, i: int) -> Seq<char> {
    trim(before_hash(ls[i]))
}

/// A section header such as `[install]`.
pub open spec fn is_section_header(line: Seq<char>) -> bool {
    starts_with(line, "["@) && ends_with(line, "]"@)
}

/// Line `i` lies in the `[install]` section: the last section header above it is
/// `[install]`.
pub open spec fn in_install_section(ls: Seq<Seq<char>>, i: int) -> bool {
    exists|h: int|
        0 <= h < i && bunfig_line(ls, h) == "[install]"@ && (forall|k: int|
            h < k < i ==> !#[trigger] is_section_header(bunfig_line(ls, k)))
}

/// Line `i` sets the key `frozenLockfile` in the `[install]` section.
pub open spec fn sets_frozen_lockfile(ls: Seq<Seq<char>>, i: int) -> bool {
    &&& 0 <= i < ls.len()
    &&& in_install_section(ls, i)
    &&& !is_section_header(bunfig_line(ls, i))
    &&& match split_once(bunfig_line(ls, i), '=') {
        Some((key, _)) => trim(key) == "frozenLockfile"@,
        None => false,
    }
}

/// The value that line `i` gives its key is `true`.
pub open spec fn sets_true(ls: Seq<Seq<char>>, i: int) -> bool {
    match split_once(bunfig_line(ls, i), '=') {
        Some((_, value)) => trim(value) == "true"@,
        None => false,
    }
}

/// From line `i` on, the first line that sets `frozenLockfile` in `[install]` sets it to
/// `true`.
pub open spec fn first_setting_true_from(ls: Seq<Seq<char>>, i: int) -> bool {
    exists|m: int|
        #![trigger sets_frozen_lockfile(ls, m)]
        i <= m && sets_frozen_lockfile(ls, m) && sets_true(ls, m) && (forall|j: int|
            i <= j < m ==> !#[trigger] sets_frozen_lockfile(ls, j))
}

proof fn lemma_install_section_after(ls: Seq<Seq<char>>, i: int)
    requires
        0 <= i < ls.len(),
    ensures
        !is_section_header(bunfig_line(ls, i)) ==> in_install_section(ls, i + 1) == in_install_section(ls, i),
        is_section_header(bunfig_line(ls, i)) ==> in_install_section(ls, i + 1) == (bunfig_line(ls, i) == "[install]"@),
{
    if is_section_header(bunfig_line(ls, i)) {
        if bunfig_line(ls, i) == "[install]"@ {
            assert(forall|k: int| i < k < i + 1 ==> !#[trigger] is_section_header(bunfig_line(ls, k)));
        }
        if in_install_section(ls, i + 1) {
            let h = choose|h: int|
                0 <= h < i + 1 && bunfig_line(ls, h) == "[install]"@ && (forall|k: int|
                    h < k < i + 1 ==> !#[trigger] is_section_header(bunfig_line(ls, k)));
            if h < i {
                assert(!is_section_header(bunfig_line(ls, i)));
            }
        }
    } else {
        if in_install_section(ls, i) {
            let h = choose|h: int|
                0 <= h < i && bunfig_line(ls, h) == "[install]"@ && (forall|k: int|
                    h < k < i ==> !#[trigger] is_section_header(bunfig_line(ls, k)));
            assert forall|k: int| h < k < i + 1 implies !#[trigger] is_section_header(bunfig_line(ls, k)) by {
                if k < i {
                }
            }
        }
        if in_install_section(ls, i + 1) {
            let h = choose|h: int|
                0 <= h < i + 1 && bunfig_line(ls, h) == "[install]"@ && (forall|k: int|
                    h < k < i + 1 ==> !#[trigger] is_section_header(bunfig_line(ls, k)));
            if h == i {
                assert(is_section_header("[install]"@)) by {
                    reveal_strlit("[install]");
                    reveal_strlit("[");
                    reveal_strlit("]");
                    assert("[install]"@.take(1) =~= "["@);
                    assert("[install]"@.skip(8) =~= "]"@);
                }
            }
            assert forall|k: int| h < k < i implies !#[trigger] is_section_header(bunfig_line(ls, k)) by {
                assert(h < k < i + 1);
            }
        }
    }
}

proof fn lemma_first_setting_skips(ls: Seq<Seq<char>>, i: int)
    requires
        0 <= i < ls.len(),
        !sets_frozen_lockfile(ls, i),
    ensures
        first_setting_true_from(ls, i) == first_setting_true_from(ls, i + 1),
{
    if first_setting_true_from(ls, i) {
        let m = choose|m: int|
            #![trigger sets_frozen_lockfile(ls, m)]
            i <= m && sets_frozen_lockfile(ls, m) && sets_true(ls, m) && (forall|j: int|
                i <= j < m ==> !#[trigger] sets_frozen_lockfile(ls, j));
        assert(m != i);
        assert forall|j: int| i + 1 <= j < m implies !#[trigger] sets_frozen_lockfile(ls, j) by {
            assert(i <= j < m);
        }
        assert(i + 1 <= m && sets_frozen_lockfile(ls, m));
    }
    if first_setting_true_from(ls, i + 1) {
        let m = choose|m: int|
            #![trigger sets_frozen_lockfile(ls, m)]
            i + 1 <= m && sets_frozen_lockfile(ls, m) && sets_true(ls, m) && (forall|j: int|
                i + 1 <= j < m ==> !#[trigger] sets_frozen_lockfile(ls, j));
        assert forall|j: int| i <= j < m implies !#[trigger] sets_frozen_lockfile(ls, j) by {
            if j > i {
                assert(i + 1 <= j < m);
            }
        }
        assert(i <= m && sets_frozen_lockfile(ls, m));
    }
}

proof fn lemma_frozen_lockfile_from(ls: Seq<Seq<char>>, i: int)
    requires
        0 <= i <= ls.len(),
    ensures
        frozen_lockfile_from(ls, i, in_install_section(ls, i)) == first_setting_true_from(ls, i),
    decreases ls.len() - i,
{
    if i == ls.len() {
        if first_setting_true_from(ls, i) {
            let m = choose|m: int|
                #![trigger sets_frozen_lockfile(ls, m)]
                i <= m && sets_frozen_lockfile(ls, m) && sets_true(ls, m) && (forall|j: int|
                    i <= j < m ==> !#[trigger] sets_frozen_lockfile(ls, j));
        }
    } else {
        lemma_install_section_after(ls, i);
        lemma_frozen_lockfile_from(ls, i + 1);
        let line = bunfig_line(ls, i);
        let in_install = in_install_section(ls, i);
        assert(line == trim(before_hash(ls[i])));
        if line.len() == 0 {
            assert(!is_section_header(line)) by {
                reveal_strlit("[");
            }
            assert(split_once(line, '=') is None);
            lemma_first_setting_skips(ls, i);
        } else if starts_with(line, "["@) && ends_with(line, "]"@) {
            lemma_first_setting_skips(ls, i);
        } else if !in_install {
            lemma_first_setting_skips(ls, i);
        } else {
            match split_once(line, '=') {
                Some((key, value)) => {
                    if trim(key) == "frozenLockfile"@ {
                        assert(sets_frozen_lockfile(ls, i));
                        if first_setting_true_from(ls, i) {
                            let m = choose|m: int|
                                #![trigger sets_frozen_lockfile(ls, m)]
                                i <= m && sets_frozen_lockfile(ls, m) && sets_true(ls, m) && (forall|j: int|
                                    i <= j < m ==> !#[trigger] sets_frozen_lockfile(ls, j));
                            assert(m == i);
                        }
                        if sets_true(ls, i) {
                            assert(forall|j: int| i <= j < i ==> !#[trigger] sets_frozen_lockfile(ls, j));
                            assert(first_setting_true_from(ls, i));
                        }
                    } else {
                        lemma_first_setting_skips(ls, i);
                    }
                },
                None => {
                    lemma_first_setting_skips(ls, i);
                },
            }
        }
    }
}

/// A `bunfig.toml` freezes the lockfile exactly when the first line that sets
/// `frozenLockfile` within the `[install]` section sets it to `true`.
pub proof fn law_first_frozen_lockfile_setting_decides(content: Seq<char>)
    ensures
        bunfig_frozen(content) == first_setting_true_from(lines(content), 0),
{
    let ls = lines(content);
    lemma_frozen_lockfile_from(ls, 0);
    assert(!in_install_section(ls, 0));
}

// ---------------------------------------------------------------------------
// The pnpm workspace file
// ---------------------------------------------------------------------------

/// Line `i` of a `pnpm-workspace.yaml` is blank or a comment.
pub open spec fn yaml_skipped(ls: Seq<Seq<char>>, i: int) -> bool {
    trim(ls[i]).len() == 0 || starts_with(trim(ls[i]), seq!['#'])
}

/// Line `i` is a list item (`- …`).
pub open spec fn yaml_item(ls: Seq<Seq<char>>, i: int) -> bool {
    !yaml_skipped(ls, i) && starts_with(trim(ls[i]), seq!['-'])
}

/// Line `i` starts with white space.
pub open spec fn yaml_indented(ls: Seq<Seq<char>>, i: int) -> bool {
    ls[i].len() > 0 && is_space(ls[i][0])
}

/// Line `i` is the top-level key `packages:`.
pub open spec fn yaml_packages_key(ls: Seq<Seq<char>>, i: int) -> bool {
    !yaml_indented(ls, i) && trim(ls[i]) == "packages:"@
}

/// Line `i` does not end a `packages:` block: it is blank, a comment, a list item or
/// indented.
pub open spec fn yaml_stays_in_block(ls: Seq<Seq<char>>, i: int) -> bool {
    yaml_skipped(ls, i) || yaml_item(ls, i) || yaml_indented(ls, i)
}

/// Line `i` lies in the `packages:` block: some line above it is the key `packages:`, and
/// every line between them stays in the block.
pub open spec fn in_packages_block(ls: Seq<Seq<char>>, i: int) -> bool {
    exists|h: int|
        #![trigger yaml_packages_key(ls, h)]
        0 <= h < i && yaml_packages_key(ls, h) && (forall|k: int| h < k < i ==> #[trigger] yaml_stays_in_block(ls, k))
}

/// The pattern a list item names: the item's text, trimmed and unquoted.
pub open spec fn item_pattern(ls: Seq<Seq<char>>, i: int) -> Seq<char> {
    unquoted(trim(trim(ls[i]).skip(1)))
}

/// The patterns of the list items in the `packages:` block among the first `k` lines, in
/// order, leaving out those longer than `MAX_WORKSPACE_PATTERN_LENGTH` bytes.
pub open spec fn block_patterns(ls: Seq<Seq<char>>, k: int) -> Seq<Seq<char>>
    decreases k,
{
    if k <= 0 {
        Seq::empty()
    } else {
        let before = block_patterns(ls, k - 1);
        if in_packages_block(ls, k - 1) && yaml_item(ls, k - 1)
            && byte_len(item_pattern(ls, k - 1)) <= MAX_WORKSPACE_PATTERN_LENGTH {
            before.push(item_pattern(ls, k - 1))
        } else {
            before
        }
    }
}

/// At most the first `MAX_WORKSPACE_PATTERNS` of `s`.
pub open spec fn first_patterns(s: Seq<Seq<char>>) -> Seq<Seq<char>> {
    if s.len() <= MAX_WORKSPACE_PATTERNS {
        s
    } else {
        s.take(MAX_WORKSPACE_PATTERNS as int)
    }
}

proof fn lemma_packages_key_line(ls: Seq<Seq<char>>, i: int)
    requires
        0 <= i < ls.len(),
        yaml_packages_key(ls, i),
    ensures
        !yaml_stays_in_block(ls, i),
{
    reveal_strlit("packages:");
    assert(trim(ls[i]).take(1) != seq!['#']) by {
        assert(trim(ls[i]).take(1)[0] == 'p');
    }
    assert(trim(ls[i]).take(1) != seq!['-']) by {
        assert(trim(ls[i]).take(1)[0] == 'p');
    }
}

proof fn lemma_packages_block_step(ls: Seq<Seq<char>>, i: int)
    requires
        0 <= i < ls.len(),
    ensures
        yaml_skipped(ls, i) ==> in_packages_block(ls, i + 1) == in_packages_block(ls, i),
        !yaml_skipped(ls, i) ==> in_packages_block(ls, i + 1) == ((in_packages_block(ls, i) && (yaml_item(ls, i)
            || yaml_indented(ls, i))) || yaml_packages_key(ls, i)),
{
    if yaml_packages_key(ls, i) {
        lemma_packages_key_line(ls, i);
        assert(forall|k: int| i < k < i + 1 ==> #[trigger] yaml_stays_in_block(ls, k));
        assert(in_packages_block(ls, i + 1));
    }
    if in_packages_block(ls, i) && yaml_stays_in_block(ls, i) {
        let h = choose|h: int|
            #![trigger yaml_packages_key(ls, h)]
            0 <= h < i && yaml_packages_key(ls, h) && (forall|k: int| h < k < i ==> #[trigger] yaml_stays_in_block(ls, k));
        assert forall|k: int| h < k < i + 1 implies #[trigger] yaml_stays_in_block(ls, k) by {
            if k < i {
            }
        }
        assert(in_packages_block(ls, i + 1));
    }
    if in_packages_block(ls, i + 1) {
        let h = choose|h: int|
            #![trigger yaml_packages_key(ls, h)]
            0 <= h < i + 1 && yaml_packages_key(ls, h) && (forall|k: int|
                h < k < i + 1 ==> #[trigger] yaml_stays_in_block(ls, k));
        if h < i {
            assert(yaml_stays_in_block(ls, i));
            assert forall|k: int| h < k < i implies #[trigger] yaml_stays_in_block(ls, k) by {
                assert(h < k < i + 1);
            }
            assert(in_packages_block(ls, i));
        } else {
            assert(yaml_packages_key(ls, i));
            lemma_packages_key_line(ls, i);
        }
    }
}

proof fn lemma_pnpm_patterns_upto(ls: Seq<Seq<char>>, k: int)
    requires
        0 <= k <= ls.len(),
    ensures
        pnpm_patterns_upto(ls, k) == (in_packages_block(ls, k), first_patterns(block_patterns(ls, k))),
    decreases k,
{
    if k == 0 {
        assert(!in_packages_block(ls, 0));
    } else {
        lemma_pnpm_patterns_upto(ls, k - 1);
        lemma_packages_block_step(ls, k - 1);
        let i = k - 1;
        let before = block_patterns(ls, i);
        if in_packages_block(ls, i) && yaml_item(ls, i) && byte_len(item_pattern(ls, i)) <= MAX_WORKSPACE_PATTERN_LENGTH {
            let p = item_pattern(ls, i);
            if before.len() < MAX_WORKSPACE_PATTERNS {
                assert(first_patterns(before.push(p)) =~= first_patterns(before).push(p));
            } else {
                assert(first_patterns(before.push(p)) =~= first_patterns(before));
            }
        }
    }
}

/// The patterns of a `pnpm-workspace.yaml` are those of the list items in its top-level
/// `packages:` block, in order: items longer than `MAX_WORKSPACE_PATTERN_LENGTH` bytes are
/// left out, and at most the first `MAX_WORKSPACE_PATTERNS` are kept. The block runs from
/// the key to the first line that is not blank, a comment, a list item or indented.
pub proof fn law_pnpm_patterns_are_the_packages_block(content: Seq<char>)
    ensures
        pnpm_patterns(content) == first_patterns(block_patterns(lines(content), lines(content).len() as int)),
{
    lemma_pnpm_patterns_upto(lines(content), lines(content).len() as int);
}

// ---------------------------------------------------------------------------
// The findings of a line-based file, line by line
// ---------------------------------------------------------------------------

/// Line `line` is a directive on a line of its own.
pub open spec fn directive_line(line: Seq<char>, prefix: Seq<char>, suffix: Seq<char>) -> bool {
    inline_directive(line, prefix, suffix) is None && line_directive(line, prefix, suffix) is Some
}

/// The directive in force for line `i` from the line above it: that line's directive when
/// it is a directive on a line of its own.
pub open spec fn directive_above(ls: Seq<Seq<char>>, i: int, prefix: Seq<char>, suffix: Seq<char>) -> Option<Directive> {
    if i > 0 && directive_line(ls[i - 1], prefix, suffix) {
        line_directive(ls[i - 1], prefix, suffix)
    } else {
        None
    }
}

/// What line `i` (numbered `i + 1`) of a file other than Markdown reports: nothing for a
/// directive line, a comment or a placeholder, or when its own directive or the one above
/// ignores every rule; otherwise its findings without those of a rule that either
/// directive names.
pub open spec fn line_report(
    ls: Seq<Seq<char>>,
    i: int,
    bun_frozen_lockfile: bool,
    prefix: Seq<char>,
    suffix: Seq<char>,
) -> Seq<Finding> {
    let line = ls[i];
    let effective = effective_line(line, prefix, suffix);
    let above = directive_above(ls, i, prefix, suffix);
    let own = inline_of(line, prefix, suffix);
    if directive_line(line, prefix, suffix) || is_all(above) || is_all(own) || comment_or_placeholder(effective) {
        Seq::empty()
    } else {
        kept_findings(effective, i + 1, bun_frozen_lockfile, above, own)
    }
}

/// What the first `k` lines report, one line after the other.
pub open spec fn lines_report(
    ls: Seq<Seq<char>>,
    k: int,
    bun_frozen_lockfile: bool,
    prefix: Seq<char>,
    suffix: Seq<char>,
) -> Seq<Finding>
    decreases k,
{
    if k <= 0 {
        Seq::empty()
    } else {
        lines_report(ls, k - 1, bun_frozen_lockfile, prefix, suffix) + line_report(
            ls,
            k - 1,
            bun_frozen_lockfile,
            prefix,
            suffix,
        )
    }
}

/// The findings kept of `fs`: all of them below the limit; at the limit, the limit finding
/// and the first `MAX_VIOLATIONS_PER_FILE`.
pub open spec fn kept_up_to_limit(fs: Seq<Finding>) -> Seq<Finding> {
    if fs.len() < MAX_VIOLATIONS_PER_FILE {
        fs
    } else {
        seq![limit_finding()] + fs.take(MAX_VIOLATIONS_PER_FILE as int)
    }
}

proof fn lemma_lines_report_grows(
    ls: Seq<Seq<char>>,
    j: int,
    k: int,
    bun_frozen_lockfile: bool,
    prefix: Seq<char>,
    suffix: Seq<char>,
)
    requires
        0 <= j <= k,
    ensures
        lines_report(ls, j, bun_frozen_lockfile, prefix, suffix).len() <= lines_report(ls, k, bun_frozen_lockfile, prefix, suffix).len(),
        lines_report(ls, k, bun_frozen_lockfile, prefix, suffix).take(
            lines_report(ls, j, bun_frozen_lockfile, prefix, suffix).len() as int,
        ) == lines_report(ls, j, bun_frozen_lockfile, prefix, suffix),
    decreases k - j,
{
    if j < k {
        lemma_lines_report_grows(ls, j, k - 1, bun_frozen_lockfile, prefix, suffix);
        let a = lines_report(ls, j, bun_frozen_lockfile, prefix, suffix);
        let b = lines_report(ls, k - 1, bun_frozen_lockfile, prefix, suffix);
        let c = lines_report(ls, k, bun_frozen_lockfile, prefix, suffix);
        assert(c == b + line_report(ls, k - 1, bun_frozen_lockfile, prefix, suffix));
        assert(c.take(a.len() as int) =~= b.take(a.len() as int));
    } else {
        let a = lines_report(ls, j, bun_frozen_lockfile, prefix, suffix);
        assert(a.take(a.len() as int) =~= a);
    }
}

proof fn lemma_scan_line_by_line(
    ls: Seq<Seq<char>>,
    k: int,
    bun_frozen_lockfile: bool,
    prefix: Seq<char>,
    suffix: Seq<char>,
)
    requires
        0 <= k <= ls.len(),
    ensures
        ({
            let s = scan(ls, k, false, bun_frozen_lockfile, prefix, suffix);
            let r = lines_report(ls, k, bun_frozen_lockfile, prefix, suffix);
            &&& !s.in_code_block
            &&& s.found == kept_up_to_limit(r)
            &&& s.stopped == (r.len() >= MAX_VIOLATIONS_PER_FILE)
            &&& !s.stopped ==> s.skip_next == directive_above(ls, k, prefix, suffix)
        }),
    decreases k,
{
    if k > 0 {
        lemma_scan_line_by_line(ls, k - 1, bun_frozen_lockfile, prefix, suffix);
        let s0 = scan(ls, k - 1, false, bun_frozen_lockfile, prefix, suffix);
        let r0 = lines_report(ls, k - 1, bun_frozen_lockfile, prefix, suffix);
        let r = lines_report(ls, k, bun_frozen_lockfile, prefix, suffix);
        let more = line_report(ls, k - 1, bun_frozen_lockfile, prefix, suffix);
        assert(r == r0 + more);
        if s0.stopped {
            lemma_lines_report_grows(ls, k - 1, k, bun_frozen_lockfile, prefix, suffix);
            assert(r.take(MAX_VIOLATIONS_PER_FILE as int) =~= r0.take(MAX_VIOLATIONS_PER_FILE as int)) by {
                assert(r.take(r0.len() as int) == r0);
                assert forall|x: int| 0 <= x < MAX_VIOLATIONS_PER_FILE implies r[x] == r0[x] by {
                    assert(r.take(r0.len() as int)[x] == r[x]);
                }
            }
        } else {
            let line = ls[k - 1];
            let effective = effective_line(line, prefix, suffix);
            let own = inline_of(line, prefix, suffix);
            if inline_directive(line, prefix, suffix) is None && line_directive(effective, prefix, suffix) is Some {
                assert(directive_line(line, prefix, suffix));
                assert(more =~= Seq::<Finding>::empty());
                assert(r =~= r0);
            } else {
                assert(!directive_line(line, prefix, suffix));
                if is_all(s0.skip_next) || is_all(own) || comment_or_placeholder(effective) {
                    assert(more =~= Seq::<Finding>::empty());
                    assert(r =~= r0);
                } else {
                    assert(more == kept_findings(effective, k, bun_frozen_lockfile, s0.skip_next, own));
                    assert(bounded_append(s0.found, more).0 == kept_up_to_limit(r));
                }
            }
        }
    }
}

/// The findings of a file other than Markdown are those of its lines, one after the
/// other (see `line_report`); when they reach the limit, the limit finding comes first and
/// only the first `MAX_VIOLATIONS_PER_FILE` of them are kept.
pub proof fn law_line_file_findings_line_by_line(content: Seq<char>, bun_frozen_lockfile: bool, prefix: Seq<char>, suffix: Seq<char>)
    ensures
        line_file_findings(content, false, bun_frozen_lockfile, prefix, suffix) == kept_up_to_limit(
            lines_report(lines(content), lines(content).len() as int, bun_frozen_lockfile, prefix, suffix),
        ),
{
    lemma_scan_line_by_line(lines(content), lines(content).len() as int, bun_frozen_lockfile, prefix, suffix);
}

// ---------------------------------------------------------------------------
// The exit code of a run
// ---------------------------------------------------------------------------

/// How a run shows its findings (`--quiet`, `--no-summary`, `--format`) and which path it
/// names never change its exit code: of the options, only `--max-warnings` and
/// `--fail-on` do.
pub proof fn law_output_options_keep_exit_code(result: LintResult, a: Options, b: Options)
    requires
        a.max_warnings == b.max_warnings,
        a.fail_on == b.fail_on,
    ensures
        run_exit(result, a) == run_exit(result, b),
{
}

/// A run fails exactly when it found an error or more warnings than the threshold; with
/// neither `--max-warnings` nor `--fail-on warning`, warnings alone never fail it.
pub proof fn law_run_fails_on_errors_or_too_many_warnings(result: LintResult, options: Options)
    ensures
        run_exit(result, options) == if result.violations_found > 0 || (threshold(options.max_warnings, options.fail_on) matches Some(max)
            && result.warnings_found > max) {
            EXIT_FINDINGS
        } else {
            EXIT_SUCCESS
        },
        options.max_warnings is None && options.fail_on == FailLevel::Error ==> run_exit(result, options) == if result.violations_found
            > 0 {
            EXIT_FINDINGS
        } else {
            EXIT_SUCCESS
        },
{
}

// ---------------------------------------------------------------------------
// Comments, workspace tables, code fences, skipped directories and option forms
// ---------------------------------------------------------------------------

/// The number of white-space characters that `s` starts with.
pub open spec fn leading_white_space(s: Seq<char>) -> nat
    decreases s.len(),
{
    if s.len() > 0 && is_space(s[0]) {
        1 + leading_white_space(s.drop_first())
    } else {
        0
    }
}

proof fn lemma_leading_white_space(s: Seq<char>)
    ensures
        leading_white_space(s) <= s.len(),
        crate::text::trim_start(s) == s.skip(leading_white_space(s) as int),
        forall|j: int| 0 <= j < leading_white_space(s) ==> is_space(#[trigger] s[j]),
        leading_white_space(s) < s.len() ==> !is_space(s[leading_white_space(s) as int]),
    decreases s.len(),
{
    if s.len() > 0 && is_space(s[0]) {
        let t = s.drop_first();
        lemma_leading_white_space(t);
        assert(s.skip(leading_white_space(s) as int) =~= t.skip(leading_white_space(t) as int));
        assert forall|j: int| 0 <= j < leading_white_space(s) implies is_space(#[trigger] s[j]) by {
            if j > 0 {
                assert(s[j] == t[j - 1]);
            }
        }
        if leading_white_space(s) < s.len() {
            assert(s[leading_white_space(s) as int] == t[leading_white_space(t) as int]);
        }
    } else {
        assert(s.skip(0) =~= s);
    }
}

proof fn lemma_trim_end_keeps_first(s: Seq<char>)
    requires
        s.len() > 0,
        !is_space(s[0]),
    ensures
        crate::text::trim_end(s).len() > 0,
        crate::text::trim_end(s)[0] == s[0],
    decreases s.len(),
{
    if is_space(s.last()) {
        assert(s.len() > 1);
        assert(s.drop_last()[0] == s[0]);
        lemma_trim_end_keeps_first(s.drop_last());
    }
}

proof fn lemma_trim_start_after_white_space(w: Seq<char>, s: Seq<char>)
    requires
        forall|j: int| 0 <= j < w.len() ==> is_space(#[trigger] w[j]),
    ensures
        crate::text::trim_start(w + s) == crate::text::trim_start(s),
    decreases w.len(),
{
    if w.len() > 0 {
        assert((w + s)[0] == w[0]);
        assert((w + s).drop_first() =~= w.drop_first() + s);
        assert forall|j: int| 0 <= j < w.drop_first().len() implies is_space(#[trigger] w.drop_first()[j]) by {
            assert(w.drop_first()[j] == w[j + 1]);
        }
        lemma_trim_start_after_white_space(w.drop_first(), s);
    } else {
        assert(w + s =~= s);
    }
}

/// The first character of the trimmed text is the first character that is not white
/// space.
proof fn lemma_trim_first(s: Seq<char>)
    requires
        trim(s).len() > 0,
    ensures
        leading_white_space(s) < s.len(),
        trim(s)[0] == s[leading_white_space(s) as int],
{
    lemma_leading_white_space(s);
    let k = leading_white_space(s) as int;
    if k == s.len() {
        assert(s.skip(k).len() == 0);
        assert(crate::text::trim_end(s.skip(k)) == s.skip(k));
    }
    assert(s.skip(k)[0] == s[k]);
    lemma_trim_end_keeps_first(s.skip(k));
}

/// White space before a line never changes whether it is a comment or a placeholder.
pub proof fn law_leading_white_space_keeps_comments(w: Seq<char>, s: Seq<char>)
    requires
        forall|j: int| 0 <= j < w.len() ==> is_space(#[trigger] w[j]),
    ensures
        comment_or_placeholder(w + s) == comment_or_placeholder(s),
{
    lemma_trim_start_after_white_space(w, s);
}

/// A line whose first character other than white space is `#` is a comment, however far
/// it is indented.
pub proof fn law_hash_lines_are_comments(w: Seq<char>, s: Seq<char>)
    requires
        forall|j: int| 0 <= j < w.len() ==> is_space(#[trigger] w[j]),
        s.len() > 0,
        s[0] == '#',
    ensures
        comment_or_placeholder(w + s),
{
    lemma_trim_start_after_white_space(w, s);
    assert(!is_space('#'));
    assert(crate::text::trim_start(s) == s);
    lemma_trim_end_keeps_first(s);
    crate::parsers::line::lemma_starts_with_char(trim(s), '#');
}

/// A line whose first character other than white space is `#` reports nothing, with the
/// `#` comment style, or with any style when no inline directive ends the line.
pub proof fn law_hash_lines_report_nothing(
    ls: Seq<Seq<char>>,
    i: int,
    bun_frozen_lockfile: bool,
    prefix: Seq<char>,
    suffix: Seq<char>,
)
    requires
        0 <= i < ls.len(),
        trim(ls[i]).len() > 0,
        trim(ls[i])[0] == '#',
        prefix == "#"@ || inline_directive(ls[i], prefix, suffix) is None,
    ensures
        line_report(ls, i, bun_frozen_lockfile, prefix, suffix) == Seq::<Finding>::empty(),
{
    let line = ls[i];
    reveal_strlit("#");
    crate::parsers::line::lemma_starts_with_char(trim(line), '#');
    if prefix == "#"@ {
        assert(prefix =~= seq!['#']);
        assert(inline_directive(line, prefix, suffix) is None);
    }
    assert(effective_line(line, prefix, suffix) == line);
    assert(comment_or_placeholder(line));
}

/// A `Cargo.toml` with a line that starts (after white space) with `[workspace]` declares a
/// workspace, wherever that line stands: after `[package]` or any other table too.
pub proof fn law_workspace_table_anywhere(t: Seq<char>, i: int)
    requires
        0 <= i < lines(t).len(),
        starts_with(crate::text::trim_start(lines(t)[i]), "[workspace]"@),
    ensures
        crate::scanner::cargo_workspace(Some(t)),
{
    assert(0 <= i < lines(t).len() && starts_with(crate::text::trim_start(lines(t)[i]), "[workspace]"@));
}

proof fn lemma_word_is_its_own_trim(w: Seq<char>)
    requires
        w.len() > 0,
        forall|j: int| 0 <= j < w.len() ==> !is_space(#[trigger] w[j]),
    ensures
        trim(w) == w,
        crate::parsers::markdown::first_word(w) == w,
    decreases w.len(),
{
    assert(crate::text::trim_start(w) == w);
    assert(!is_space(w.last()));
    assert(crate::text::trim_end(w) == w);
    if w.len() > 1 {
        assert forall|j: int| 0 <= j < w.drop_first().len() implies !is_space(#[trigger] w.drop_first()[j]) by {
            assert(w.drop_first()[j] == w[j + 1]);
        }
        lemma_word_is_its_own_trim(w.drop_first());
    } else {
        assert(crate::parsers::markdown::first_word(w.drop_first()) == Seq::<char>::empty());
    }
    assert(seq![w[0]] + w.drop_first() =~= w);
}

/// A fence `` ```word `` opens a linted code block exactly when the word is `bash`, `sh`,
/// `shell`, `zsh`, `console` or `terminal`.
pub proof fn law_shell_fences_are_linted(w: Seq<char>)
    requires
        w.len() > 0,
        forall|j: int| 0 <= j < w.len() ==> !is_space(#[trigger] w[j]),
        w[0] != '`',
    ensures
        crate::parsers::markdown::lints_code_block("```"@ + w) == (w == "bash"@ || w == "sh"@ || w == "shell"@ || w
            == "zsh"@ || w == "console"@ || w == "terminal"@),
{
    reveal_strlit("```");
    let f = "```"@ + w;
    assert forall|j: int| 0 <= j < f.len() implies !is_space(#[trigger] f[j]) by {
        if j < 3 {
            assert(f[j] == '`');
        } else {
            assert(f[j] == w[j - 3]);
        }
    }
    lemma_word_is_its_own_trim(f);
    assert(f.take(3) =~= "```"@);
    assert(f.skip(3) =~= w);
    if w.len() >= 3 {
        assert(w.take(3)[0] != "```"@[0]);
    }
    assert(!starts_with(w, "```"@));
    assert(crate::parsers::markdown::strip_leading_repeats(w, "```"@) == w);
    assert(crate::parsers::markdown::strip_leading_repeats(f, "```"@) == w);
    lemma_word_is_its_own_trim(w);
    assert(crate::parsers::markdown::fence_info(f) == w);
}

/// A path through a directory named in the documented list (`node_modules`, `.git`,
/// `target`, `dist`, `build`, `coverage`, `vendor`, `.next`, `.nuxt`, `.turbo`, `.cache`)
/// is skipped, wherever that directory stands.
pub proof fn law_listed_directories_are_skipped(path: Seq<char>, i: int)
    requires
        0 <= i < crate::paths::components(path).len(),
        ({
            let c = crate::paths::components(path)[i];
            ||| c == "node_modules"@
            ||| c == ".git"@
            ||| c == "target"@
            ||| c == "dist"@
            ||| c == "build"@
            ||| c == "coverage"@
            ||| c == "vendor"@
            ||| c == ".next"@
            ||| c == ".nuxt"@
            ||| c == ".turbo"@
            ||| c == ".cache"@
        }),
    ensures
        crate::file_types::excluded(path),
{
    assert(crate::file_types::excluded_name(crate::paths::components(path)[i]));
}

/// What the command line says from `args[j]` on depends only on those arguments.
proof fn lemma_parse_from_reads_ahead(a: Seq<Seq<char>>, b: Seq<Seq<char>>, j: int, st: crate::cli::Settings)
    requires
        0 <= j,
        a.len() == b.len(),
        forall|k: int| j <= k < a.len() ==> a[k] == b[k],
    ensures
        crate::cli::parse_from(a, j, st) == crate::cli::parse_from(b, j, st),
    decreases a.len() - j, 1int,
{
    if j < a.len() {
        let arg = a[j];
        assert(a[j] == b[j]);
        if j + 1 < a.len() {
            assert(a[j + 1] == b[j + 1]);
        }
        if arg == "-h"@ || arg == "--help"@ || arg == "-V"@ || arg == "--version"@ {
        } else if arg == "-q"@ || arg == "--quiet"@ {
            lemma_parse_from_reads_ahead_at(a, b, j, j + 1, crate::cli::Settings { quiet: true, ..st });
        } else if arg == "--no-summary"@ {
            lemma_parse_from_reads_ahead_at(a, b, j, j + 1, crate::cli::Settings { no_summary: true, ..st });
        } else if crate::cli::flag_at(arg, "--max-warnings"@) {
            assert(crate::cli::flag_value(a, j, "--max-warnings"@) == crate::cli::flag_value(b, j, "--max-warnings"@));
            match crate::cli::flag_value(a, j, "--max-warnings"@) {
                Some((v, next)) => match crate::cli::parsed_usize(v) {
                    Some(n) => lemma_parse_from_reads_ahead_at(a, b, j, next, crate::cli::Settings { max_warnings: Some(n), ..st }),
                    None => {},
                },
                None => {},
            }
        } else if crate::cli::flag_at(arg, "--fail-on"@) {
            assert(crate::cli::flag_value(a, j, "--fail-on"@) == crate::cli::flag_value(b, j, "--fail-on"@));
            match crate::cli::flag_value(a, j, "--fail-on"@) {
                Some((v, next)) => {
                    lemma_parse_from_reads_ahead_at(a, b, j, next, crate::cli::Settings { fail_on: FailLevel::Error, ..st });
                    lemma_parse_from_reads_ahead_at(a, b, j, next, crate::cli::Settings { fail_on: FailLevel::Warning, ..st });
                },
                None => {},
            }
        } else if crate::cli::flag_at(arg, "--format"@) {
            assert(crate::cli::flag_value(a, j, "--format"@) == crate::cli::flag_value(b, j, "--format"@));
            match crate::cli::flag_value(a, j, "--format"@) {
                Some((v, next)) => {
                    lemma_parse_from_reads_ahead_at(a, b, j, next, crate::cli::Settings { format: crate::cli::OutputFormat::Text, ..st });
                    lemma_parse_from_reads_ahead_at(a, b, j, next, crate::cli::Settings { format: crate::cli::OutputFormat::Json, ..st });
                },
                None => {},
            }
        } else if starts_with(arg, "-"@) {
        } else if st.root is Some {
        } else {
            lemma_parse_from_reads_ahead_at(a, b, j, j + 1, crate::cli::Settings { root: Some(arg), ..st });
        }
    }
}

/// The step of `lemma_parse_from_reads_ahead` to a later argument.
proof fn lemma_parse_from_reads_ahead_at(a: Seq<Seq<char>>, b: Seq<Seq<char>>, j: int, next: int, st: crate::cli::Settings)
    requires
        0 <= j < next,
        a.len() == b.len(),
        forall|k: int| j <= k < a.len() ==> a[k] == b[k],
    ensures
        crate::cli::parse_from(a, next, st) == crate::cli::parse_from(b, next, st),
    decreases a.len() - j, 0int,
{
    if next < a.len() {
        lemma_parse_from_reads_ahead(a, b, next, st);
    }
}

/// The long and short forms of an option are the same option wherever it stands: `-q`
/// and `--quiet` make the scan quiet and go on, `-h` and `--help` ask for the help text,
/// `-V` and `--version` for the version; `--no-summary` drops the summary and goes on.
pub proof fn law_option_forms_agree(args: Seq<Seq<char>>, i: int, st: crate::cli::Settings)
    requires
        0 <= i < args.len(),
    ensures
        crate::cli::parse_from(args.update(i, "--quiet"@), i, st) == crate::cli::parse_from(
            args,
            i + 1,
            crate::cli::Settings { quiet: true, ..st },
        ),
        crate::cli::parse_from(args.update(i, "-q"@), i, st) == crate::cli::parse_from(
            args,
            i + 1,
            crate::cli::Settings { quiet: true, ..st },
        ),
        crate::cli::parse_from(args.update(i, "--no-summary"@), i, st) == crate::cli::parse_from(
            args,
            i + 1,
            crate::cli::Settings { no_summary: true, ..st },
        ),
        crate::cli::parse_from(args.update(i, "--help"@), i, st) == crate::cli::Parsed::Help,
        crate::cli::parse_from(args.update(i, "-h"@), i, st) == crate::cli::Parsed::Help,
        crate::cli::parse_from(args.update(i, "--version"@), i, st) == crate::cli::Parsed::Version,
        crate::cli::parse_from(args.update(i, "-V"@), i, st) == crate::cli::Parsed::Version,
{
    reveal_strlit("--quiet");
    reveal_strlit("-q");
    reveal_strlit("--no-summary");
    reveal_strlit("--help");
    reveal_strlit("-h");
    reveal_strlit("--version");
    reveal_strlit("-V");
    let quiet = crate::cli::Settings { quiet: true, ..st };
    let no_summary = crate::cli::Settings { no_summary: true, ..st };
    let long_q = args.update(i, "--quiet"@);
    let short_q = args.update(i, "-q"@);
    let ns = args.update(i, "--no-summary"@);
    assert(long_q[i] == "--quiet"@);
    assert(short_q[i] == "-q"@);
    assert(ns[i] == "--no-summary"@);
    assert(args.update(i, "--help"@)[i] == "--help"@);
    assert(args.update(i, "-h"@)[i] == "-h"@);
    assert(args.update(i, "--version"@)[i] == "--version"@);
    assert(args.update(i, "-V"@)[i] == "-V"@);
    assert("--quiet"@ != "-h"@ && "--quiet"@ != "--help"@ && "--quiet"@ != "-V"@ && "--quiet"@ != "--version"@) by {
        assert("--quiet"@.len() != "-h"@.len());
        assert("--quiet"@[2] != "--help"@[2]);
        assert("--quiet"@.len() != "-V"@.len());
        assert("--quiet"@[2] != "--version"@[2]);
    }
    assert("-q"@ != "-h"@ && "-q"@ != "--help"@ && "-q"@ != "-V"@ && "-q"@ != "--version"@) by {
        assert("-q"@[1] != "-h"@[1]);
        assert("-q"@.len() != "--help"@.len());
        assert("-q"@[1] != "-V"@[1]);
        assert("-q"@.len() != "--version"@.len());
    }
    assert("--no-summary"@ != "-h"@ && "--no-summary"@ != "--help"@ && "--no-summary"@ != "-V"@
        && "--no-summary"@ != "--version"@ && "--no-summary"@ != "-q"@ && "--no-summary"@ != "--quiet"@) by {
        assert("--no-summary"@.len() != "-h"@.len());
        assert("--no-summary"@.len() != "--help"@.len());
        assert("--no-summary"@.len() != "-V"@.len());
        assert("--no-summary"@.len() != "--version"@.len());
        assert("--no-summary"@.len() != "-q"@.len());
        assert("--no-summary"@.len() != "--quiet"@.len());
    }
    assert("--version"@ != "-h"@ && "--version"@ != "--help"@) by {
        assert("--version"@.len() != "-h"@.len());
        assert("--version"@.len() != "--help"@.len());
    }
    assert("-V"@ != "-h"@ && "-V"@ != "--help"@) by {
        assert("-V"@[1] != "-h"@[1]);
        assert("-V"@.len() != "--help"@.len());
    }
    lemma_parse_from_reads_ahead(long_q, args, i + 1, quiet);
    lemma_parse_from_reads_ahead(short_q, args, i + 1, quiet);
    lemma_parse_from_reads_ahead(ns, args, i + 1, no_summary);
}

proof fn lemma_trim_end_prefix(s: Seq<char>)
    ensures
        crate::text::trim_end(s).len() <= s.len(),
        crate::text::trim_end(s) == s.take(crate::text::trim_end(s).len() as int),
        forall|k: int| 0 <= k < s.len() && !is_space(#[trigger] s[k]) ==> k < crate::text::trim_end(s).len(),
    decreases s.len(),
{
    if s.len() > 0 && is_space(s.last()) {
        lemma_trim_end_prefix(s.drop_last());
        let m = crate::text::trim_end(s).len() as int;
        assert(s.drop_last().take(m) =~= s.take(m));
        assert forall|k: int| 0 <= k < s.len() && !is_space(#[trigger] s[k]) implies k < crate::text::trim_end(s).len() by {
            assert(k != s.len() - 1);
            assert(s.drop_last()[k] == s[k]);
        }
    } else {
        assert(s.take(s.len() as int) =~= s);
    }
}

/// Where the trimmed text of `x` starts in `x`, and that it keeps every character from the
/// first to the last that is not white space.
proof fn lemma_trim_window(x: Seq<char>, lo: int, hi: int)
    requires
        0 <= lo <= hi < x.len(),
        !is_space(x[lo]),
        !is_space(x[hi]),
    ensures
        leading_white_space(x) <= lo,
        leading_white_space(x) + trim(x).len() <= x.len(),
        trim(x) == x.subrange(leading_white_space(x) as int, (leading_white_space(x) + trim(x).len()) as int),
        hi < leading_white_space(x) + trim(x).len(),
{
    lemma_leading_white_space(x);
    let l = leading_white_space(x) as int;
    if l > lo {
        assert(is_space(x[lo]));
    }
    let y = x.skip(l);
    lemma_trim_end_prefix(y);
    assert(y[hi - l] == x[hi]);
    assert(y.take(trim(x).len() as int) =~= x.subrange(l, l + trim(x).len()));
}

/// A line that names a placeholder (`<package>` or `<version>`) anywhere is a placeholder:
/// it is never linted.
pub proof fn law_placeholder_lines_are_skipped(a: Seq<char>, b: Seq<char>)
    ensures
        comment_or_placeholder(a + "<package>"@ + b),
        comment_or_placeholder(a + "<version>"@ + b),
{
    reveal_strlit("<package>");
    reveal_strlit("<version>");
    lemma_placeholder_kept(a, "<package>"@, b);
    lemma_placeholder_kept(a, "<version>"@, b);
}

proof fn lemma_placeholder_kept(a: Seq<char>, p: Seq<char>, b: Seq<char>)
    requires
        p.len() > 0,
        !is_space(p[0]),
        !is_space(p.last()),
    ensures
        crate::text::contains(trim(a + p + b), p),
{
    let x = a + p + b;
    let lo = a.len() as int;
    let hi = a.len() + p.len() - 1;
    assert(x[lo] == p[0]);
    assert(x[hi] == p.last());
    lemma_trim_window(x, lo, hi);
    let l = leading_white_space(x) as int;
    let t = trim(x);
    assert(t.subrange(lo - l, lo - l + p.len()) =~= p) by {
        assert forall|q: int| 0 <= q < p.len() implies t.subrange(lo - l, lo - l + p.len())[q] == p[q] by {
            assert(lo - l + q < t.len());
            assert(x.subrange(l, l + t.len())[lo - l + q] == x[lo + q]);
            assert(t[lo - l + q] == x[lo + q]);
            assert(x[lo + q] == p[q]);
        }
    }
    assert(crate::text::occurs_at(t, p, lo - l));
}

/// A line whose first character other than white space is `#`, `` ` ``, `>` or `-` is a
/// comment or prose: it is never linted.
pub proof fn law_marked_lines_are_skipped(w: Seq<char>, s: Seq<char>)
    requires
        forall|j: int| 0 <= j < w.len() ==> is_space(#[trigger] w[j]),
        s.len() > 0,
        s[0] == '#' || s[0] == '`' || s[0] == '>' || s[0] == '-',
    ensures
        comment_or_placeholder(w + s),
{
    lemma_trim_start_after_white_space(w, s);
    assert(!is_space(s[0]));
    assert(crate::text::trim_start(s) == s);
    lemma_trim_end_keeps_first(s);
    crate::parsers::line::lemma_starts_with_char(trim(s), s[0]);
}

/// A line that starts (after white space) with any other character and names no
/// placeholder is linted: it is neither a comment nor a placeholder.
pub proof fn law_other_lines_are_linted(w: Seq<char>, s: Seq<char>)
    requires
        forall|j: int| 0 <= j < w.len() ==> is_space(#[trigger] w[j]),
        s.len() > 0,
        !is_space(s[0]),
        s[0] != '#' && s[0] != '`' && s[0] != '>' && s[0] != '-',
        !crate::text::contains(s, "<package>"@),
        !crate::text::contains(s, "<version>"@),
    ensures
        !comment_or_placeholder(w + s),
{
    lemma_trim_start_after_white_space(w, s);
    assert(crate::text::trim_start(s) == s);
    lemma_trim_end_keeps_first(s);
    lemma_trim_end_prefix(s);
    let t = trim(s);
    crate::parsers::line::lemma_starts_with_char(t, '#');
    crate::parsers::line::lemma_starts_with_char(t, '`');
    crate::parsers::line::lemma_starts_with_char(t, '>');
    crate::parsers::line::lemma_starts_with_char(t, '-');
    assert forall|i: int, p: Seq<char>| crate::text::occurs_at(t, p, i) implies crate::text::occurs_at(s, p, i) by {
        assert(t.subrange(i, i + p.len()) =~= s.subrange(i, i + p.len()));
    }
    if crate::text::contains(t, "<package>"@) {
        let i = choose|i: int| crate::text::occurs_at(t, "<package>"@, i);
        assert(crate::text::occurs_at(s, "<package>"@, i));
    }
    if crate::text::contains(t, "<version>"@) {
        let i = choose|i: int| crate::text::occurs_at(t, "<version>"@, i);
        assert(crate::text::occurs_at(s, "<version>"@, i));
    }
}

/// A `Cargo.toml` declares a workspace exactly when one of its lines starts (after white
/// space) with `[workspace]`; one that could not be read declares none.
pub proof fn law_workspace_exactly_when_table_line(t: Seq<char>)
    ensures
        crate::scanner::cargo_workspace(Some(t)) == exists|i: int|
            0 <= i < lines(t).len() && starts_with(crate::text::trim_start(#[trigger] lines(t)[i]), "[workspace]"@),
        !crate::scanner::cargo_workspace(None),
{
}

/// A path is skipped exactly when it goes through a directory of the documented list or
/// is the script `lint-package-install.sh`.
pub proof fn law_skipped_paths_are_the_listed_ones(path: Seq<char>)
    ensures
        crate::file_types::excluded(path) == ((exists|i: int|
            0 <= i < crate::paths::components(path).len() && ({
                let c = #[trigger] crate::paths::components(path)[i];
                ||| c == "node_modules"@
                ||| c == ".git"@
                ||| c == "target"@
                ||| c == "dist"@
                ||| c == "build"@
                ||| c == "coverage"@
                ||| c == "vendor"@
                ||| c == ".next"@
                ||| c == ".nuxt"@
                ||| c == ".turbo"@
                ||| c == ".cache"@
            })) || file_name(path) == Some("lint-package-install.sh"@)),
{
}

proof fn lemma_trim_end_after_word(x: Seq<char>, y: Seq<char>)
    requires
        x.len() > 0,
        !is_space(x.last()),
    ensures
        crate::text::trim_end(x + y) == x + crate::text::trim_end(y),
    decreases y.len(),
{
    if y.len() > 0 && is_space(y.last()) {
        assert((x + y).last() == y.last());
        assert((x + y).drop_last() =~= x + y.drop_last());
        lemma_trim_end_after_word(x, y.drop_last());
    } else if y.len() == 0 {
        assert(x + y =~= x);
        assert(x + crate::text::trim_end(y) =~= x);
    } else {
        assert((x + y).last() == y.last());
    }
}

proof fn lemma_trim_end_ends_in_word(s: Seq<char>)
    ensures
        crate::text::trim_end(s).len() > 0 ==> !is_space(crate::text::trim_end(s).last()),
        crate::text::trim_end(crate::text::trim_end(s)) == crate::text::trim_end(s),
    decreases s.len(),
{
    if s.len() > 0 && is_space(s.last()) {
        lemma_trim_end_ends_in_word(s.drop_last());
    }
}

proof fn lemma_first_word_of_word(w: Seq<char>, r: Seq<char>)
    requires
        forall|j: int| 0 <= j < w.len() ==> !is_space(#[trigger] w[j]),
        r.len() == 0 || is_space(r[0]),
    ensures
        crate::parsers::markdown::first_word(w + r) == w,
    decreases w.len(),
{
    if w.len() > 0 {
        assert((w + r)[0] == w[0]);
        assert((w + r).drop_first() =~= w.drop_first() + r);
        assert forall|j: int| 0 <= j < w.drop_first().len() implies !is_space(#[trigger] w.drop_first()[j]) by {
            assert(w.drop_first()[j] == w[j + 1]);
        }
        lemma_first_word_of_word(w.drop_first(), r);
        assert(seq![w[0]] + w.drop_first() =~= w);
    } else {
        assert(w + r =~= r);
    }
}

/// A code fence, indented or not, whose info string starts with a word (followed by
/// anything after white space) opens a linted code block exactly when that word is `bash`,
/// `sh`, `shell`, `zsh`, `console` or `terminal`.
pub proof fn law_fence_language_decides(indent: Seq<char>, w: Seq<char>, rest: Seq<char>)
    requires
        forall|j: int| 0 <= j < indent.len() ==> is_space(#[trigger] indent[j]),
        w.len() > 0,
        forall|j: int| 0 <= j < w.len() ==> !is_space(#[trigger] w[j]),
        w[0] != '`',
        rest.len() == 0 || is_space(rest[0]),
    ensures
        crate::parsers::markdown::lints_code_block(indent + "```"@ + w + rest) == (w == "bash"@ || w == "sh"@ || w
            == "shell"@ || w == "zsh"@ || w == "console"@ || w == "terminal"@),
{
    reveal_strlit("```");
    let fence = "```"@;
    let g = fence + w + rest;
    assert(indent + fence + w + rest =~= indent + g);
    lemma_trim_start_after_white_space(indent, g);
    assert(!is_space('`'));
    assert(g[0] == '`');
    assert(crate::text::trim_start(g) == g);
    let fw = fence + w;
    assert(fw.last() == w.last());
    assert(g =~= fw + rest);
    lemma_trim_end_after_word(fw, rest);
    let r2 = crate::text::trim_end(rest);
    lemma_trim_end_prefix(rest);
    lemma_trim_end_ends_in_word(rest);
    if r2.len() > 0 {
        assert(r2[0] == rest[0]);
    }
    let t = fw + r2;
    assert(trim(indent + fence + w + rest) == t);
    let wr = w + r2;
    assert(t =~= fence + wr);
    assert(t.take(3) =~= fence);
    assert(t.skip(3) =~= wr);
    if wr.len() >= 3 {
        assert(wr.take(3)[0] != fence[0]);
    }
    assert(!starts_with(wr, fence));
    assert(crate::parsers::markdown::strip_leading_repeats(wr, fence) == wr);
    assert(crate::parsers::markdown::strip_leading_repeats(t, fence) == wr);
    assert(wr[0] == w[0]);
    assert(crate::text::trim_start(wr) == wr);
    lemma_trim_end_after_word(w, r2);
    assert(trim(wr) == wr);
    assert(crate::parsers::markdown::fence_info(indent + fence + w + rest) == wr);
    lemma_first_word_of_word(w, r2);
}

/// What the command line says from some point on depends only on the arguments from that
/// point on, wherever they stand.
proof fn lemma_parse_from_shifted(a: Seq<Seq<char>>, i: int, b: Seq<Seq<char>>, j: int, st: crate::cli::Settings)
    requires
        0 <= i <= a.len(),
        0 <= j <= b.len(),
        a.len() - i == b.len() - j,
        forall|k: int| i <= k < a.len() ==> #[trigger] a[k] == b[k - i + j],
    ensures
        crate::cli::parse_from(a, i, st) == crate::cli::parse_from(b, j, st),
    decreases a.len() - i, 1int,
{
    if i < a.len() {
        let arg = a[i];
        assert(a[i] == b[j]);
        if i + 1 < a.len() {
            assert(a[i + 1] == b[j + 1]);
        }
        if arg == "-h"@ || arg == "--help"@ || arg == "-V"@ || arg == "--version"@ {
        } else if arg == "-q"@ || arg == "--quiet"@ {
            lemma_parse_from_shifted_at(a, i, b, j, 1, crate::cli::Settings { quiet: true, ..st });
        } else if arg == "--no-summary"@ {
            lemma_parse_from_shifted_at(a, i, b, j, 1, crate::cli::Settings { no_summary: true, ..st });
        } else if crate::cli::flag_at(arg, "--max-warnings"@) {
            match crate::cli::flag_value(a, i, "--max-warnings"@) {
                Some((v, next)) => match crate::cli::parsed_usize(v) {
                    Some(n) => lemma_parse_from_shifted_at(a, i, b, j, next - i, crate::cli::Settings { max_warnings: Some(n), ..st }),
                    None => {},
                },
                None => {},
            }
        } else if crate::cli::flag_at(arg, "--fail-on"@) {
            match crate::cli::flag_value(a, i, "--fail-on"@) {
                Some((v, next)) => {
                    lemma_parse_from_shifted_at(a, i, b, j, next - i, crate::cli::Settings { fail_on: FailLevel::Error, ..st });
                    lemma_parse_from_shifted_at(a, i, b, j, next - i, crate::cli::Settings { fail_on: FailLevel::Warning, ..st });
                },
                None => {},
            }
        } else if crate::cli::flag_at(arg, "--format"@) {
            match crate::cli::flag_value(a, i, "--format"@) {
                Some((v, next)) => {
                    lemma_parse_from_shifted_at(a, i, b, j, next - i, crate::cli::Settings { format: crate::cli::OutputFormat::Text, ..st });
                    lemma_parse_from_shifted_at(a, i, b, j, next - i, crate::cli::Settings { format: crate::cli::OutputFormat::Json, ..st });
                },
                None => {},
            }
        } else if starts_with(arg, "-"@) {
        } else if st.root is Some {
        } else {
            lemma_parse_from_shifted_at(a, i, b, j, 1, crate::cli::Settings { root: Some(arg), ..st });
        }
    }
}

/// The step of `lemma_parse_from_shifted` over `d` arguments.
proof fn lemma_parse_from_shifted_at(a: Seq<Seq<char>>, i: int, b: Seq<Seq<char>>, j: int, d: int, st: crate::cli::Settings)
    requires
        0 <= i < a.len(),
        0 <= j <= b.len(),
        a.len() - i == b.len() - j,
        forall|k: int| i <= k < a.len() ==> #[trigger] a[k] == b[k - i + j],
        1 <= d,
    ensures
        crate::cli::parse_from(a, i + d, st) == crate::cli::parse_from(b, j + d, st),
    decreases a.len() - i, 0int,
{
    if i + d <= a.len() {
        assert forall|k: int| i + d <= k < a.len() implies #[trigger] a[k] == b[k - (i + d) + (j + d)] by {
            assert(a[k] == b[k - i + j]);
        }
        lemma_parse_from_shifted(a, i + d, b, j + d, st);
    }
}

/// `--max-warnings=N` and `--max-warnings N` are the same option, wherever it stands, and
/// so are the two forms of `--fail-on` and of `--format`.
pub proof fn law_flag_value_forms_agree(
    pre: Seq<Seq<char>>,
    post: Seq<Seq<char>>,
    flag: Seq<char>,
    v: Seq<char>,
    st: crate::cli::Settings,
)
    requires
        flag == "--max-warnings"@ || flag == "--fail-on"@ || flag == "--format"@,
    ensures
        crate::cli::parse_from(pre + seq![flag + "="@ + v] + post, pre.len() as int, st) == crate::cli::parse_from(
            pre + seq![flag, v] + post,
            pre.len() as int,
            st,
        ),
{
    reveal_strlit("--max-warnings");
    reveal_strlit("--fail-on");
    reveal_strlit("--format");
    reveal_strlit("=");
    reveal_strlit("-h");
    reveal_strlit("--help");
    reveal_strlit("-V");
    reveal_strlit("--version");
    reveal_strlit("-q");
    reveal_strlit("--quiet");
    reveal_strlit("--no-summary");
    reveal_strlit("--max-warnings=");
    reveal_strlit("--fail-on=");
    reveal_strlit("--format=");
    let i = pre.len() as int;
    let joined = flag + "="@ + v;
    let a1 = pre + seq![joined] + post;
    let a2 = pre + seq![flag, v] + post;
    assert(a1[i] == joined);
    assert(a2[i] == flag);
    assert(a2[i + 1] == v);
    assert(joined.take((flag.len() + 1) as int) =~= flag + "="@);
    assert(joined.skip((flag.len() + 1) as int) =~= v);
    assert(joined[2] == flag[2] && joined[3] == flag[3]);
    assert(joined.len() > 2 && flag.len() > 3);
    // Neither form is one of the options checked before the flag's own.
    assert(joined != "-h"@ && joined != "--help"@ && joined != "-V"@ && joined != "--version"@ && joined != "-q"@
        && joined != "--quiet"@ && joined != "--no-summary"@) by {
        assert("-h"@.len() == 2 && "-V"@.len() == 2 && "-q"@.len() == 2);
        assert("--help"@[2] == 'h' && "--version"@[2] == 'v' && "--quiet"@[2] == 'q' && "--no-summary"@[2] == 'n');
        assert(flag[2] == 'm' || flag[2] == 'f');
    }
    assert(flag != "-h"@ && flag != "--help"@ && flag != "-V"@ && flag != "--version"@ && flag != "-q"@
        && flag != "--quiet"@ && flag != "--no-summary"@) by {
        assert("-h"@.len() == 2 && "-V"@.len() == 2 && "-q"@.len() == 2);
        assert("--help"@[2] == 'h' && "--version"@[2] == 'v' && "--quiet"@[2] == 'q' && "--no-summary"@[2] == 'n');
    }
    let p1 = pre + seq![joined];
    let p2 = pre + seq![flag, v];
    assert(a1 =~= p1 + post);
    assert(a2 =~= p2 + post);
    assert forall|k: int| i + 1 <= k < a1.len() implies #[trigger] a1[k] == a2[k - (i + 1) + (i + 2)] by {
        assert(a1[k] == post[k - (i + 1)]);
        assert(a2[k + 1] == post[k - (i + 1)]);
    }
    assert(!starts_with(flag, flag + "="@));
    if flag == "--max-warnings"@ {
        assert(crate::cli::flag_at(joined, "--max-warnings"@));
        assert(crate::cli::flag_at(flag, "--max-warnings"@));
        assert(crate::cli::flag_value(a1, i, "--max-warnings"@) == Some((v, i + 1)));
        assert(crate::cli::flag_value(a2, i, "--max-warnings"@) == Some((v, i + 2)));
        match crate::cli::parsed_usize(v) {
            Some(n) => lemma_parse_from_shifted(a1, i + 1, a2, i + 2, crate::cli::Settings { max_warnings: Some(n), ..st }),
            None => {},
        }
    } else {
        assert(!crate::cli::flag_at(joined, "--max-warnings"@)) by {
            if joined.len() >= 15 {
                assert(joined.take(15)[2] != "--max-warnings="@[2]);
            }
        }
        assert(!crate::cli::flag_at(flag, "--max-warnings"@)) by {
            assert(flag.len() < 15);
            assert(flag[2] != "--max-warnings"@[2]);
        }
        if flag == "--fail-on"@ {
            assert(crate::cli::flag_at(joined, "--fail-on"@));
            assert(crate::cli::flag_at(flag, "--fail-on"@));
            assert(crate::cli::flag_value(a1, i, "--fail-on"@) == Some((v, i + 1)));
            assert(crate::cli::flag_value(a2, i, "--fail-on"@) == Some((v, i + 2)));
            lemma_parse_from_shifted(a1, i + 1, a2, i + 2, crate::cli::Settings { fail_on: FailLevel::Error, ..st });
            lemma_parse_from_shifted(a1, i + 1, a2, i + 2, crate::cli::Settings { fail_on: FailLevel::Warning, ..st });
        } else {
            assert(!crate::cli::flag_at(joined, "--fail-on"@)) by {
                if joined.len() >= 10 {
                    assert(joined.take(10)[3] != "--fail-on="@[3]);
                }
            }
            assert(!crate::cli::flag_at(flag, "--fail-on"@)) by {
                assert(flag[3] != "--fail-on"@[3]);
                assert(flag.len() < 10);
            }
            assert(crate::cli::flag_at(joined, "--format"@));
            assert(crate::cli::flag_at(flag, "--format"@));
            assert(crate::cli::flag_value(a1, i, "--format"@) == Some((v, i + 1)));
            assert(crate::cli::flag_value(a2, i, "--format"@) == Some((v, i + 2)));
            lemma_parse_from_shifted(a1, i + 1, a2, i + 2, crate::cli::Settings { format: crate::cli::OutputFormat::Text, ..st });
            lemma_parse_from_shifted(a1, i + 1, a2, i + 2, crate::cli::Settings { format: crate::cli::OutputFormat::Json, ..st });
        }
    }
}

} // verus!
