use vstd::prelude::*;

use crate::diagnostic::{findings, Finding, Severity, Violation};
use crate::ignore_directives::{
    inline_directive, line_directive, line_directive_with, split_inline_ignore_with, CommentStyle, Directive,
    IgnoreDirective, IGNORE_PATTERN,
};
use crate::pattern::compile;
use crate::parsers::markdown::lints_code_block;
use crate::rules::{check_line, javascript_kinds, line_findings, RulePatterns};
use crate::scanner::LintContext;
use crate::text::{
    chars_of, contains, contains_str, lines, split_lines, starts_with, starts_with_str, string_of,
    trim, trim_chars, views,
};

verus! {

/// The most findings kept for one file.
pub const MAX_VIOLATIONS_PER_FILE: usize = 1000;

/// Lines that are comments, documentation placeholders or prose list items are not linted.
pub open spec fn comment_or_placeholder(line: Seq<char>) -> bool {
    let t = trim(line);
    ||| starts_with(t, seq!['#'])
    ||| contains(t, "<package>"@)
    ||| contains(t, "<version>"@)
    ||| starts_with(t, seq!['`'])
    ||| starts_with(t, seq!['>'])
    ||| starts_with(t, seq!['-'])
}

pub proof fn lemma_starts_with_char(s: Seq<char>, c: char)
    ensures
        starts_with(s, seq![c]) == (s.len() > 0 && s[0] == c),
{
    if s.len() > 0 {
        if s[0] == c {
            assert(s.take(1) =~= seq![c]);
        } else {
            assert(s.take(1)[0] != seq![c][0]);
        }
    }
}

pub fn is_comment_or_placeholder(line: &str) -> (r: bool)
    ensures
        r == comment_or_placeholder(line@),
{
    let chars = chars_of(line);
    let t = trim_chars(chars.as_slice());
    let first = if t.len() > 0 {
        t[0]
    } else {
        ' '
    };
    proof {
        lemma_starts_with_char(t@, '#');
        lemma_starts_with_char(t@, '`');
        lemma_starts_with_char(t@, '>');
        lemma_starts_with_char(t@, '-');
    }
    (t.len() > 0 && first == '#') || contains_str(t.as_slice(), "<package>") || contains_str(
        t.as_slice(),
        "<version>",
    ) || (t.len() > 0 && first == '`') || (t.len() > 0 && first == '>') || (t.len() > 0 && first
        == '-')
}

pub fn should_lint_markdown_code_block(fence_line: &str) -> (r: bool)
    ensures
        r == lints_code_block(fence_line@),
{
    crate::parsers::markdown::should_lint_markdown_code_block(fence_line)
}

/// The finding that marks where a file's findings stopped being kept.
pub open spec fn limit_finding() -> Finding {
    Finding {
        severity: Severity::Error,
        rule_id: Some("scan-violation-limit"@),
        message: "Stopped after 1000 violations to bound resource use"@,
        line_num: 0,
        line_content: "Additional violations were not retained"@,
    }
}

pub fn limit_violation() -> (r: Violation)
    ensures
        r@ == limit_finding(),
{
    Violation::error(
        0,
        "Stopped after 1000 violations to bound resource use",
        "Additional violations were not retained",
        "scan-violation-limit",
    )
}

/// Appends a batch of findings, keeping at most `MAX_VIOLATIONS_PER_FILE` of them; when the
/// limit is reached the findings are cut there and the limit finding (which has no line)
/// goes before them, so that the findings stay in line order.
pub open spec fn bounded_append(found: Seq<Finding>, more: Seq<Finding>) -> (Seq<Finding>, bool) {
    let all = found + more;
    if all.len() >= MAX_VIOLATIONS_PER_FILE {
        (seq![limit_finding()] + all.take(MAX_VIOLATIONS_PER_FILE as int), true)
    } else {
        (all, false)
    }
}

/// `fs` without the findings of rule `rule`.
pub open spec fn without_rule(fs: Seq<Finding>, rule: Seq<char>) -> Seq<Finding>
    decreases fs.len(),
{
    if fs.len() == 0 {
        Seq::empty()
    } else {
        let rest = without_rule(fs.drop_last(), rule);
        if fs.last().rule_id == Some(rule) {
            rest
        } else {
            rest.push(fs.last())
        }
    }
}

/// The state of a file scan between two lines.
pub struct ScanState {
    pub in_code_block: bool,
    pub lint_code_block: bool,
    pub skip_next: Option<Directive>,
    pub found: Seq<Finding>,
    pub stopped: bool,
}

pub open spec fn initial_state() -> ScanState {
    ScanState {
        in_code_block: false,
        lint_code_block: false,
        skip_next: None,
        found: Seq::empty(),
        stopped: false,
    }
}

/// What a linted line reports once the directives in force are applied.
pub open spec fn kept_findings(
    effective: Seq<char>,
    line_num: int,
    bun_frozen_lockfile: bool,
    previous: Option<Directive>,
    inline: Option<Directive>,
) -> Seq<Finding> {
    let fs = line_findings(javascript_kinds(effective, bun_frozen_lockfile), line_num, effective);
    let fs1 = match previous {
        Some(Directive::Specific(rule)) => without_rule(fs, rule),
        _ => fs,
    };
    match inline {
        Some(Directive::Specific(rule)) => without_rule(fs1, rule),
        _ => fs1,
    }
}

pub open spec fn is_all(d: Option<Directive>) -> bool {
    d matches Some(Directive::All)
}

/// One line of a file scan.
pub open spec fn step(
    s: ScanState,
    line: Seq<char>,
    line_num: int,
    is_markdown: bool,
    bun_frozen_lockfile: bool,
    prefix: Seq<char>,
    suffix: Seq<char>,
) -> ScanState {
    if s.stopped {
        s
    } else if is_markdown && starts_with(trim(line), "```"@) {
        ScanState {
            in_code_block: !s.in_code_block,
            lint_code_block: if s.in_code_block {
                false
            } else {
                lints_code_block(line)
            },
            ..s
        }
    } else if s.in_code_block && !s.lint_code_block {
        s
    } else {
        let inline = inline_directive(line, prefix, suffix);
        let effective = match inline {
            Some((code, _)) => code,
            None => line,
        };
        let inline_d = match inline {
            Some((_, d)) => Some(d),
            None => None,
        };
        if inline is None && line_directive(effective, prefix, suffix) is Some {
            ScanState { skip_next: line_directive(effective, prefix, suffix), ..s }
        } else if is_all(s.skip_next) || is_all(inline_d) || comment_or_placeholder(effective) {
            ScanState { skip_next: None, ..s }
        } else {
            let (found, stopped) = bounded_append(
                s.found,
                kept_findings(effective, line_num, bun_frozen_lockfile, s.skip_next, inline_d),
            );
            ScanState { skip_next: None, found, stopped, ..s }
        }
    }
}

/// The state after the first `k` lines.
pub open spec fn scan(
    ls: Seq<Seq<char>>,
    k: int,
    is_markdown: bool,
    bun_frozen_lockfile: bool,
    prefix: Seq<char>,
    suffix: Seq<char>,
) -> ScanState
    decreases k,
{
    if k <= 0 {
        initial_state()
    } else {
        step(
            scan(ls, k - 1, is_markdown, bun_frozen_lockfile, prefix, suffix),
            ls[k - 1],
            k,
            is_markdown,
            bun_frozen_lockfile,
            prefix,
            suffix,
        )
    }
}

/// The findings of a line-based file: Dockerfiles, shell scripts, Makefiles, workflows and
/// Markdown.
pub open spec fn line_file_findings(
    content: Seq<char>,
    is_markdown: bool,
    bun_frozen_lockfile: bool,
    prefix: Seq<char>,
    suffix: Seq<char>,
) -> Seq<Finding> {
    let ls = lines(content);
    scan(ls, ls.len() as int, is_markdown, bun_frozen_lockfile, prefix, suffix).found
}

fn drop_rule(vs: Vec<Violation>, rule: &String) -> (r: Vec<Violation>)
    ensures
        findings(r@) == without_rule(findings(vs@), rule@),
{
    let mut rest = vs;
    let mut kept: Vec<Violation> = Vec::new();
    let ghost original = findings(rest@);
    let ghost mut consumed: Seq<Finding> = Seq::empty();
    while rest.len() > 0
        invariant
            original == consumed + findings(rest@),
            findings(kept@) == without_rule(consumed, rule@),
        decreases rest.len(),
    {
        let ghost before = rest@;
        let v = rest.remove(0);
        proof {
            assert(findings(before) =~= seq![v@] + findings(rest@));
        }
        let ghost vv = v@;
        let ghost seen = consumed.push(vv);
        let matches_rule = match &v.rule_id {
            Some(id) => crate::text::chars_equal(
                chars_of(id.as_str()).as_slice(),
                chars_of(rule.as_str()).as_slice(),
            ),
            None => false,
        };
        proof {
            assert(seen.drop_last() =~= consumed);
            assert(seen.last() == vv);
            assert(matches_rule == (vv.rule_id == Some(rule@)));
            assert(without_rule(seen, rule@) == (if vv.rule_id == Some(rule@) {
                without_rule(consumed, rule@)
            } else {
                without_rule(consumed, rule@).push(vv)
            }));
        }
        if !matches_rule {
            kept.push(v);
            assert(findings(kept@) =~= findings(kept@.drop_last()).push(vv));
        }
        proof {
            assert(original =~= seen + findings(rest@));
            consumed = seen;
        }
    }
    assert(consumed + Seq::<Finding>::empty() == consumed);
    kept
}

pub open spec fn directive_view(d: Option<IgnoreDirective>) -> Option<Directive> {
    match d {
        Some(x) => Some(x@),
        None => None,
    }
}

pub open spec fn state_is(
    s: ScanState,
    in_code_block: bool,
    lint_code_block: bool,
    skip_next: Option<IgnoreDirective>,
    found: Seq<Violation>,
    stopped: bool,
) -> bool {
    &&& s.in_code_block == in_code_block
    &&& s.lint_code_block == lint_code_block
    &&& s.skip_next == directive_view(skip_next)
    &&& s.found == findings(found)
    &&& s.stopped == stopped
}

proof fn lemma_scan_stays_stopped(
    ls: Seq<Seq<char>>,
    k: int,
    m: int,
    is_markdown: bool,
    bun: bool,
    prefix: Seq<char>,
    suffix: Seq<char>,
)
    requires
        0 <= k <= m,
        scan(ls, k, is_markdown, bun, prefix, suffix).stopped,
    ensures
        scan(ls, m, is_markdown, bun, prefix, suffix) == scan(ls, k, is_markdown, bun, prefix, suffix),
    decreases m - k,
{
    if m > k {
        lemma_scan_stays_stopped(ls, k, m - 1, is_markdown, bun, prefix, suffix);
    }
}

fn is_all_exec(d: &Option<IgnoreDirective>) -> (r: bool)
    ensures
        r == is_all(directive_view(*d)),
{
    match d {
        Some(IgnoreDirective::All) => true,
        _ => false,
    }
}

/// Checks a line-based file (everything but `package.json`): each line outside skipped
/// Markdown code blocks, comments and placeholders goes through the package-manager rules,
/// and ignore directives on the previous line or at the end of the line drop all findings
/// or those of one rule.
pub fn check_lines(content: &str, lint_context: &LintContext, comment_style: &CommentStyle) -> (r: Vec<Violation>)
    ensures
        findings(r@) == line_file_findings(
            content@,
            lint_context.is_markdown,
            lint_context.bun_frozen_lockfile,
            comment_style.prefix@,
            comment_style.suffix@,
        ),
{
    let chars = chars_of(content);
    let ls = split_lines(chars.as_slice());
    let ghost lv = lines(content@);
    let ghost md = lint_context.is_markdown;
    let ghost bun = lint_context.bun_frozen_lockfile;
    let ghost prefix = comment_style.prefix@;
    let ghost suffix = comment_style.suffix@;
    let patterns = RulePatterns::new();
    let ignore = compile(IGNORE_PATTERN);
    let mut violations: Vec<Violation> = Vec::new();
    let mut in_code_block = false;
    let mut lint_code_block = false;
    let mut skip_next: Option<IgnoreDirective> = None;
    let mut stopped = false;
    let mut idx: usize = 0;
    assert(findings(violations@) =~= Seq::<Finding>::empty());
    while idx < ls.len() && !stopped
        invariant
            patterns.ready(),
            ignore@ == IGNORE_PATTERN@,
            views(ls@) == lv,
            lv == lines(content@),
            md == lint_context.is_markdown,
            bun == lint_context.bun_frozen_lockfile,
            prefix == comment_style.prefix@,
            suffix == comment_style.suffix@,
            idx <= ls.len(),
            state_is(
                scan(lv, idx as int, md, bun, prefix, suffix),
                in_code_block,
                lint_code_block,
                skip_next,
                violations@,
                stopped,
            ),
        decreases ls.len() - idx,
    {
        let ghost before = scan(lv, idx as int, md, bun, prefix, suffix);
        let line_chars = &ls[idx];
        let line = string_of(line_chars.as_slice());
        let line_num = idx + 1;
        proof {
            assert(lv[idx as int] == ls@[idx as int]@);
            assert(line@ == lv[idx as int]);
        }
        let ghost after = step(before, line@, line_num as int, md, bun, prefix, suffix);
        assert(scan(lv, line_num as int, md, bun, prefix, suffix) == after);
        let trimmed = trim_chars(line_chars.as_slice());
        if lint_context.is_markdown && starts_with_str(trimmed.as_slice(), "```") {
            if in_code_block {
                lint_code_block = false;
            } else {
                lint_code_block = should_lint_markdown_code_block(line.as_str());
            }
            in_code_block = !in_code_block;
        } else if in_code_block && !lint_code_block {
        } else {
            let inline = split_inline_ignore_with(&ignore, line.as_str(), comment_style);
            let ghost inline_view = inline_directive(line@, prefix, suffix);
            let (effective, inline_d) = match inline {
                Some((code, d)) => (code, Some(d)),
                None => (line, None),
            };
            let directive = if inline_d.is_none() {
                let effective_chars = chars_of(effective.as_str());
                line_directive_with(&ignore, effective_chars.as_slice(), comment_style)
            } else {
                None
            };
            if directive.is_some() {
                skip_next = directive;
            } else {
                let previous = skip_next;
                skip_next = None;
                if is_all_exec(&previous) || is_all_exec(&inline_d) || is_comment_or_placeholder(
                    effective.as_str(),
                ) {
                } else {
                    let mut line_violations = check_line(
                        &patterns,
                        effective.as_str(),
                        line_num,
                        lint_context.bun_frozen_lockfile,
                    );
                    match &previous {
                        Some(IgnoreDirective::Specific(rule)) => {
                            line_violations = drop_rule(line_violations, rule);
                        },
                        _ => {},
                    }
                    match &inline_d {
                        Some(IgnoreDirective::Specific(rule)) => {
                            line_violations = drop_rule(line_violations, rule);
                        },
                        _ => {},
                    }
                    let ghost found_before = violations@;
                    let ghost batch = line_violations@;
                    assert(findings(batch) == kept_findings(
                        effective@,
                        line_num as int,
                        bun,
                        directive_view(previous),
                        directive_view(inline_d),
                    ));
                    violations.append(&mut line_violations);
                    proof {
                        crate::rules::lemma_findings_add(found_before, batch);
                    }
                    if violations.len() >= MAX_VIOLATIONS_PER_FILE {
                        let ghost all = violations@;
                        violations.truncate(MAX_VIOLATIONS_PER_FILE);
                        let limit = limit_violation();
                        violations.insert(0, limit);
                        proof {
                            assert(findings(violations@) =~= seq![limit_finding()] + findings(all).take(
                                MAX_VIOLATIONS_PER_FILE as int,
                            ));
                        }
                        stopped = true;
                    }
                }
            }
        }
        idx += 1;
    }
    proof {
        if stopped {
            lemma_scan_stays_stopped(lv, idx as int, lv.len() as int, md, bun, prefix, suffix);
        }
    }
    violations
}

/// The findings of a file: `package.json` scripts, or the lines of any other linted file.
pub open spec fn file_findings(
    content: Seq<char>,
    is_package_json: bool,
    is_markdown: bool,
    bun_frozen_lockfile: bool,
    prefix: Seq<char>,
    suffix: Seq<char>,
) -> Seq<Finding> {
    if is_package_json {
        crate::parsers::package_json::package_json_findings(content, bun_frozen_lockfile)
    } else {
        line_file_findings(content, is_markdown, bun_frozen_lockfile, prefix, suffix)
    }
}

pub fn check_file(content: &str, lint_context: &LintContext, comment_style: &CommentStyle) -> (r: Vec<Violation>)
    ensures
        findings(r@) == file_findings(
            content@,
            lint_context.is_package_json,
            lint_context.is_markdown,
            lint_context.bun_frozen_lockfile,
            comment_style.prefix@,
            comment_style.suffix@,
        ),
{
    if lint_context.is_package_json {
        return crate::parsers::package_json::check_package_json(content, lint_context);
    }
    check_lines(content, lint_context, comment_style)
}

} // verus!
