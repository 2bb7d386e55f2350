use vstd::prelude::*;

use crate::diagnostic::LintResult;
use crate::text::string_views;
use crate::report::{line_views, lines_views, Color, Span};
use crate::text::{chars_are, chars_of, decimal, decimal_string, starts_with, starts_with_str, string_of};

verus! {

// ---------------------------------------------------------------------------
// Exit codes, thresholds and texts of the command-line tool
// ---------------------------------------------------------------------------

pub const EXIT_SUCCESS: i32 = 0;

pub const EXIT_FINDINGS: i32 = 1;

pub const EXIT_USAGE: i32 = 2;

/// The exit code when standard output is closed early (as a shell reports `SIGPIPE`).
pub const EXIT_BROKEN_PIPE: i32 = 141;

/// The exit code when output cannot be written for another reason than a closed pipe
/// (`EX_IOERR`).
pub const EXIT_IO_ERROR: i32 = 74;

pub const USAGE: &'static str = "Usage: locked-in [OPTIONS] [PATH]\n\nLints package-manager commands for lockfile and version-pin safety.\n\nArguments:\n  PATH        Repository path to scan (default: current directory)\n\nOptions:\n  -q, --quiet            Suppress warning lines from output; errors and summary still print\n                         (e.g. locked-in --quiet .)\n      --max-warnings <N>  Exit non-zero if warning count exceeds N; default: unlimited\n                         (e.g. locked-in --max-warnings 0 .)\n      --fail-on <level>   Exit non-zero threshold: 'error' (default) or 'warning';\n                         '--fail-on warning' is equivalent to '--max-warnings 0'\n                         (e.g. locked-in --fail-on warning .)\n      --format <fmt>     Output format: 'text' (default) or 'json'\n                         (e.g. locked-in --format json .)\n      --no-summary       Skip the trailing summary block (text format only)\n                         (e.g. locked-in --no-summary .)\n  -h, --help             Show this help text\n  -V, --version          Show version\n\nFindings are written to stdout; progress and the summary are written to stderr.";

pub const DIVIDER: &'static str = "═══════════════════════════════════════";

/// The progress line printed before a text-format scan.
pub const PROGRESS: &'static str = "Checking for package manager violations...\n";

pub const TIP: &'static str = "Tip: use lockfiles/version pins plus dependency cooldowns (minimum release age) for defense in depth.";

#[derive(Debug, Clone, Copy, PartialEq, Eq, Structural)]
pub enum FailLevel {
    Error,
    Warning,
}

#[derive(Debug, Clone, Copy, PartialEq, Eq, Structural)]
pub enum OutputFormat {
    Text,
    Json,
}

/// The warning threshold that `--max-warnings` and `--fail-on` give together: `--fail-on
/// warning` stands for a threshold of 0, and of two thresholds the lower one holds.
pub open spec fn threshold(max_warnings: Option<usize>, fail_on: FailLevel) -> Option<usize> {
    let from_fail_on: Option<usize> = if fail_on == FailLevel::Warning { Some(0) } else { None };
    match (max_warnings, from_fail_on) {
        (Some(a), Some(b)) => Some(if a <= b { a } else { b }),
        (Some(a), None) => Some(a),
        (None, b) => b,
    }
}

pub fn effective_max_warnings(max_warnings: Option<usize>, fail_on: FailLevel) -> (r: Option<usize>)
    ensures
        r == threshold(max_warnings, fail_on),
{
    let from_fail_on: Option<usize> = match fail_on {
        FailLevel::Warning => Some(0),
        FailLevel::Error => None,
    };
    match (max_warnings, from_fail_on) {
        (Some(a), Some(b)) => Some(if a <= b { a } else { b }),
        (Some(a), None) => Some(a),
        (None, b) => b,
    }
}

/// A run fails when it found an error, or more warnings than the threshold allows.
pub open spec fn fails(errors: usize, warnings: usize, max_warnings: Option<usize>) -> bool {
    errors > 0 || (max_warnings matches Some(max) && warnings > max)
}

pub fn exit_code(errors: usize, warnings: usize, max_warnings: Option<usize>) -> (r: i32)
    ensures
        r == if fails(errors, warnings, max_warnings) { EXIT_FINDINGS } else { EXIT_SUCCESS },
{
    let over = match max_warnings {
        Some(max) => warnings > max,
        None => false,
    };
    if errors > 0 || over {
        EXIT_FINDINGS
    } else {
        EXIT_SUCCESS
    }
}

// ---------------------------------------------------------------------------
// The summary after a text-format scan
// ---------------------------------------------------------------------------

/// The summary block: a blank line and the divider, then either the success lines (with
/// the warning count when there are warnings) or the failure line and a tip.
pub open spec fn summary(errors: usize, warnings: usize, files: usize, max_warnings: Option<usize>) -> Seq<Seq<(Color, Seq<char>)>> {
    let head = seq![Seq::empty(), seq![(Color::Blue, DIVIDER@)]];
    if !fails(errors, warnings, max_warnings) {
        let warn: Seq<Seq<(Color, Seq<char>)>> = if warnings > 0 {
            seq![seq![(Color::Yellow, "Warnings: "@ + decimal(warnings as nat))]]
        } else {
            Seq::empty()
        };
        head + seq![seq![(Color::Green, "✓ No violations found!"@)]] + warn + seq![
            seq![(Color::Blue, "Files checked: "@ + decimal(files as nat))],
        ]
    } else {
        let suffix = if errors == 0 {
            " (warnings exceed --max-warnings "@ + decimal(
                match max_warnings {
                    Some(m) => m as nat,
                    None => 0nat,
                },
            ) + ")"@
        } else {
            Seq::empty()
        };
        head + seq![
            seq![
                (
                    Color::Red,
                    "✗ Found "@ + decimal(errors as nat) + " violation(s) and "@ + decimal(warnings as nat)
                        + " warning(s) in "@ + decimal(files as nat) + " files"@ + suffix,
                ),
            ],
            seq![(Color::Blue, TIP@)],
            Seq::empty(),
        ]
    }
}

fn one_span_line(color: Color, text: String) -> (r: Vec<Span>)
    ensures
        line_views(r@) == seq![(color, text@)],
{
    let line = vec![Span { color, text }];
    assert(line_views(line@) =~= seq![(color, text@)]);
    line
}

fn labelled_count(label: &str, n: usize) -> (r: String)
    ensures
        r@ == label@ + decimal(n as nat),
{
    let mut r = label.to_owned();
    let digits = decimal_string(n);
    r.append(digits.as_str());
    r
}

/// The summary block after a text-format scan, as lines of colored pieces.
pub fn summary_lines(errors: usize, warnings: usize, files: usize, max_warnings: Option<usize>) -> (r: Vec<Vec<Span>>)
    ensures
        lines_views(r@) == summary(errors, warnings, files, max_warnings),
{
    let mut out: Vec<Vec<Span>> = Vec::new();
    let blank: Vec<Span> = Vec::new();
    assert(line_views(blank@) =~= Seq::<(Color, Seq<char>)>::empty());
    out.push(blank);
    out.push(one_span_line(Color::Blue, DIVIDER.to_owned()));
    let ghost head = lines_views(out@);
    assert(head =~= seq![Seq::empty(), seq![(Color::Blue, DIVIDER@)]]);
    if exit_code(errors, warnings, max_warnings) == EXIT_SUCCESS {
        out.push(one_span_line(Color::Green, "✓ No violations found!".to_owned()));
        let ghost mid = lines_views(out@);
        if warnings > 0 {
            out.push(one_span_line(Color::Yellow, labelled_count("Warnings: ", warnings)));
        }
        let ghost before_files = lines_views(out@);
        out.push(one_span_line(Color::Blue, labelled_count("Files checked: ", files)));
        assert(lines_views(out@) =~= summary(errors, warnings, files, max_warnings));
        return out;
    }
    let mut text = labelled_count("✗ Found ", errors);
    let w = labelled_count(" violation(s) and ", warnings);
    text.append(w.as_str());
    let f = labelled_count(" warning(s) in ", files);
    text.append(f.as_str());
    text.append(" files");
    if errors == 0 {
        let m = match max_warnings {
            Some(m) => m,
            None => 0,
        };
        let s = labelled_count(" (warnings exceed --max-warnings ", m);
        text.append(s.as_str());
        text.append(")");
    }
    proof {
        let suffix = if errors == 0 {
            " (warnings exceed --max-warnings "@ + decimal(
                match max_warnings {
                    Some(m) => m as nat,
                    None => 0nat,
                },
            ) + ")"@
        } else {
            Seq::empty()
        };
        assert(text@ =~= "✗ Found "@ + decimal(errors as nat) + " violation(s) and "@ + decimal(warnings as nat)
            + " warning(s) in "@ + decimal(files as nat) + " files"@ + suffix);
    }
    out.push(one_span_line(Color::Red, text));
    out.push(one_span_line(Color::Blue, TIP.to_owned()));
    let end: Vec<Span> = Vec::new();
    assert(line_views(end@) =~= Seq::<(Color, Seq<char>)>::empty());
    out.push(end);
    assert(lines_views(out@) =~= summary(errors, warnings, files, max_warnings));
    out
}


// ---------------------------------------------------------------------------
// Command-line arguments
// ---------------------------------------------------------------------------

/// The value of a decimal number written with ASCII digits.
pub open spec fn digits_value(d: Seq<char>) -> nat
    decreases d.len(),
{
    if d.len() == 0 {
        0
    } else {
        digits_value(d.drop_last()) * 10 + (d.last() as nat - '0' as nat) as nat
    }
}

pub open spec fn all_digits(d: Seq<char>) -> bool {
    forall|i: int| 0 <= i < d.len() ==> '0' <= #[trigger] d[i] <= '9'
}

/// What `usize`'s `from_str` accepts: an optional `+`, then one or more ASCII digits whose
/// value fits in `usize`.
pub open spec fn parsed_usize(s: Seq<char>) -> Option<usize> {
    let d = if s.len() > 0 && s[0] == '+' { s.drop_first() } else { s };
    if d.len() > 0 && all_digits(d) && digits_value(d) <= usize::MAX {
        Some(digits_value(d) as usize)
    } else {
        None
    }
}

proof fn lemma_digits_value_grows(d: Seq<char>, j: int, k: int)
    requires
        0 <= j <= k <= d.len(),
        all_digits(d),
    ensures
        digits_value(d.take(j)) <= digits_value(d.take(k)),
    decreases k - j,
{
    if j < k {
        lemma_digits_value_grows(d, j, k - 1);
        assert(d.take(k).drop_last() =~= d.take(k - 1));
        assert(d.take(k).last() == d[k - 1]);
        assert('0' <= d[k - 1] <= '9');
    }
}

/// Parses a count as `usize`'s `from_str` does.
pub fn parse_usize(s: &str) -> (r: Option<usize>)
    ensures
        r == parsed_usize(s@),
{
    let c = chars_of(s);
    let start: usize = if c.len() > 0 && c[0] == '+' { 1 } else { 0 };
    let ghost d = if s@.len() > 0 && s@[0] == '+' { s@.drop_first() } else { s@ };
    assert(d =~= c@.skip(start as int));
    if start == c.len() {
        assert(d.len() == 0);
        return None;
    }
    let mut n: usize = 0;
    let mut i: usize = start;
    assert(d.take(0) =~= Seq::<char>::empty());
    while i < c.len()
        invariant
            start <= i <= c.len(),
            d == c@.skip(start as int),
            d == (if s@.len() > 0 && s@[0] == '+' { s@.drop_first() } else { s@ }),
            d.len() == c.len() - start,
            forall|q: int| 0 <= q < i - start ==> '0' <= #[trigger] d[q] <= '9',
            n == digits_value(d.take(i - start)),
        decreases c.len() - i,
    {
        let ch = c[i];
        assert(d[i - start] == ch);
        if !('0' <= ch && ch <= '9') {
            assert(!all_digits(d));
            return None;
        }
        let ghost k = i - start;
        assert(d.take(k + 1).drop_last() =~= d.take(k));
        assert(d.take(k + 1).last() == ch);
        let digit = (ch as u32 - '0' as u32) as usize;
        assert(digit as nat == (ch as nat - '0' as nat) as nat);
        assert(digits_value(d.take(k + 1)) == n * 10 + digit);
        let next = match n.checked_mul(10) {
            Some(m) => m.checked_add(digit),
            None => None,
        };
        match next {
            Some(m) => {
                n = m;
            },
            None => {
                proof {
                    assert(digits_value(d.take(k + 1)) > usize::MAX);
                    if all_digits(d) {
                        lemma_digits_value_grows(d, k + 1, d.len() as int);
                        assert(d.take(d.len() as int) =~= d);
                    }
                }
                return None;
            },
        }
        i += 1;
    }
    assert(d.take(d.len() as int) =~= d);
    assert(all_digits(d));
    Some(n)
}

/// The text of an optional string.
pub open spec fn opt_text(o: Option<String>) -> Option<Seq<char>> {
    match o {
        Some(p) => Some(p@),
        None => None,
    }
}

/// The command line as plain values: the path to scan when one was given, and the options.
pub struct Settings {
    pub root: Option<Seq<char>>,
    pub quiet: bool,
    pub no_summary: bool,
    pub max_warnings: Option<usize>,
    pub fail_on: FailLevel,
    pub format: OutputFormat,
}

/// What a command line asks for: a scan, the help text, the version, or nothing but an
/// error message (a usage error).
pub enum Parsed {
    Run(Settings),
    Help,
    Version,
    Usage(Seq<char>),
}

pub open spec fn initial_settings() -> Settings {
    Settings {
        root: None,
        quiet: false,
        no_summary: false,
        max_warnings: None,
        fail_on: FailLevel::Error,
        format: OutputFormat::Text,
    }
}

pub open spec fn usage_error(message: Seq<char>) -> Parsed {
    Parsed::Usage(message + "\n\n"@ + USAGE@)
}

/// The value of a flag at `args[i]`: what follows `flag=` in the same argument, or else
/// the next argument; with the index after the value.
pub open spec fn flag_value(args: Seq<Seq<char>>, i: int, flag: Seq<char>) -> Option<(Seq<char>, int)> {
    let eq = flag + "="@;
    if starts_with(args[i], eq) {
        Some((args[i].skip(eq.len() as int), i + 1))
    } else if i + 1 < args.len() {
        Some((args[i + 1], i + 2))
    } else {
        None
    }
}

pub open spec fn flag_at(arg: Seq<char>, flag: Seq<char>) -> bool {
    arg == flag || starts_with(arg, flag + "="@)
}

/// The command line from `args[i]` on, with `st` read from the arguments before it.
pub open spec fn parse_from(args: Seq<Seq<char>>, i: int, st: Settings) -> Parsed
    decreases args.len() - i,
{
    if i < 0 || i >= args.len() {
        Parsed::Run(st)
    } else {
        let arg = args[i];
        if arg == "-h"@ || arg == "--help"@ {
            Parsed::Help
        } else if arg == "-V"@ || arg == "--version"@ {
            Parsed::Version
        } else if arg == "-q"@ || arg == "--quiet"@ {
            parse_from(args, i + 1, Settings { quiet: true, ..st })
        } else if arg == "--no-summary"@ {
            parse_from(args, i + 1, Settings { no_summary: true, ..st })
        } else if flag_at(arg, "--max-warnings"@) {
            match flag_value(args, i, "--max-warnings"@) {
                None => usage_error("Missing value for --max-warnings"@),
                Some((v, next)) => match parsed_usize(v) {
                    None => usage_error("Invalid value for --max-warnings: "@ + v),
                    Some(n) => parse_from(args, next, Settings { max_warnings: Some(n), ..st }),
                },
            }
        } else if flag_at(arg, "--fail-on"@) {
            match flag_value(args, i, "--fail-on"@) {
                None => usage_error("Missing value for --fail-on"@),
                Some((v, next)) => if v == "error"@ {
                    parse_from(args, next, Settings { fail_on: FailLevel::Error, ..st })
                } else if v == "warning"@ {
                    parse_from(args, next, Settings { fail_on: FailLevel::Warning, ..st })
                } else {
                    usage_error("Invalid value for --fail-on: "@ + v + " (expected 'error' or 'warning')"@)
                },
            }
        } else if flag_at(arg, "--format"@) {
            match flag_value(args, i, "--format"@) {
                None => usage_error("Missing value for --format"@),
                Some((v, next)) => if v == "text"@ {
                    parse_from(args, next, Settings { format: OutputFormat::Text, ..st })
                } else if v == "json"@ {
                    parse_from(args, next, Settings { format: OutputFormat::Json, ..st })
                } else {
                    usage_error("Invalid value for --format: "@ + v + " (expected 'text' or 'json')"@)
                },
            }
        } else if starts_with(arg, "-"@) {
            usage_error("Unknown option: "@ + arg)
        } else if st.root is Some {
            usage_error("Unexpected extra argument: "@ + arg)
        } else {
            parse_from(args, i + 1, Settings { root: Some(arg), ..st })
        }
    }
}

/// The options of a scan.
pub struct Options {
    pub root: String,
    pub quiet: bool,
    pub no_summary: bool,
    pub max_warnings: Option<usize>,
    pub fail_on: FailLevel,
    pub format: OutputFormat,
}

/// What the command line asks the tool to do.
pub enum CliAction {
    Run(Options),
    Help,
    Version,
    UsageError(String),
}

/// `action` is what `parsed` asks for; a scan without a path scans `.`.
pub open spec fn action_is(action: CliAction, parsed: Parsed) -> bool {
    match (action, parsed) {
        (CliAction::Run(o), Parsed::Run(st)) => {
            &&& o.root@ == match st.root {
                Some(p) => p,
                None => "."@,
            }
            &&& o.quiet == st.quiet
            &&& o.no_summary == st.no_summary
            &&& o.max_warnings == st.max_warnings
            &&& o.fail_on == st.fail_on
            &&& o.format == st.format
        },
        (CliAction::Help, Parsed::Help) => true,
        (CliAction::Version, Parsed::Version) => true,
        (CliAction::UsageError(m), Parsed::Usage(pm)) => m@ == pm,
        _ => false,
    }
}

fn usage_text(message: &str) -> (r: String)
    ensures
        r@ == message@ + "\n\n"@ + USAGE@,
{
    let mut r = message.to_owned();
    r.append("\n\n");
    r.append(USAGE);
    r
}

fn usage_with(message: &str, value: &str) -> (r: String)
    ensures
        r@ == message@ + value@ + "\n\n"@ + USAGE@,
{
    let mut r = message.to_owned();
    r.append(value);
    r.append("\n\n");
    r.append(USAGE);
    r
}

fn usage_message(parts: &str, value: &str, tail: &str) -> (r: String)
    ensures
        r@ == parts@ + value@ + tail@ + "\n\n"@ + USAGE@,
{
    let mut r = parts.to_owned();
    r.append(value);
    r.append(tail);
    r.append("\n\n");
    r.append(USAGE);
    r
}

/// The value of the flag at `args[i]` and the index after it (`flag_eq` is the flag
/// followed by `=`).
fn take_value(args: &Vec<String>, i: usize, flag: &str, flag_eq: &str) -> (r: Option<(String, usize)>)
    requires
        i < args.len(),
        flag_eq@ == flag@ + "="@,
    ensures
        match r {
            Some((v, next)) => flag_value(string_views(args@), i as int, flag@) == Some((v@, next as int)),
            None => flag_value(string_views(args@), i as int, flag@) is None,
        },
{
    let a = chars_of(args[i].as_str());
    assert(string_views(args@)[i as int] == a@);
    let eq = chars_of(flag_eq);
    if crate::text::starts_with_chars(a.as_slice(), eq.as_slice()) {
        let rest = crate::text::copy_range(a.as_slice(), eq.len(), a.len());
        assert(rest@ =~= a@.skip(eq.len() as int));
        return Some((string_of(rest.as_slice()), i + 1));
    }
    if i + 1 < args.len() {
        assert(string_views(args@)[i + 1] == args@[i + 1]@);
        return Some((args[i + 1].clone(), i + 2));
    }
    None
}

/// Reads the command line (without the program's name).
pub fn parse_args(args: &Vec<String>) -> (r: CliAction)
    ensures
        action_is(r, parse_from(string_views(args@), 0, initial_settings())),
{
    let ghost av = string_views(args@);
    let mut root: Option<String> = None;
    let mut quiet = false;
    let mut no_summary = false;
    let mut max_warnings: Option<usize> = None;
    let mut fail_on = FailLevel::Error;
    let mut format = OutputFormat::Text;
    let mut i: usize = 0;
    proof {
        reveal_strlit("-h");
        reveal_strlit("--help");
        reveal_strlit("-V");
        reveal_strlit("--version");
        reveal_strlit("-q");
        reveal_strlit("--quiet");
        reveal_strlit("--no-summary");
        reveal_strlit("--max-warnings");
        reveal_strlit("--max-warnings=");
        reveal_strlit("--fail-on");
        reveal_strlit("--fail-on=");
        reveal_strlit("--format");
        reveal_strlit("--format=");
        reveal_strlit("=");
        reveal_strlit("-");
        reveal_strlit("");
        assert("--max-warnings="@ =~= "--max-warnings"@ + "="@);
        assert("--fail-on="@ =~= "--fail-on"@ + "="@);
        assert("--format="@ =~= "--format"@ + "="@);
    }
    while i < args.len()
        invariant
            i <= args.len(),
            av == string_views(args@),
            "--max-warnings="@ == "--max-warnings"@ + "="@,
            "--fail-on="@ == "--fail-on"@ + "="@,
            "--format="@ == "--format"@ + "="@,
            parse_from(av, 0, initial_settings()) == parse_from(
                av,
                i as int,
                Settings {
                    root: opt_text(root),
                    quiet,
                    no_summary,
                    max_warnings,
                    fail_on,
                    format,
                },
            ),
        decreases args.len() - i,
    {
        let ghost st = Settings {
            root: opt_text(root),
            quiet,
            no_summary,
            max_warnings,
            fail_on,
            format,
        };
        let a = chars_of(args[i].as_str());
        assert(av[i as int] == a@);
        let s = a.as_slice();
        if chars_are(s, "-h") || chars_are(s, "--help") {
            return CliAction::Help;
        } else if chars_are(s, "-V") || chars_are(s, "--version") {
            return CliAction::Version;
        } else if chars_are(s, "-q") || chars_are(s, "--quiet") {
            quiet = true;
            i += 1;
        } else if chars_are(s, "--no-summary") {
            no_summary = true;
            i += 1;
        } else if chars_are(s, "--max-warnings") || starts_with_str(s, "--max-warnings=") {
            match take_value(args, i, "--max-warnings", "--max-warnings=") {
                None => {
                    return CliAction::UsageError(usage_text("Missing value for --max-warnings"));
                },
                Some((v, next)) => match parse_usize(v.as_str()) {
                    None => {
                        return CliAction::UsageError(usage_with("Invalid value for --max-warnings: ", v.as_str()));
                    },
                    Some(n) => {
                        max_warnings = Some(n);
                        i = next;
                    },
                },
            }
        } else if chars_are(s, "--fail-on") || starts_with_str(s, "--fail-on=") {
            match take_value(args, i, "--fail-on", "--fail-on=") {
                None => {
                    return CliAction::UsageError(usage_text("Missing value for --fail-on"));
                },
                Some((v, next)) => {
                    let vc = chars_of(v.as_str());
                    if chars_are(vc.as_slice(), "error") {
                        fail_on = FailLevel::Error;
                        i = next;
                    } else if chars_are(vc.as_slice(), "warning") {
                        fail_on = FailLevel::Warning;
                        i = next;
                    } else {
                        return CliAction::UsageError(
                            usage_message("Invalid value for --fail-on: ", v.as_str(), " (expected 'error' or 'warning')"),
                        );
                    }
                },
            }
        } else if chars_are(s, "--format") || starts_with_str(s, "--format=") {
            match take_value(args, i, "--format", "--format=") {
                None => {
                    return CliAction::UsageError(usage_text("Missing value for --format"));
                },
                Some((v, next)) => {
                    let vc = chars_of(v.as_str());
                    if chars_are(vc.as_slice(), "text") {
                        format = OutputFormat::Text;
                        i = next;
                    } else if chars_are(vc.as_slice(), "json") {
                        format = OutputFormat::Json;
                        i = next;
                    } else {
                        return CliAction::UsageError(
                            usage_message("Invalid value for --format: ", v.as_str(), " (expected 'text' or 'json')"),
                        );
                    }
                },
            }
        } else if starts_with_str(s, "-") {
            return CliAction::UsageError(usage_with("Unknown option: ", args[i].as_str()));
        } else if root.is_some() {
            return CliAction::UsageError(usage_with("Unexpected extra argument: ", args[i].as_str()));
        } else {
            root = Some(args[i].clone());
            i += 1;
        }
    }
    let root_text = match root {
        Some(p) => p,
        None => ".".to_owned(),
    };
    CliAction::Run(Options { root: root_text, quiet, no_summary, max_warnings, fail_on, format })
}

/// The exit code of a command line that asks for no scan: success after the help text or
/// the version, the usage code after an error; none when a scan is to run.
pub fn action_exit_code(action: &CliAction) -> (r: Option<i32>)
    ensures
        r == match action {
            CliAction::Run(_) => None,
            CliAction::Help => Some(EXIT_SUCCESS),
            CliAction::Version => Some(EXIT_SUCCESS),
            CliAction::UsageError(_) => Some(EXIT_USAGE),
        },
{
    match action {
        CliAction::Run(_) => None,
        CliAction::Help => Some(EXIT_SUCCESS),
        CliAction::Version => Some(EXIT_SUCCESS),
        CliAction::UsageError(_) => Some(EXIT_USAGE),
    }
}

/// The exit code of a scan: it fails on the errors and warnings found, against the
/// threshold that `--max-warnings` and `--fail-on` set.
pub open spec fn run_exit(result: LintResult, options: Options) -> i32 {
    if fails(result.violations_found, result.warnings_found, threshold(options.max_warnings, options.fail_on)) {
        EXIT_FINDINGS
    } else {
        EXIT_SUCCESS
    }
}

/// The exit code of a scan with these options that found `result`.
pub fn run_exit_code(result: &LintResult, options: &Options) -> (r: i32)
    ensures
        r == run_exit(*result, *options),
{
    let max = effective_max_warnings(options.max_warnings, options.fail_on);
    exit_code(result.violations_found, result.warnings_found, max)
}

} // verus!
