use locked_in::cli::{
    action_exit_code, effective_max_warnings, exit_code, parse_args, parse_usize, run_exit_code, summary_lines, CliAction, FailLevel,
    Options, OutputFormat, EXIT_FINDINGS, EXIT_SUCCESS,
};
use locked_in::context::git::GitIndexStatus;
use locked_in::messages::{severity_label, violation_message};
use locked_in::report::{plain_text, render_json, render_text, Color};
use locked_in::{FileLintResult, LintResult, Severity, Violation, ViolationKind};

fn sample() -> LintResult {
    let results = vec![FileLintResult {
        path: "Dockerfile".to_string(),
        violations: vec![
            Violation::error(2, "use npm ci", "RUN npm install", "npm-install-bare"),
            Violation::warning("missing lockfile", "package.json", "missing-tracked-lockfile"),
        ],
    }];
    LintResult { results, violations_found: 1, warnings_found: 1, files_checked: 1 }
}

fn text(quiet: bool) -> String {
    plain_text(&render_text(&sample().results, quiet))
}

fn args(list: &[&str]) -> Vec<String> {
    list.iter().map(|s| s.to_string()).collect()
}

fn usage_error(list: &[&str]) -> String {
    match parse_args(&args(list)) {
        CliAction::UsageError(message) => message,
        _ => panic!("expected a usage error"),
    }
}

#[test]
fn errors_always_fail_regardless_of_threshold() {
    assert_eq!(exit_code(1, 0, None), 1);
    assert_eq!(exit_code(3, 5, Some(10)), 1);
}

#[test]
fn warnings_fail_only_above_threshold() {
    assert_eq!(exit_code(0, 0, None), 0);
    assert_eq!(exit_code(0, 5, None), 0);
    assert_eq!(exit_code(0, 0, Some(0)), 0);
    assert_eq!(exit_code(0, 1, Some(0)), 1);
    assert_eq!(exit_code(0, 3, Some(3)), 0);
    assert_eq!(exit_code(0, 4, Some(3)), 1);
}

#[test]
fn fail_on_warning_is_equivalent_to_max_warnings_zero() {
    assert_eq!(effective_max_warnings(None, FailLevel::Warning), Some(0));
    assert_eq!(effective_max_warnings(None, FailLevel::Error), None);
    assert_eq!(effective_max_warnings(Some(5), FailLevel::Error), Some(5));
}

#[test]
fn strictest_threshold_wins_when_both_set() {
    assert_eq!(effective_max_warnings(Some(5), FailLevel::Warning), Some(0));
    assert_eq!(effective_max_warnings(Some(0), FailLevel::Error), Some(0));
}

#[test]
fn static_kind_message_is_exact() {
    assert_eq!(
        violation_message(&ViolationKind::NpmInstallBare),
        "Use 'npm ci' instead of 'npm install' for lockfile-based installations"
    );
}

#[test]
fn missing_lockfile_joins_candidates() {
    let kind = ViolationKind::MissingTrackedLockfile {
        candidates: vec!["a/package-lock.json".to_string(), "a/yarn.lock".to_string()],
    };
    assert_eq!(
        violation_message(&kind),
        "Tracked manifest is missing a tracked lockfile: a/package-lock.json, a/yarn.lock"
    );
}

#[test]
fn git_status_variants_each_have_a_message() {
    assert_eq!(
        violation_message(&ViolationKind::GitMetadataUnavailable(GitIndexStatus::MissingMetadata)),
        "Git metadata not found; skipping tracked lockfile validation"
    );
    assert_eq!(
        violation_message(&ViolationKind::GitMetadataUnavailable(GitIndexStatus::MissingIndex)),
        "Git index not found; skipping tracked lockfile validation"
    );
    assert_eq!(
        violation_message(&ViolationKind::GitMetadataUnavailable(GitIndexStatus::UnsupportedIndex)),
        "Git index could not be parsed; skipping tracked lockfile validation"
    );
}

#[test]
fn labels_match_severity() {
    assert_eq!(severity_label(Severity::Error), "Error");
    assert_eq!(severity_label(Severity::Warning), "Warning");
}

#[test]
fn text_shows_errors_and_warnings() {
    let out = text(false);
    assert!(out.contains("Error line 2:"));
    assert!(out.contains("Warning:"));
    assert!(out.contains("use npm ci"));
}

#[test]
fn text_quiet_drops_warning_lines() {
    let out = text(true);
    assert!(out.contains("Error line 2:"));
    assert!(!out.contains("Warning:"), "warnings suppressed: {out}");
}

#[test]
fn json_has_counts_and_per_file_violations() {
    let doc = render_json(&sample(), false);
    assert_eq!(doc.schema_version, 1);
    assert_eq!(doc.violations_found, 1);
    assert_eq!(doc.warnings_found, 1);
    assert_eq!(doc.files[0].path, "Dockerfile");
    let first = &doc.files[0].violations[0];
    assert_eq!(first.severity, "error");
    assert_eq!(first.line, Some(2));
    assert_eq!(first.rule_id.as_deref(), Some("npm-install-bare"));
}

#[test]
fn json_quiet_filters_warnings_but_keeps_counts() {
    let doc = render_json(&sample(), true);
    assert_eq!(doc.warnings_found, 1, "count reflects full scan");
    let severities: Vec<&str> = doc.files[0].violations.iter().map(|v| v.severity).collect();
    assert_eq!(severities, ["error"], "warnings filtered from arrays");
}

#[test]
fn json_omits_line_for_file_level_warnings() {
    let doc = render_json(&sample(), false);
    let warning = &doc.files[0].violations[1];
    assert_eq!(warning.severity, "warning");
    assert!(warning.line.is_none(), "no line for file-level warning");
}

#[test]
fn help_exits_without_scanning() {
    assert!(matches!(parse_args(&args(&["--help"])), CliAction::Help));
    assert!(matches!(parse_args(&args(&["-h"])), CliAction::Help));
    assert_eq!(action_exit_code(&parse_args(&args(&["--help"]))), Some(0));
    assert_eq!(action_exit_code(&parse_args(&args(&["-h"]))), Some(0));
}

#[test]
fn version_exits_without_scanning() {
    assert!(matches!(parse_args(&args(&["--version"])), CliAction::Version));
    assert_eq!(action_exit_code(&parse_args(&args(&["--version"]))), Some(0));
}

#[test]
fn unknown_option_returns_usage_error() {
    assert!(usage_error(&["--json"]).starts_with("Unknown option: --json\n\nUsage: locked-in"));
    assert_eq!(action_exit_code(&parse_args(&args(&["--json"]))), Some(2));
}

#[test]
fn invalid_flag_values_return_usage_error() {
    assert!(usage_error(&["--max-warnings", "nope"]).starts_with("Invalid value for --max-warnings: nope\n\n"));
    assert!(usage_error(&["--max-warnings"]).starts_with("Missing value for --max-warnings\n\n"));
    assert!(usage_error(&["--fail-on", "critical"])
        .starts_with("Invalid value for --fail-on: critical (expected 'error' or 'warning')\n\n"));
    assert!(usage_error(&["--fail-on"]).starts_with("Missing value for --fail-on\n\n"));
    assert!(usage_error(&["--format", "yaml"])
        .starts_with("Invalid value for --format: yaml (expected 'text' or 'json')\n\n"));
    assert!(usage_error(&["--format"]).starts_with("Missing value for --format\n\n"));
    for bad in [
        &["--max-warnings", "nope"][..],
        &["--max-warnings"],
        &["--fail-on", "critical"],
        &["--fail-on"],
        &["--format", "yaml"],
        &["--format"],
    ] {
        assert_eq!(action_exit_code(&parse_args(&args(bad))), Some(2));
    }
}

// ---------------------------------------------------------------------------
// Further cases
// ---------------------------------------------------------------------------

#[test]
fn options_are_read_in_both_forms() {
    match parse_args(&args(&["-q", "--max-warnings=3", "--fail-on", "warning", "--format=json", "--no-summary", "repo"])) {
        CliAction::Run(o) => {
            assert_eq!(o.root, "repo");
            assert!(o.quiet);
            assert!(o.no_summary);
            assert_eq!(o.max_warnings, Some(3));
            assert_eq!(o.fail_on, FailLevel::Warning);
            assert_eq!(o.format, OutputFormat::Json);
        }
        _ => panic!("expected a run"),
    }
    match parse_args(&args(&[])) {
        CliAction::Run(o) => {
            assert_eq!(o.root, ".");
            assert!(!o.quiet);
            assert_eq!(o.max_warnings, None);
            assert_eq!(o.fail_on, FailLevel::Error);
            assert_eq!(o.format, OutputFormat::Text);
        }
        _ => panic!("expected a run"),
    }
}

#[test]
fn extra_arguments_and_dashes_are_refused() {
    assert!(usage_error(&["a", "b"]).starts_with("Unexpected extra argument: b\n\n"));
    assert!(usage_error(&["-"]).starts_with("Unknown option: -\n\n"));
    assert!(matches!(parse_args(&args(&["--nope", "--help"])), CliAction::UsageError(_)));
    assert!(matches!(parse_args(&args(&["--help", "--nope"])), CliAction::Help));
}

#[test]
fn counts_parse_as_usize_does() {
    assert_eq!(parse_usize("0"), Some(0));
    assert_eq!(parse_usize("+12"), Some(12));
    assert_eq!(parse_usize("007"), Some(7));
    assert_eq!(parse_usize(""), None);
    assert_eq!(parse_usize("+"), None);
    assert_eq!(parse_usize("-1"), None);
    assert_eq!(parse_usize(" 1"), None);
    assert_eq!(parse_usize("1x"), None);
    assert_eq!(parse_usize(&usize::MAX.to_string()), Some(usize::MAX));
    assert_eq!(parse_usize("99999999999999999999999999"), None);
}

#[test]
fn exit_codes_are_the_documented_ones() {
    assert_eq!(EXIT_SUCCESS, 0);
    assert_eq!(EXIT_FINDINGS, 1);
    assert_eq!(locked_in::cli::EXIT_USAGE, 2);
}

#[test]
fn text_output_layout_and_colors() {
    let lines = render_text(&sample().results, false);
    assert_eq!(lines[0][0].color, Color::Red);
    assert_eq!(lines[0][0].text, "✗ Dockerfile");
    assert_eq!(
        plain_text(&lines),
        "✗ Dockerfile\n  Error line 2: use npm ci\n  > RUN npm install\n  Warning: missing lockfile\n  > package.json\n\n"
    );
}

#[test]
fn warning_only_files_have_a_yellow_header_and_vanish_when_quiet() {
    let results = vec![FileLintResult {
        path: "package.json".to_string(),
        violations: vec![Violation::warning("missing lockfile", "package.json", "missing-tracked-lockfile")],
    }];
    let lines = render_text(&results, false);
    assert_eq!(lines[0][0].color, Color::Yellow);
    assert_eq!(lines[0][0].text, "! package.json");
    assert!(render_text(&results, true).is_empty());
    let empty = vec![FileLintResult { path: "x".to_string(), violations: vec![] }];
    assert!(render_text(&empty, false).is_empty());
}

#[test]
fn summary_reports_success_and_failure() {
    let ok = plain_text(&summary_lines(0, 2, 7, None));
    assert!(ok.contains("✓ No violations found!\nWarnings: 2\nFiles checked: 7\n"));
    let failed = plain_text(&summary_lines(3, 1, 9, None));
    assert!(failed.contains("✗ Found 3 violation(s) and 1 warning(s) in 9 files\n"));
    let over = plain_text(&summary_lines(0, 4, 2, Some(1)));
    assert!(over.contains("✗ Found 0 violation(s) and 4 warning(s) in 2 files (warnings exceed --max-warnings 1)\n"));
    assert!(over.contains("Tip: "));
    assert!(plain_text(&summary_lines(0, 0, 1, None)).starts_with("\n═══"));
}

#[test]
fn actions_without_a_scan_have_their_exit_codes() {
    assert_eq!(action_exit_code(&parse_args(&args(&["--help"]))), Some(0));
    assert_eq!(action_exit_code(&parse_args(&args(&["-V"]))), Some(0));
    assert_eq!(action_exit_code(&parse_args(&args(&["--bogus"]))), Some(2));
    assert_eq!(action_exit_code(&parse_args(&args(&["."]))), None);
}

fn options(quiet: bool, no_summary: bool, format: OutputFormat, max_warnings: Option<usize>, fail_on: FailLevel) -> Options {
    Options { root: ".".to_string(), quiet, no_summary, max_warnings, fail_on, format }
}

fn counts(errors: usize, warnings: usize) -> LintResult {
    LintResult { results: Vec::new(), violations_found: errors, warnings_found: warnings, files_checked: 3 }
}

#[test]
fn output_options_keep_the_exit_code() {
    let warnings_only = counts(0, 4);
    for (quiet, no_summary, format) in [
        (false, false, OutputFormat::Text),
        (true, false, OutputFormat::Text),
        (false, true, OutputFormat::Text),
        (true, true, OutputFormat::Json),
    ] {
        assert_eq!(run_exit_code(&warnings_only, &options(quiet, no_summary, format, None, FailLevel::Error)), 0);
        assert_eq!(run_exit_code(&warnings_only, &options(quiet, no_summary, format, Some(3), FailLevel::Error)), 1);
        assert_eq!(run_exit_code(&warnings_only, &options(quiet, no_summary, format, Some(4), FailLevel::Error)), 0);
        assert_eq!(run_exit_code(&warnings_only, &options(quiet, no_summary, format, None, FailLevel::Warning)), 1);
        assert_eq!(run_exit_code(&counts(1, 0), &options(quiet, no_summary, format, None, FailLevel::Error)), 1);
        assert_eq!(run_exit_code(&counts(0, 0), &options(quiet, no_summary, format, Some(0), FailLevel::Warning)), 0);
    }
}
