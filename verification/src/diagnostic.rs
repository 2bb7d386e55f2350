use vstd::prelude::*;

use crate::context::git::GitIndexStatus;

verus! {

#[derive(Debug, Clone, Copy, PartialEq, Eq, Structural)]
pub enum Severity {
    Error,
    Warning,
}

/// The structured identity of a violation found by the rules or by the repository checks.
///
/// `rule_id` and `severity` are derived from the kind; the user-facing message is produced
/// by `crate::messages::violation_message`.
#[derive(Debug)]
pub enum ViolationKind {
    NpmInstallBare,
    NpmVersionPin,
    PnpmFrozenLockfile,
    PnpmVersionPin,
    YarnFrozenLockfile,
    YarnVersionPin,
    BunFrozenLockfile,
    BunVersionPin,
    MissingTrackedLockfile { candidates: Vec<String> },
    GitMetadataUnavailable(GitIndexStatus),
}

impl ViolationKind {
    pub open spec fn spec_rule_id(&self) -> Seq<char> {
        match self {
            ViolationKind::NpmInstallBare => "npm-install-bare"@,
            ViolationKind::NpmVersionPin => "npm-version-pin"@,
            ViolationKind::PnpmFrozenLockfile => "pnpm-frozen-lockfile"@,
            ViolationKind::PnpmVersionPin => "pnpm-version-pin"@,
            ViolationKind::YarnFrozenLockfile => "yarn-frozen-lockfile"@,
            ViolationKind::YarnVersionPin => "yarn-version-pin"@,
            ViolationKind::BunFrozenLockfile => "bun-frozen-lockfile"@,
            ViolationKind::BunVersionPin => "bun-version-pin"@,
            ViolationKind::MissingTrackedLockfile { .. } => "missing-tracked-lockfile"@,
            ViolationKind::GitMetadataUnavailable(_) => "git-metadata-unavailable"@,
        }
    }

    pub open spec fn spec_severity(&self) -> Severity {
        match self {
            ViolationKind::MissingTrackedLockfile { .. } => Severity::Warning,
            ViolationKind::GitMetadataUnavailable(_) => Severity::Warning,
            _ => Severity::Error,
        }
    }

    /// Stable identifier used for ignore-directive suppression and JSON output.
    pub fn rule_id(&self) -> (r: &'static str)
        ensures
            r@ == self.spec_rule_id(),
    {
        match self {
            ViolationKind::NpmInstallBare => "npm-install-bare",
            ViolationKind::NpmVersionPin => "npm-version-pin",
            ViolationKind::PnpmFrozenLockfile => "pnpm-frozen-lockfile",
            ViolationKind::PnpmVersionPin => "pnpm-version-pin",
            ViolationKind::YarnFrozenLockfile => "yarn-frozen-lockfile",
            ViolationKind::YarnVersionPin => "yarn-version-pin",
            ViolationKind::BunFrozenLockfile => "bun-frozen-lockfile",
            ViolationKind::BunVersionPin => "bun-version-pin",
            ViolationKind::MissingTrackedLockfile { .. } => "missing-tracked-lockfile",
            ViolationKind::GitMetadataUnavailable(_) => "git-metadata-unavailable",
        }
    }

    /// Whether this kind fails the run (error) or is informational (warning).
    pub fn severity(&self) -> (r: Severity)
        ensures
            r == self.spec_severity(),
    {
        match self {
            ViolationKind::MissingTrackedLockfile { .. } => Severity::Warning,
            ViolationKind::GitMetadataUnavailable(_) => Severity::Warning,
            _ => Severity::Error,
        }
    }
}

/// What a violation says, as plain values.
pub struct Finding {
    pub severity: Severity,
    pub rule_id: Option<Seq<char>>,
    pub message: Seq<char>,
    pub line_num: int,
    pub line_content: Seq<char>,
}

pub struct Violation {
    pub severity: Severity,
    pub rule_id: Option<String>,
    pub message: String,
    pub line_num: usize,
    pub line_content: String,
}

impl View for Violation {
    type V = Finding;

    open spec fn view(&self) -> Finding {
        Finding {
            severity: self.severity,
            rule_id: match self.rule_id {
                Some(id) => Some(id@),
                None => None,
            },
            message: self.message@,
            line_num: self.line_num as int,
            line_content: self.line_content@,
        }
    }
}

/// The finding that a violation of `kind` on line `line_num` holding `content` reports.
pub open spec fn finding(kind: ViolationKind, line_num: int, content: Seq<char>) -> Finding {
    Finding {
        severity: kind.spec_severity(),
        rule_id: Some(kind.spec_rule_id()),
        message: crate::messages::message(kind),
        line_num,
        line_content: content,
    }
}

/// The findings that a list of violations reports, in order.
pub open spec fn findings(v: Seq<Violation>) -> Seq<Finding> {
    v.map_values(|x: Violation| x@)
}

impl Violation {
    pub fn new(kind: ViolationKind, line_num: usize, line_content: String) -> (r: Self)
        ensures
            r@ == finding(kind, line_num as int, line_content@),
    {
        let message = crate::messages::violation_message(&kind);
        let rule_id = kind.rule_id().to_owned();
        Violation {
            severity: kind.severity(),
            rule_id: Some(rule_id),
            message,
            line_num,
            line_content,
        }
    }

    /// An error with a message of its own (used for scanner limits and unreadable inputs).
    pub fn error(line_num: usize, message: &str, line_content: &str, rule_id: &str) -> (r: Self)
        ensures
            r@ == (Finding {
                severity: Severity::Error,
                rule_id: Some(rule_id@),
                message: message@,
                line_num: line_num as int,
                line_content: line_content@,
            }),
    {
        Violation {
            severity: Severity::Error,
            rule_id: Some(rule_id.to_owned()),
            message: message.to_owned(),
            line_num,
            line_content: line_content.to_owned(),
        }
    }

    /// A file-level warning (it has no line number).
    pub fn warning(message: &str, line_content: &str, rule_id: &str) -> (r: Self)
        ensures
            r@ == (Finding {
                severity: Severity::Warning,
                rule_id: Some(rule_id@),
                message: message@,
                line_num: 0,
                line_content: line_content@,
            }),
    {
        Violation {
            severity: Severity::Warning,
            rule_id: Some(rule_id.to_owned()),
            message: message.to_owned(),
            line_num: 0,
            line_content: line_content.to_owned(),
        }
    }

    pub fn severity(&self) -> (r: Severity)
        ensures
            r == self.severity,
    {
        self.severity
    }

    /// The rule identifier, or the empty string for a violation that has none.
    pub fn rule_id(&self) -> (r: &str)
        ensures
            r@ == match self.rule_id {
                Some(id) => id@,
                None => Seq::<char>::empty(),
            },
    {
        match &self.rule_id {
            Some(id) => id.as_str(),
            None => {
                proof {
                    reveal_strlit("");
                }
                ""
            },
        }
    }
}

pub struct FileLintResult {
    pub path: String,
    pub violations: Vec<Violation>,
}

/// What a file's result reports, as plain values.
pub struct FileFindings {
    pub path: Seq<char>,
    pub findings: Seq<Finding>,
}

impl View for FileLintResult {
    type V = FileFindings;

    open spec fn view(&self) -> FileFindings {
        FileFindings { path: self.path@, findings: findings(self.violations@) }
    }
}

/// The reports of a list of file results, in order.
pub open spec fn file_views(v: Seq<FileLintResult>) -> Seq<FileFindings> {
    v.map_values(|x: FileLintResult| x@)
}

pub struct LintResult {
    pub results: Vec<FileLintResult>,
    pub violations_found: usize,
    pub warnings_found: usize,
    pub files_checked: usize,
}

} // verus!
