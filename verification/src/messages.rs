use vstd::prelude::*;

use crate::context::git::GitIndexStatus;
use crate::diagnostic::{Severity, ViolationKind};

use crate::text::string_views;

verus! {

/// The parts joined by `sep` (`[String]::join`).
pub open spec fn join(parts: Seq<Seq<char>>, sep: Seq<char>) -> Seq<char>
    decreases parts.len(),
{
    if parts.len() == 0 {
        Seq::empty()
    } else if parts.len() == 1 {
        parts[0]
    } else {
        join(parts.drop_last(), sep) + sep + parts.last()
    }
}


/// `parts` joined by `sep`.
pub fn join_strings(parts: &Vec<String>, sep: &str) -> (r: String)
    ensures
        r@ == join(string_views(parts@), sep@),
{
    let mut r = String::new();
    let ghost views = string_views(parts@);
    let mut i: usize = 0;
    while i < parts.len()
        invariant
            i <= parts.len(),
            views == string_views(parts@),
            r@ == join(views.take(i as int), sep@),
        decreases parts.len() - i,
    {
        if i != 0 {
            r.append(sep);
        }
        r.append(parts[i].as_str());
        proof {
            assert(views.take(i + 1).drop_last() == views.take(i as int));
        }
        i += 1;
    }
    assert(views.take(parts.len() as int) == views);
    r
}

pub open spec fn status_message(status: GitIndexStatus) -> Seq<char> {
    match status {
        GitIndexStatus::MissingMetadata => "Git metadata not found; skipping tracked lockfile validation"@,
        GitIndexStatus::MissingIndex => "Git index not found; skipping tracked lockfile validation"@,
        GitIndexStatus::ExceedsLimits => "Git index exceeds safe resource limits; skipping tracked lockfile validation"@,
        GitIndexStatus::UnsupportedIndex => "Git index could not be parsed; skipping tracked lockfile validation"@,
    }
}

/// The human-readable message of each kind of violation.
pub open spec fn message(kind: ViolationKind) -> Seq<char> {
    match kind {
        ViolationKind::NpmInstallBare => "Use 'npm ci' instead of 'npm install' for lockfile-based installations"@,
        ViolationKind::NpmVersionPin => "npm package installation without version pin (use 'npm i package@version')"@,
        ViolationKind::PnpmFrozenLockfile => "Use 'pnpm install --frozen-lockfile' to respect lockfile"@,
        ViolationKind::PnpmVersionPin => "pnpm package installation without version pin (use 'pnpm add package@version')"@,
        ViolationKind::YarnFrozenLockfile => "Use 'yarn install --frozen-lockfile' to respect lockfile"@,
        ViolationKind::YarnVersionPin => "yarn package installation without version pin (use 'yarn add package@version')"@,
        ViolationKind::BunFrozenLockfile => "Use 'bun install --frozen-lockfile' unless repo-local bunfig.toml sets '[install].frozenLockfile = true' (https://bun.com/docs/runtime/bunfig#install-frozenlockfile)"@,
        ViolationKind::BunVersionPin => "bun package installation without version pin (use 'bun add package@version')"@,
        ViolationKind::MissingTrackedLockfile { candidates } => "Tracked manifest is missing a tracked lockfile: "@
            + join(string_views(candidates@), ", "@),
        ViolationKind::GitMetadataUnavailable(status) => status_message(status),
    }
}

fn status_text(status: GitIndexStatus) -> (r: &'static str)
    ensures
        r@ == status_message(status),
{
    match status {
        GitIndexStatus::MissingMetadata => "Git metadata not found; skipping tracked lockfile validation",
        GitIndexStatus::MissingIndex => "Git index not found; skipping tracked lockfile validation",
        GitIndexStatus::ExceedsLimits => "Git index exceeds safe resource limits; skipping tracked lockfile validation",
        GitIndexStatus::UnsupportedIndex => "Git index could not be parsed; skipping tracked lockfile validation",
    }
}

/// The human-readable message for a violation.
pub fn violation_message(kind: &ViolationKind) -> (r: String)
    ensures
        r@ == message(*kind),
{
    match kind {
        ViolationKind::NpmInstallBare => "Use 'npm ci' instead of 'npm install' for lockfile-based installations".to_owned(),
        ViolationKind::NpmVersionPin => "npm package installation without version pin (use 'npm i package@version')".to_owned(),
        ViolationKind::PnpmFrozenLockfile => "Use 'pnpm install --frozen-lockfile' to respect lockfile".to_owned(),
        ViolationKind::PnpmVersionPin => "pnpm package installation without version pin (use 'pnpm add package@version')".to_owned(),
        ViolationKind::YarnFrozenLockfile => "Use 'yarn install --frozen-lockfile' to respect lockfile".to_owned(),
        ViolationKind::YarnVersionPin => "yarn package installation without version pin (use 'yarn add package@version')".to_owned(),
        ViolationKind::BunFrozenLockfile => "Use 'bun install --frozen-lockfile' unless repo-local bunfig.toml sets '[install].frozenLockfile = true' (https://bun.com/docs/runtime/bunfig#install-frozenlockfile)".to_owned(),
        ViolationKind::BunVersionPin => "bun package installation without version pin (use 'bun add package@version')".to_owned(),
        ViolationKind::MissingTrackedLockfile { candidates } => {
            let mut r = "Tracked manifest is missing a tracked lockfile: ".to_owned();
            let joined = join_strings(candidates, ", ");
            r.append(joined.as_str());
            r
        },
        ViolationKind::GitMetadataUnavailable(status) => status_text(*status).to_owned(),
    }
}

pub open spec fn label(severity: Severity) -> Seq<char> {
    match severity {
        Severity::Error => "Error"@,
        Severity::Warning => "Warning"@,
    }
}

/// Human-facing severity label used in text output.
pub fn severity_label(severity: Severity) -> (r: &'static str)
    ensures
        r@ == label(severity),
{
    match severity {
        Severity::Error => "Error",
        Severity::Warning => "Warning",
    }
}

} // verus!
