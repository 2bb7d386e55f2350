use vstd::prelude::*;

use super::{line_findings, violations_of, RulePatterns};
use crate::diagnostic::{findings, Violation, ViolationKind};
use crate::pattern::{compile, is_match, regex_is_match};

verus! {

pub const NPM_INSTALL: &'static str = r"\bnpm\s+(install|i)(\s|$)";

pub const VERSION_PIN: &'static str = r"@[0-9]+\.[0-9]+";

pub const BARE_NPM_INSTALL: &'static str = r"\bnpm\s+(install|i)(\s+)?($|&&|;|\||#)";

/// What the npm rule reports, from what its patterns match on the line: an install
/// (`npm install` or `npm i`) without a version pin is reported, as `npm-install-bare`
/// when it has no arguments and as `npm-version-pin` otherwise. (`npm ci` is no install.)
pub open spec fn npm_kinds_of(install: bool, pin: bool, bare: bool) -> Seq<ViolationKind> {
    if install && !pin {
        if bare {
            seq![ViolationKind::NpmInstallBare]
        } else {
            seq![ViolationKind::NpmVersionPin]
        }
    } else {
        seq![]
    }
}

/// What the npm rule reports for a line.
pub open spec fn npm_kinds(line: Seq<char>) -> Seq<ViolationKind> {
    npm_kinds_of(
        regex_is_match(NPM_INSTALL@, line),
        regex_is_match(VERSION_PIN@, line),
        regex_is_match(BARE_NPM_INSTALL@, line),
    )
}

/// The npm rule's decision from what its patterns matched.
pub fn npm_kinds_from(install: bool, pin: bool, bare: bool) -> (r: Vec<ViolationKind>)
    ensures
        r@ == npm_kinds_of(install, pin, bare),
{
    let mut r: Vec<ViolationKind> = Vec::new();
    if install && !pin {
        if bare {
            r.push(ViolationKind::NpmInstallBare);
        } else {
            r.push(ViolationKind::NpmVersionPin);
        }
    }
    assert(r@ =~= npm_kinds_of(install, pin, bare));
    r
}

pub fn check_npm(line: &str, line_num: usize) -> (r: Vec<Violation>)
    ensures
        findings(r@) == line_findings(npm_kinds(line@), line_num as int, line@),
{
    check_npm_with(&RulePatterns::new(), line, line_num)
}

/// `check_npm` with the rules' patterns compiled beforehand.
pub fn check_npm_with(patterns: &RulePatterns, line: &str, line_num: usize) -> (r: Vec<Violation>)
    requires
        patterns.ready(),
    ensures
        findings(r@) == line_findings(npm_kinds(line@), line_num as int, line@),
{
    let install = is_match(&patterns.npm_install, line);
    let pin = is_match(&patterns.version_pin, line);
    let bare = is_match(&patterns.bare_npm_install, line);
    violations_of(npm_kinds_from(install, pin, bare), line, line_num)
}

/// Whether the line pins a version (`@1.2`).
pub fn has_version_pin(line: &str) -> (r: bool)
    ensures
        r == regex_is_match(VERSION_PIN@, line@),
{
    let version_pin = compile(VERSION_PIN);
    is_match(&version_pin, line)
}

} // verus!
