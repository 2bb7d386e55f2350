use vstd::prelude::*;

use super::npm::VERSION_PIN;
use super::{line_findings, violations_of, RulePatterns};
use crate::diagnostic::{findings, Violation, ViolationKind};
use crate::pattern::{is_match, regex_is_match};

verus! {

pub const YARN_INSTALL: &'static str = r"\byarn(\s+install)?(\s+)?($|&&|;|\||#)";

pub const YARN_FROZEN: &'static str = r"--(frozen-lockfile|immutable)";

pub const YARN_ADD: &'static str = r"\byarn\s+(global\s+)?add\s";

/// What the yarn rule reports, from what its patterns match on the line:
/// `yarn-frozen-lockfile` for an install without `--frozen-lockfile` or `--immutable`,
/// then `yarn-version-pin` for an add without a version pin.
pub open spec fn yarn_kinds_of(install: bool, frozen: bool, add: bool, pin: bool) -> Seq<ViolationKind> {
    (if install && !frozen {
        seq![ViolationKind::YarnFrozenLockfile]
    } else {
        seq![]
    }) + (if add && !pin {
        seq![ViolationKind::YarnVersionPin]
    } else {
        seq![]
    })
}

/// What the yarn rule reports for a line.
pub open spec fn yarn_kinds(line: Seq<char>) -> Seq<ViolationKind> {
    yarn_kinds_of(
        regex_is_match(YARN_INSTALL@, line),
        regex_is_match(YARN_FROZEN@, line),
        regex_is_match(YARN_ADD@, line),
        regex_is_match(VERSION_PIN@, line),
    )
}

/// The yarn rule's decision from what its patterns matched.
pub fn yarn_kinds_from(install: bool, frozen: bool, add: bool, pin: bool) -> (r: Vec<ViolationKind>)
    ensures
        r@ == yarn_kinds_of(install, frozen, add, pin),
{
    let mut r: Vec<ViolationKind> = Vec::new();
    if install && !frozen {
        r.push(ViolationKind::YarnFrozenLockfile);
    }
    if add && !pin {
        r.push(ViolationKind::YarnVersionPin);
    }
    assert(r@ =~= yarn_kinds_of(install, frozen, add, pin));
    r
}

pub fn check_yarn(line: &str, line_num: usize) -> (r: Vec<Violation>)
    ensures
        findings(r@) == line_findings(yarn_kinds(line@), line_num as int, line@),
{
    check_yarn_with(&RulePatterns::new(), line, line_num)
}

/// `check_yarn` with the rules' patterns compiled beforehand.
pub fn check_yarn_with(patterns: &RulePatterns, line: &str, line_num: usize) -> (r: Vec<Violation>)
    requires
        patterns.ready(),
    ensures
        findings(r@) == line_findings(yarn_kinds(line@), line_num as int, line@),
{
    let install = is_match(&patterns.yarn_install, line);
    let frozen = is_match(&patterns.yarn_frozen, line);
    let add = is_match(&patterns.yarn_add, line);
    let pin = is_match(&patterns.version_pin, line);
    violations_of(yarn_kinds_from(install, frozen, add, pin), line, line_num)
}

} // verus!
