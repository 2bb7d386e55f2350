use vstd::prelude::*;

use super::npm::VERSION_PIN;
use super::{line_findings, violations_of, RulePatterns};
use crate::diagnostic::{findings, Violation, ViolationKind};
use crate::pattern::{is_match, regex_is_match};
use crate::text::{contains, contains_str};

verus! {

pub const PNPM_INSTALL: &'static str = r"\bpnpm\s+install\b";

pub const PNPM_ADD: &'static str = r"\bpnpm\s+add\s";

pub const FROZEN_LOCKFILE_FLAG: &'static str = "--frozen-lockfile";

/// What the pnpm rule reports, from what its patterns match on the line:
/// `pnpm-frozen-lockfile` for an install without `--frozen-lockfile`, then
/// `pnpm-version-pin` for an add without a version pin.
pub open spec fn pnpm_kinds_of(install: bool, frozen_flag: bool, add: bool, pin: bool) -> Seq<ViolationKind> {
    (if install && !frozen_flag {
        seq![ViolationKind::PnpmFrozenLockfile]
    } else {
        seq![]
    }) + (if add && !pin {
        seq![ViolationKind::PnpmVersionPin]
    } else {
        seq![]
    })
}

/// What the pnpm rule reports for a line.
pub open spec fn pnpm_kinds(line: Seq<char>) -> Seq<ViolationKind> {
    pnpm_kinds_of(
        regex_is_match(PNPM_INSTALL@, line),
        contains(line, FROZEN_LOCKFILE_FLAG@),
        regex_is_match(PNPM_ADD@, line),
        regex_is_match(VERSION_PIN@, line),
    )
}

/// The pnpm rule's decision from what its patterns matched.
pub fn pnpm_kinds_from(install: bool, frozen_flag: bool, add: bool, pin: bool) -> (r: Vec<ViolationKind>)
    ensures
        r@ == pnpm_kinds_of(install, frozen_flag, add, pin),
{
    let mut r: Vec<ViolationKind> = Vec::new();
    if install && !frozen_flag {
        r.push(ViolationKind::PnpmFrozenLockfile);
    }
    if add && !pin {
        r.push(ViolationKind::PnpmVersionPin);
    }
    assert(r@ =~= pnpm_kinds_of(install, frozen_flag, add, pin));
    r
}

pub fn check_pnpm(line: &str, line_num: usize) -> (r: Vec<Violation>)
    ensures
        findings(r@) == line_findings(pnpm_kinds(line@), line_num as int, line@),
{
    check_pnpm_with(&RulePatterns::new(), line, line_num)
}

/// `check_pnpm` with the rules' patterns compiled beforehand.
pub fn check_pnpm_with(patterns: &RulePatterns, line: &str, line_num: usize) -> (r: Vec<Violation>)
    requires
        patterns.ready(),
    ensures
        findings(r@) == line_findings(pnpm_kinds(line@), line_num as int, line@),
{
    let chars = crate::text::chars_of(line);
    let install = is_match(&patterns.pnpm_install, line);
    let frozen_flag = contains_str(chars.as_slice(), FROZEN_LOCKFILE_FLAG);
    let add = is_match(&patterns.pnpm_add, line);
    let pin = is_match(&patterns.version_pin, line);
    violations_of(pnpm_kinds_from(install, frozen_flag, add, pin), line, line_num)
}

} // verus!
