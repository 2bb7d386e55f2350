use vstd::prelude::*;

use crate::bounded_io::{utf8_string, BoundedReadError};
use crate::paths::{
    components, join, join_str, path_starts_with, same_path, same_path_exec, strip_base,
    strip_base_exec,
};
use crate::text::{
    chars_are, chars_of, contains, contains_str, copy_range, leading_space_len, lines, split_lines,
    split_once, split_once_chars, starts_with, starts_with_str, string_of, trim, trim_chars, trim_start,
    views,
};

verus! {

#[derive(Debug, Clone, Copy, PartialEq, Eq, Structural)]
pub enum GitIndexStatus {
    MissingMetadata,
    MissingIndex,
    ExceedsLimits,
    UnsupportedIndex,
}

pub const MIN_GIT_INDEX_ENTRY_SIZE: usize = 64;

pub const MAX_GIT_INDEX_ENTRIES: usize = 100000;

pub const MAX_GIT_PATH_LENGTH: usize = 4096;

pub const MAX_SUBMODULE_PATHS: usize = 10000;

// ---------------------------------------------------------------------------
// .gitmodules
// ---------------------------------------------------------------------------

/// `s` without leading and trailing `"` characters (`str::trim_matches('"')`).
pub open spec fn trim_quotes_start(s: Seq<char>) -> Seq<char>
    decreases s.len(),
{
    if s.len() > 0 && s[0] == '"' {
        trim_quotes_start(s.drop_first())
    } else {
        s
    }
}

pub open spec fn trim_quotes_end(s: Seq<char>) -> Seq<char>
    decreases s.len(),
{
    if s.len() > 0 && s.last() == '"' {
        trim_quotes_end(s.drop_last())
    } else {
        s
    }
}

pub open spec fn trim_quotes(s: Seq<char>) -> Seq<char> {
    trim_quotes_end(trim_quotes_start(s))
}

/// The length of a text in UTF-8 bytes (`str::len`).
pub open spec fn byte_len(s: Seq<char>) -> nat {
    vstd::utf8::encode_utf8(s).len()
}

/// The submodule path that a `.gitmodules` line declares: `path = <value>`, the value
/// trimmed and unquoted, and at most `MAX_GIT_PATH_LENGTH` bytes long.
pub open spec fn gitmodules_path(line: Seq<char>) -> Option<Seq<char>> {
    match split_once(trim(line), '=') {
        Some((key, value)) => if trim(key) == "path"@ {
            let p = trim_quotes(trim(value));
            if byte_len(p) <= MAX_GIT_PATH_LENGTH {
                Some(p)
            } else {
                None
            }
        } else {
            None
        },
        None => None,
    }
}

/// The paths that the lines declare, the first `MAX_SUBMODULE_PATHS` of them.
pub open spec fn gitmodules_paths(ls: Seq<Seq<char>>) -> Seq<Seq<char>>
    decreases ls.len(),
{
    if ls.len() == 0 {
        Seq::empty()
    } else {
        let rest = gitmodules_paths(ls.drop_last());
        match gitmodules_path(ls.last()) {
            Some(p) => if rest.len() < MAX_SUBMODULE_PATHS {
                rest.push(p)
            } else {
                rest
            },
            None => rest,
        }
    }
}

pub proof fn lemma_byte_len_bounds(s: Seq<char>)
    ensures
        s.len() <= byte_len(s) <= 4 * s.len(),
    decreases s.len(),
{
    if s.len() > 0 {
        lemma_byte_len_bounds(s.drop_first());
        let e = vstd::utf8::encode_scalar(s[0] as u32);
        assert(1 <= e.len() <= 4);
        assert(vstd::utf8::encode_utf8(s) == e + vstd::utf8::encode_utf8(s.drop_first()));
    }
}

fn trim_quotes_exec(v: &[char]) -> (r: Vec<char>)
    ensures
        r@ == trim_quotes(v@),
{
    let mut lo: usize = 0;
    assert(v@.skip(0) == v@);
    while lo < v.len() && v[lo] == '"'
        invariant
            lo <= v.len(),
            trim_quotes_start(v@) == trim_quotes_start(v@.skip(lo as int)),
        decreases v.len() - lo,
    {
        assert(v@.skip(lo as int).drop_first() == v@.skip(lo + 1));
        lo += 1;
    }
    let mut hi: usize = v.len();
    assert(v@.skip(lo as int) == v@.subrange(lo as int, hi as int));
    while hi > lo && v[hi - 1] == '"'
        invariant
            lo <= hi <= v.len(),
            trim_quotes(v@) == trim_quotes_end(v@.subrange(lo as int, hi as int)),
        decreases hi,
    {
        assert(v@.subrange(lo as int, hi as int).drop_last() == v@.subrange(lo as int, hi - 1));
        hi -= 1;
    }
    copy_range(v, lo, hi)
}

fn gitmodules_path_exec(line: &[char]) -> (r: Option<String>)
    ensures
        match r {
            Some(p) => gitmodules_path(line@) == Some(p@),
            None => gitmodules_path(line@) is None,
        },
{
    let t = trim_chars(line);
    match split_once_chars(t.as_slice(), '=') {
        Some((key, value)) => {
            let k = trim_chars(key.as_slice());
            if !chars_are(k.as_slice(), "path") {
                return None;
            }
            let v = trim_chars(value.as_slice());
            let p = trim_quotes_exec(v.as_slice());
            proof {
                lemma_byte_len_bounds(p@);
            }
            if p.len() > MAX_GIT_PATH_LENGTH {
                return None;
            }
            let text = string_of(p.as_slice());
            let n = text.as_str().len();
            assert(n == byte_len(p@));
            if n <= MAX_GIT_PATH_LENGTH {
                Some(text)
            } else {
                None
            }
        },
        None => None,
    }
}

/// The submodule paths declared in the text of a `.gitmodules` file.
pub fn parse_gitmodules_paths_from_content(content: &str) -> (r: Vec<String>)
    ensures
        r@.map_values(|s: String| s@) == gitmodules_paths(lines(content@)),
{
    let chars = chars_of(content);
    let ls = split_lines(chars.as_slice());
    let ghost lv = lines(content@);
    let mut paths: Vec<String> = Vec::new();
    let mut i: usize = 0;
    assert(lv.take(0) =~= Seq::<Seq<char>>::empty());
    assert(paths@.map_values(|s: String| s@) =~= Seq::<Seq<char>>::empty());
    while i < ls.len()
        invariant
            views(ls@) == lv,
            i <= ls.len(),
            paths@.map_values(|s: String| s@) == gitmodules_paths(lv.take(i as int)),
        decreases ls.len() - i,
    {
        proof {
            assert(lv.take(i + 1).drop_last() == lv.take(i as int));
            assert(lv.take(i + 1).last() == ls@[i as int]@);
        }
        let ghost before = paths@.map_values(|s: String| s@);
        match gitmodules_path_exec(ls[i].as_slice()) {
            Some(p) => {
                if paths.len() < MAX_SUBMODULE_PATHS {
                    paths.push(p);
                    assert(paths@.map_values(|s: String| s@) =~= before.push(p@));
                }
            },
            None => {},
        }
        i += 1;
    }
    assert(lv.take(ls.len() as int) == lv);
    paths
}

/// The submodule paths of a repository, from its `.gitmodules` as read (none when it could
/// not be read).
pub fn parse_gitmodules_paths(gitmodules: Result<String, BoundedReadError>) -> (r: Vec<String>)
    ensures
        match gitmodules {
            Ok(content) => r@.map_values(|s: String| s@) == gitmodules_paths(lines(content@)),
            Err(_) => r@.len() == 0,
        },
{
    match gitmodules {
        Ok(content) => parse_gitmodules_paths_from_content(content.as_str()),
        Err(_) => Vec::new(),
    }
}

// ---------------------------------------------------------------------------
// .git files
// ---------------------------------------------------------------------------

/// The index of the first line at or after `i` that starts with `gitdir:` after its
/// indentation, or -1.
pub open spec fn gitdir_line_from(ls: Seq<Seq<char>>, i: int) -> int
    decreases ls.len() - i,
{
    if i < 0 || i >= ls.len() {
        -1
    } else if starts_with(trim_start(ls[i]), "gitdir:"@) {
        i
    } else {
        gitdir_line_from(ls, i + 1)
    }
}

/// The target of the first `gitdir:` line of a `.git` file, trimmed.
pub open spec fn gitdir_target(content: Seq<char>) -> Option<Seq<char>> {
    let ls = lines(content);
    let i = gitdir_line_from(ls, 0);
    if i < 0 {
        None
    } else {
        Some(trim(trim_start(ls[i]).skip(7)))
    }
}

pub fn parse_gitdir_target_from_content(content: &str) -> (r: Option<String>)
    ensures
        match r {
            Some(t) => gitdir_target(content@) == Some(t@),
            None => gitdir_target(content@) is None,
        },
{
    let chars = chars_of(content);
    let ls = split_lines(chars.as_slice());
    let ghost lv = lines(content@);
    let prefix = chars_of("gitdir:");
    proof {
        reveal_strlit("gitdir:");
    }
    let mut i: usize = 0;
    while i < ls.len()
        invariant
            views(ls@) == lv,
            lv == lines(content@),
            i <= ls.len(),
            prefix@ == "gitdir:"@,
            prefix@.len() == 7,
            gitdir_line_from(lv, 0) == gitdir_line_from(lv, i as int),
        decreases ls.len() - i,
    {
        assert(lv[i as int] == ls@[i as int]@);
        let n = leading_space_len(ls[i].as_slice());
        let t = copy_range(ls[i].as_slice(), n, ls[i].len());
        assert(t@ == trim_start(lv[i as int]));
        if crate::text::starts_with_chars(t.as_slice(), prefix.as_slice()) {
            let rest = copy_range(t.as_slice(), 7, t.len());
            assert(rest@ == t@.skip(7));
            let target = trim_chars(rest.as_slice());
            return Some(string_of(target.as_slice()));
        }
        i += 1;
    }
    None
}

/// A `gitdir` target that points into a superproject's `.git/modules` directory.
pub open spec fn submodule_gitdir(gitdir: Seq<char>) -> bool {
    let normalized = gitdir.map_values(|c: char| if c == '\\' { '/' } else { c });
    ||| contains(normalized, "/.git/modules/"@)
    ||| starts_with(normalized, ".git/modules/"@)
    ||| starts_with(normalized, "../.git/modules/"@)
}

pub fn gitdir_target_is_submodule(gitdir: &str) -> (r: bool)
    ensures
        r == submodule_gitdir(gitdir@),
{
    let chars = chars_of(gitdir);
    let mut normalized: Vec<char> = Vec::new();
    let mut i: usize = 0;
    while i < chars.len()
        invariant
            i <= chars.len(),
            chars@ == gitdir@,
            normalized@ == gitdir@.take(i as int).map_values(|c: char| if c == '\\' { '/' } else { c }),
        decreases chars.len() - i,
    {
        let c = chars[i];
        normalized.push(if c == '\\' { '/' } else { c });
        assert(gitdir@.take(i + 1).map_values(|c: char| if c == '\\' { '/' } else { c })
            =~= gitdir@.take(i as int).map_values(|c: char| if c == '\\' { '/' } else { c }).push(
            if c == '\\' { '/' } else { c },
        ));
        i += 1;
    }
    assert(gitdir@.take(chars.len() as int) == gitdir@);
    contains_str(normalized.as_slice(), "/.git/modules/") || starts_with_str(
        normalized.as_slice(),
        ".git/modules/",
    ) || starts_with_str(normalized.as_slice(), "../.git/modules/")
}

/// A directory holds a submodule checkout when its `.git` file (read as given) names a
/// `gitdir` inside a superproject's `.git/modules`.
pub open spec fn submodule_gitdir_file(dot_git: Option<Seq<char>>) -> bool {
    match dot_git {
        Some(content) => match gitdir_target(content) {
            Some(target) => submodule_gitdir(target),
            None => false,
        },
        None => false,
    }
}

pub open spec fn read_text(r: Result<String, BoundedReadError>) -> Option<Seq<char>> {
    match r {
        Ok(s) => Some(s@),
        Err(_) => None,
    }
}

/// Whether a directory's `.git` file, as read, marks a submodule checkout.
pub fn has_submodule_gitdir_file(dot_git: &Result<String, BoundedReadError>) -> (r: bool)
    ensures
        r == submodule_gitdir_file(read_text(*dot_git)),
{
    match dot_git {
        Ok(content) => match parse_gitdir_target_from_content(content.as_str()) {
            Some(target) => gitdir_target_is_submodule(target.as_str()),
            None => false,
        },
        Err(_) => false,
    }
}

/// Where a repository's git metadata lives: `root/.git` when it is a directory, else the
/// `gitdir:` target of the `.git` file (relative to `root` unless absolute).
pub open spec fn metadata_dir(root: Seq<char>, dot_git_is_dir: bool, dot_git: Option<Seq<char>>) -> Option<Seq<char>> {
    if dot_git_is_dir {
        Some(join(root, ".git"@))
    } else {
        match dot_git {
            Some(content) => match gitdir_target(content) {
                Some(target) => Some(join(root, target)),
                None => None,
            },
            None => None,
        }
    }
}

pub fn git_metadata_dir(root: &str, dot_git_is_dir: bool, dot_git: &Result<String, BoundedReadError>) -> (r: Option<String>)
    ensures
        match r {
            Some(d) => metadata_dir(root@, dot_git_is_dir, read_text(*dot_git)) == Some(d@),
            None => metadata_dir(root@, dot_git_is_dir, read_text(*dot_git)) is None,
        },
{
    if dot_git_is_dir {
        return Some(join_str(root, ".git"));
    }
    match dot_git {
        Ok(content) => match parse_gitdir_target_from_content(content.as_str()) {
            Some(target) => Some(join_str(root, target.as_str())),
            None => None,
        },
        Err(_) => None,
    }
}

// ---------------------------------------------------------------------------
// Submodule pruning
// ---------------------------------------------------------------------------

pub struct SubmodulePruner {
    pub root: String,
    pub gitmodules_paths: Vec<String>,
}

impl SubmodulePruner {
    /// A pruner for the repository at `root`, whose `.gitmodules` was read as given.
    pub fn new(root: &str, gitmodules: Result<String, BoundedReadError>) -> (r: Self)
        ensures
            r.root@ == root@,
            match gitmodules {
                Ok(content) => r.gitmodules_paths@.map_values(|s: String| s@) == gitmodules_paths(
                    lines(content@),
                ),
                Err(_) => r.gitmodules_paths@.len() == 0,
            },
    {
        SubmodulePruner { root: root.to_owned(), gitmodules_paths: parse_gitmodules_paths(gitmodules) }
    }

    /// `path`, relative to the root, is one of the declared submodule paths.
    pub open spec fn declared(&self, path: Seq<char>) -> bool {
        match strip_base(path, self.root@) {
            Some(rel) => exists|i: int|
                0 <= i < self.gitmodules_paths@.len() && same_path(
                    rel,
                    #[trigger] self.gitmodules_paths@[i]@,
                ),
            None => false,
        }
    }

    pub fn is_declared_submodule_path(&self, path: &str) -> (r: bool)
        ensures
            r == self.declared(path@),
    {
        let p = chars_of(path);
        let root = chars_of(self.root.as_str());
        let rel = match strip_base_exec(p.as_slice(), root.as_slice()) {
            Some(rel) => rel,
            None => return false,
        };
        let mut i: usize = 0;
        while i < self.gitmodules_paths.len()
            invariant
                i <= self.gitmodules_paths@.len(),
                strip_base(path@, self.root@) == Some(rel@),
                forall|j: int| 0 <= j < i ==> !same_path(rel@, #[trigger] self.gitmodules_paths@[j]@),
            decreases self.gitmodules_paths.len() - i,
        {
            let q = chars_of(self.gitmodules_paths[i].as_str());
            if same_path_exec(rel.as_slice(), q.as_slice()) {
                return true;
            }
            i += 1;
        }
        false
    }

    /// A directory that must not be scanned: a declared submodule, or (other than the root)
    /// one whose `.git` file, as read, marks a submodule checkout.
    pub open spec fn submodule_dir(&self, path: Seq<char>, dot_git: Option<Seq<char>>) -> bool {
        self.declared(path) || (!same_path(path, self.root@) && submodule_gitdir_file(dot_git))
    }

    pub fn is_submodule_dir(&self, path: &str, dot_git: &Result<String, BoundedReadError>) -> (r: bool)
        ensures
            r == self.submodule_dir(path@, read_text(*dot_git)),
    {
        if self.is_declared_submodule_path(path) {
            return true;
        }
        let p = chars_of(path);
        let root = chars_of(self.root.as_str());
        !same_path_exec(p.as_slice(), root.as_slice()) && has_submodule_gitdir_file(dot_git)
    }
}

// ---------------------------------------------------------------------------
// The index
// ---------------------------------------------------------------------------

/// A big-endian 32-bit number at byte `at`.
pub open spec fn be32(b: Seq<u8>, at: int) -> int {
    b[at] * 16777216 + b[at + 1] * 65536 + b[at + 2] * 256 + b[at + 3]
}

/// The index of the first zero byte at or after `i`, or -1.
pub open spec fn first_nul_from(b: Seq<u8>, i: int) -> int
    decreases b.len() - i,
{
    if i < 0 || i >= b.len() {
        -1
    } else if b[i] == 0 {
        i
    } else {
        first_nul_from(b, i + 1)
    }
}

/// The end of an entry that starts at `entry_start` and whose path ends at `path_end`: one
/// byte after the path's terminating zero, padded to a multiple of eight bytes.
pub open spec fn entry_end(entry_start: int, path_end: int) -> int {
    let used = path_end + 1 - entry_start;
    path_end + 1 + (8 - used % 8) % 8
}

/// The paths of `remaining` index entries starting at `offset`: each entry's path starts 62
/// bytes in, ends at a zero byte, is at most `MAX_GIT_PATH_LENGTH` bytes of UTF-8, and the
/// entry is padded to a multiple of eight bytes within the index.
pub open spec fn index_entries(b: Seq<u8>, offset: int, remaining: nat) -> Option<Seq<Seq<char>>>
    decreases remaining,
{
    if remaining == 0 {
        Some(Seq::empty())
    } else {
        let path_start = offset + 62;
        let path_end = first_nul_from(b, path_start);
        if path_start > b.len() || path_end < 0 || path_end - path_start > MAX_GIT_PATH_LENGTH
            || !vstd::utf8::valid_utf8(b.subrange(path_start, path_end)) || entry_end(
            offset,
            path_end,
        ) > b.len() {
            None
        } else {
            match index_entries(b, entry_end(offset, path_end), (remaining - 1) as nat) {
                Some(rest) => Some(
                    seq![vstd::utf8::decode_utf8(b.subrange(path_start, path_end))] + rest,
                ),
                None => None,
            }
        }
    }
}

/// The tracked paths of a version 2 or 3 git index (`DIRC` signature), in index order;
/// `None` when the index is malformed or claims more entries than it can hold or than
/// `MAX_GIT_INDEX_ENTRIES`.
pub open spec fn index_paths(b: Seq<u8>) -> Option<Seq<Seq<char>>> {
    if b.len() < 12 || b[0] != 68 || b[1] != 73 || b[2] != 82 || b[3] != 67 {
        None
    } else {
        let version = be32(b, 4);
        let count = be32(b, 8);
        if version != 2 && version != 3 {
            None
        } else if count > (b.len() - 12) / (MIN_GIT_INDEX_ENTRY_SIZE as int) || count
            > MAX_GIT_INDEX_ENTRIES {
            None
        } else {
            index_entries(b, 12, count as nat)
        }
    }
}

pub open spec fn prepend(acc: Seq<Seq<char>>, rest: Option<Seq<Seq<char>>>) -> Option<Seq<Seq<char>>> {
    match rest {
        Some(r) => Some(acc + r),
        None => None,
    }
}

fn read_u32(index: &[u8], at: usize) -> (r: u32)
    requires
        at + 4 <= index.len(),
    ensures
        r == be32(index@, at as int),
{
    (index[at] as u32) * 16777216 + (index[at + 1] as u32) * 65536 + (index[at + 2] as u32) * 256
        + (index[at + 3] as u32)
}

pub fn parse_tracked_paths_from_index(index: &[u8]) -> (r: Option<Vec<String>>)
    ensures
        match r {
            Some(paths) => index_paths(index@) == Some(paths@.map_values(|s: String| s@)),
            None => index_paths(index@) is None,
        },
{
    if index.len() < 12 || index[0] != 68 || index[1] != 73 || index[2] != 82 || index[3] != 67 {
        return None;
    }
    let version = read_u32(index, 4);
    if version != 2 && version != 3 {
        return None;
    }
    let entry_count = read_u32(index, 8) as usize;
    let maximum_possible_entries = (index.len() - 12) / MIN_GIT_INDEX_ENTRY_SIZE;
    if entry_count > maximum_possible_entries || entry_count > MAX_GIT_INDEX_ENTRIES {
        return None;
    }
    let ghost b = index@;
    let mut offset: usize = 12;
    let mut paths: Vec<String> = Vec::new();
    let mut done: usize = 0;
    assert(paths@.map_values(|s: String| s@) =~= Seq::<Seq<char>>::empty());
    assert(index_paths(b) == prepend(Seq::empty(), index_entries(b, 12, entry_count as nat))) by {
        assert(Seq::<Seq<char>>::empty() + index_entries(b, 12, entry_count as nat)->0
            =~= index_entries(b, 12, entry_count as nat)->0);
    }
    while done < entry_count
        invariant
            b == index@,
            done <= entry_count,
            offset <= index.len(),
            index_paths(b) == prepend(
                paths@.map_values(|s: String| s@),
                index_entries(b, offset as int, (entry_count - done) as nat),
            ),
        decreases entry_count - done,
    {
        let ghost acc = paths@.map_values(|s: String| s@);
        let entry_start = offset;
        if index.len() - entry_start < 62 {
            return None;
        }
        let path_start = entry_start + 62;
        let mut path_end = path_start;
        while path_end < index.len() && index[path_end] != 0
            invariant
                path_start <= path_end <= index.len(),
                first_nul_from(b, path_start as int) == first_nul_from(b, path_end as int),
                b == index@,
            decreases index.len() - path_end,
        {
            path_end += 1;
        }
        if path_end == index.len() {
            return None;
        }
        if path_end - path_start > MAX_GIT_PATH_LENGTH {
            return None;
        }
        let mut bytes: Vec<u8> = Vec::new();
        let mut k = path_start;
        while k < path_end
            invariant
                path_start <= k <= path_end < index.len(),
                bytes@ == b.subrange(path_start as int, k as int),
                b == index@,
            decreases path_end - k,
        {
            bytes.push(index[k]);
            assert(bytes@ =~= b.subrange(path_start as int, k + 1));
            k += 1;
        }
        let path = match utf8_string(bytes) {
            Some(p) => p,
            None => return None,
        };
        let used = path_end + 1 - entry_start;
        let pad = (8 - used % 8) % 8;
        if pad > index.len() - (path_end + 1) {
            return None;
        }
        let next = path_end + 1 + pad;
        proof {
            assert(next == entry_end(entry_start as int, path_end as int));
            let rest = index_entries(b, next as int, (entry_count - done - 1) as nat);
            assert(index_entries(b, offset as int, (entry_count - done) as nat) == match rest {
                Some(r) => Some(seq![path@] + r),
                None => None,
            });
            match rest {
                Some(r) => {
                    assert(acc + (seq![path@] + r) =~= acc.push(path@) + r);
                },
                None => {},
            }
        }
        paths.push(path);
        assert(paths@.map_values(|s: String| s@) =~= acc.push(path@));
        offset = next;
        done += 1;
    }
    assert(paths@.map_values(|s: String| s@) + Seq::<Seq<char>>::empty() =~= paths@.map_values(|s: String| s@));
    Some(paths)
}

/// What went wrong reading the index, as the warning reports it.
pub open spec fn read_failure_status(e: BoundedReadError) -> GitIndexStatus {
    match e {
        BoundedReadError::Io(_) => GitIndexStatus::MissingIndex,
        BoundedReadError::TooLarge { .. } => GitIndexStatus::ExceedsLimits,
        BoundedReadError::Allocation => GitIndexStatus::ExceedsLimits,
        _ => GitIndexStatus::UnsupportedIndex,
    }
}

/// The tracked paths of a repository, from its index as read at `<git dir>/index`
/// (`None` when the repository has no git metadata).
pub fn tracked_paths(index: Option<Result<Vec<u8>, BoundedReadError>>) -> (r: Result<Vec<String>, GitIndexStatus>)
    ensures
        match index {
            None => r == Err::<Vec<String>, GitIndexStatus>(GitIndexStatus::MissingMetadata),
            Some(Err(e)) => r == Err::<Vec<String>, GitIndexStatus>(read_failure_status(e)),
            Some(Ok(bytes)) => match r {
                Ok(paths) => index_paths(bytes@) == Some(paths@.map_values(|s: String| s@)),
                Err(status) => status == GitIndexStatus::UnsupportedIndex && index_paths(bytes@) is None,
            },
        },
{
    match index {
        None => Err(GitIndexStatus::MissingMetadata),
        Some(Err(e)) => Err(
            match e {
                BoundedReadError::Io(_) => GitIndexStatus::MissingIndex,
                BoundedReadError::TooLarge { .. } => GitIndexStatus::ExceedsLimits,
                BoundedReadError::Allocation => GitIndexStatus::ExceedsLimits,
                _ => GitIndexStatus::UnsupportedIndex,
            },
        ),
        Some(Ok(bytes)) => match parse_tracked_paths_from_index(bytes.as_slice()) {
            Some(paths) => Ok(paths),
            None => Err(GitIndexStatus::UnsupportedIndex),
        },
    }
}

} // verus!
