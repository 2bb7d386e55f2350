use vstd::prelude::*;

use crate::paths::{components, components_of, render, render_exec};
use crate::text::{
    chars_are, chars_of, ends_with, ends_with_str, index_of, lines, split_lines, split_once,
    split_once_chars, starts_with, starts_with_str, string_of, trim, trim_chars, views,
};

verus! {

/// The text of a line before its first `#` (`line.split('#').next()`).
pub open spec fn before_hash(line: Seq<char>) -> Seq<char> {
    let k = index_of(line, '#');
    if k < 0 {
        line
    } else {
        line.take(k)
    }
}

/// The value of `frozenLockfile` in the `[install]` section, reading lines from `i` on:
/// the first such key decides; `false` when there is none.
pub open spec fn frozen_lockfile_from(ls: Seq<Seq<char>>, i: int, in_install: bool) -> bool
    decreases ls.len() - i,
{
    if i < 0 || i >= ls.len() {
        false
    } else {
        let line = trim(before_hash(ls[i]));
        if line.len() == 0 {
            frozen_lockfile_from(ls, i + 1, in_install)
        } else if starts_with(line, "["@) && ends_with(line, "]"@) {
            frozen_lockfile_from(ls, i + 1, line == "[install]"@)
        } else if !in_install {
            frozen_lockfile_from(ls, i + 1, in_install)
        } else {
            match split_once(line, '=') {
                Some((key, value)) => if trim(key) == "frozenLockfile"@ {
                    trim(value) == "true"@
                } else {
                    frozen_lockfile_from(ls, i + 1, in_install)
                },
                None => frozen_lockfile_from(ls, i + 1, in_install),
            }
        }
    }
}

/// Whether a `bunfig.toml` sets `[install].frozenLockfile = true`.
pub open spec fn bunfig_frozen(content: Seq<char>) -> bool {
    frozen_lockfile_from(lines(content), 0, false)
}

fn before_hash_exec(line: &[char]) -> (r: Vec<char>)
    ensures
        r@ == before_hash(line@),
{
    match crate::text::find_char(line, '#') {
        Some(k) => crate::text::copy_range(line, 0, k),
        None => crate::text::copy_range(line, 0, line.len()),
    }
}

#[verifier::loop_isolation(false)]
pub fn bunfig_has_frozen_lockfile(content: &str) -> (r: bool)
    ensures
        r == bunfig_frozen(content@),
{
    let chars = chars_of(content);
    let ls = split_lines(chars.as_slice());
    let ghost lv = lines(content@);
    let mut in_install = false;
    let mut i: usize = 0;
    while i < ls.len()
        invariant
            views(ls@) == lv,
            i <= ls.len(),
            frozen_lockfile_from(lv, 0, false) == frozen_lockfile_from(lv, i as int, in_install),
        decreases ls.len() - i,
    {
        assert(lv[i as int] == ls@[i as int]@);
        let raw = before_hash_exec(ls[i].as_slice());
        let line = trim_chars(raw.as_slice());
        if line.len() == 0 {
        } else if starts_with_str(line.as_slice(), "[") && ends_with_str(line.as_slice(), "]") {
            in_install = chars_are(line.as_slice(), "[install]");
        } else if !in_install {
        } else {
            match split_once_chars(line.as_slice(), '=') {
                Some((key, value)) => {
                    let k = trim_chars(key.as_slice());
                    if chars_are(k.as_slice(), "frozenLockfile") {
                        let v = trim_chars(value.as_slice());
                        return chars_are(v.as_slice(), "true");
                    }
                },
                None => {},
            }
        }
        i += 1;
    }
    false
}

// ---------------------------------------------------------------------------
// Where a `bunfig.toml` is looked for
// ---------------------------------------------------------------------------

/// How many ancestors a path with components `c` has (`Path::ancestors`): itself, then each
/// parent down to the root directory or the empty path.
pub open spec fn ancestor_count(c: Seq<Seq<char>>) -> int {
    if c.len() == 0 {
        1
    } else if c[0] == crate::paths::root() {
        c.len() as int
    } else {
        (c.len() + 1) as int
    }
}

/// The directories that may hold the `bunfig.toml` for `path`, nearest first: the
/// ancestors of `path` that lie within `root`.
pub open spec fn search_dirs_from(path: Seq<char>, root: Seq<char>, j: int) -> Seq<Seq<char>>
    decreases ancestor_count(components(path)) - j,
{
    let c = components(path);
    let b = components(root);
    if j < 0 || j >= ancestor_count(c) {
        Seq::empty()
    } else {
        let k = c.len() - j;
        let dir = if j == 0 {
            path
        } else {
            render(c.take(k))
        };
        let rest = search_dirs_from(path, root, j + 1);
        if b.len() <= k && c.take(k).take(b.len() as int) == b {
            seq![dir] + rest
        } else {
            rest
        }
    }
}

pub open spec fn bunfig_search_dirs(root: Seq<char>, path: Seq<char>) -> Seq<Seq<char>> {
    search_dirs_from(path, root, 0)
}

/// The directories, nearest first, whose `bunfig.toml` decides for `path`: the ancestors of
/// `path` within `root`. The first of them that is a directory holding a `bunfig.toml`
/// decides.
pub fn bunfig_search_dirs_exec(root: &str, path: &str) -> (r: Vec<String>)
    ensures
        r@.map_values(|s: String| s@) == bunfig_search_dirs(root@, path@),
{
    let pc = chars_of(path);
    let rc = chars_of(root);
    let c = components_of(pc.as_slice());
    let b = components_of(rc.as_slice());
    let ghost cv = components(path@);
    let ghost bv = components(root@);
    let n = c.len();
    let m: usize = if n > 0 && crate::text::chars_are(c[0].as_slice(), "/") {
        1
    } else {
        0
    };
    proof {
        reveal_strlit("/");
        assert("/"@ =~= crate::paths::root());
        if n > 0 {
            assert(cv[0] == c@[0]@);
        }
        assert(n - m + 1 == ancestor_count(cv));
    }
    let mut found: Vec<String> = Vec::new();
    let mut k: usize = m;
    assert(search_dirs_from(path@, root@, n - m + 1) == Seq::<Seq<char>>::empty());
    assert(found@.map_values(|s: String| s@) =~= Seq::<Seq<char>>::empty());
    loop
        invariant_except_break
            found@.map_values(|s: String| s@) == search_dirs_from(path@, root@, n - k + 1),
        invariant
            m <= k <= n,
            n == c.len(),
            n - m + 1 == ancestor_count(cv),
            cv == components(path@),
            bv == components(root@),
            views(c@) == cv,
            views(b@) == bv,
            pc@ == path@,
        ensures
            found@.map_values(|s: String| s@) == search_dirs_from(path@, root@, 0),
        decreases n - k,
    {
        let mut prefix: Vec<Vec<char>> = Vec::new();
        let mut q: usize = 0;
        assert(cv.take(0) =~= Seq::<Seq<char>>::empty());
        assert(views(prefix@) =~= Seq::<Seq<char>>::empty());
        while q < k
            invariant
                q <= k <= c.len(),
                views(prefix@) == cv.take(q as int),
                views(c@) == cv,
            decreases k - q,
        {
            assert(cv[q as int] == c@[q as int]@);
            let ghost before = views(prefix@);
            prefix.push(crate::text::copy_range(c[q].as_slice(), 0, c[q].len()));
            assert(c@[q as int]@.subrange(0, c@[q as int]@.len() as int) == c@[q as int]@);
            assert(views(prefix@) =~= before.push(c@[q as int]@));
            assert(cv.take(q + 1) =~= cv.take(q as int).push(cv[q as int]));
            q += 1;
        }
        assert(prefix@.len() == k);
        let mut within = b.len() <= k;
        if within {
            let mut t: usize = 0;
            assert(cv.take(k as int).take(0) =~= bv.take(0));
            while t < b.len()
                invariant
                    b.len() <= k,
                    prefix@.len() == k,
                    t <= b.len(),
                    views(prefix@) == cv.take(k as int),
                    views(b@) == bv,
                    within == (cv.take(k as int).take(t as int) == bv.take(t as int)),
                decreases b.len() - t,
            {
                let same = crate::text::chars_equal(prefix[t].as_slice(), b[t].as_slice());
                proof {
                    assert(cv.take(k as int)[t as int] == prefix@[t as int]@);
                    assert(bv[t as int] == b@[t as int]@);
                    assert(cv.take(k as int).take(t + 1) =~= cv.take(k as int).take(t as int).push(prefix@[t as int]@));
                    assert(bv.take(t + 1) =~= bv.take(t as int).push(b@[t as int]@));
                    if !same {
                        assert(cv.take(k as int).take(t + 1)[t as int] != bv.take(t + 1)[t as int]);
                    }
                    if !within {
                        assert(cv.take(k as int).take(t + 1).take(t as int) == cv.take(k as int).take(t as int));
                        assert(bv.take(t + 1).take(t as int) == bv.take(t as int));
                    }
                }
                within = within && same;
                t += 1;
            }
            assert(bv.take(bv.len() as int) == bv);
        }
        if within {
            let dir = if k == n {
                string_of(pc.as_slice())
            } else {
                let text = render_exec(&prefix);
                string_of(text.as_slice())
            };
            let ghost prev = found@;
            found.insert(0, dir);
            assert(found@.map_values(|s: String| s@) =~= seq![dir@] + prev.map_values(|s: String| s@));
        }
        assert(found@.map_values(|s: String| s@) == search_dirs_from(path@, root@, n - k));
        if k == n {
            break;
        }
        k += 1;
    }
    found
}

// ---------------------------------------------------------------------------
// Finding the `bunfig.toml` that decides
// ---------------------------------------------------------------------------

/// What the search for the deciding `bunfig.toml` learns from the caller.
pub enum BunfigEvent {
    /// The directory last asked about does not exist or holds no `bunfig.toml`.
    Absent,
    /// The directory last asked about holds a `bunfig.toml`; its setting when an earlier
    /// search already read it.
    Present(Option<bool>),
    /// The text of that `bunfig.toml`, or `None` when it could not be read.
    Read(Option<String>),
}

/// What the search asks of the caller next.
pub enum BunfigAction {
    /// Whether this directory holds a `bunfig.toml`.
    Look(String),
    /// The text of the `bunfig.toml` just found.
    Read,
    /// The search is over: whether the lockfile is frozen.
    Done(bool),
}

/// The search for the `bunfig.toml` that decides whether a file's lockfile is frozen: the
/// nearest one in the directories of `bunfig_search_dirs`, nearest first.
pub struct BunfigSearch {
    dirs: Vec<String>,
    looked: usize,
}

impl BunfigSearch {
    /// The directories to search, nearest first.
    pub closed spec fn dirs(&self) -> Seq<Seq<char>> {
        self.dirs@.map_values(|s: String| s@)
    }

    /// How many of them the search has asked about.
    pub closed spec fn looked(&self) -> nat {
        self.looked as nat
    }

    /// Asks about the next directory, or ends the search when none is left: no
    /// `bunfig.toml` freezes the lockfile.
    fn look_further(&mut self) -> (a: BunfigAction)
        ensures
            final(self).dirs() == old(self).dirs(),
            if old(self).looked() < old(self).dirs().len() {
                &&& final(self).looked() == old(self).looked() + 1
                &&& a matches BunfigAction::Look(d) && d@ == old(self).dirs()[old(self).looked() as int]
            } else {
                &&& final(self).looked() == old(self).looked()
                &&& a matches BunfigAction::Done(f) && !f
            },
    {
        if self.looked < self.dirs.len() {
            let d = self.dirs[self.looked].clone();
            self.looked = self.looked + 1;
            BunfigAction::Look(d)
        } else {
            BunfigAction::Done(false)
        }
    }

    /// Starts the search for a file under `root`, with its first request.
    pub fn start(root: &str, path: &str) -> (r: (BunfigSearch, BunfigAction))
        ensures
            r.0.dirs() == bunfig_search_dirs(root@, path@),
            if r.0.dirs().len() > 0 {
                &&& r.0.looked() == 1
                &&& r.1 matches BunfigAction::Look(d) && d@ == r.0.dirs()[0]
            } else {
                &&& r.0.looked() == 0
                &&& r.1 matches BunfigAction::Done(f) && !f
            },
    {
        let dirs = bunfig_search_dirs_exec(root, path);
        let mut search = BunfigSearch { dirs, looked: 0 };
        let a = search.look_further();
        (search, a)
    }

    /// The next request, given what the caller learnt from the last one: an absent
    /// `bunfig.toml` sends the search one directory further out; a present one decides,
    /// by its cached setting or, once read, by whether it sets
    /// `[install].frozenLockfile = true` (one that cannot be read does not).
    pub fn step(&mut self, event: BunfigEvent) -> (a: BunfigAction)
        ensures
            final(self).dirs() == old(self).dirs(),
            match event {
                BunfigEvent::Absent => if old(self).looked() < old(self).dirs().len() {
                    &&& final(self).looked() == old(self).looked() + 1
                    &&& a matches BunfigAction::Look(d) && d@ == old(self).dirs()[old(self).looked() as int]
                } else {
                    &&& final(self).looked() == old(self).looked()
                    &&& a matches BunfigAction::Done(f) && !f
                },
                BunfigEvent::Present(Some(frozen)) => {
                    &&& final(self).looked() == old(self).looked()
                    &&& a matches BunfigAction::Done(f) && f == frozen
                },
                BunfigEvent::Present(None) => final(self).looked() == old(self).looked() && a is Read,
                BunfigEvent::Read(content) => {
                    &&& final(self).looked() == old(self).looked()
                    &&& a matches BunfigAction::Done(f) && f == match content {
                        Some(t) => bunfig_frozen(t@),
                        None => false,
                    }
                },
            },
    {
        match event {
            BunfigEvent::Absent => self.look_further(),
            BunfigEvent::Present(Some(frozen)) => BunfigAction::Done(frozen),
            BunfigEvent::Present(None) => BunfigAction::Read,
            BunfigEvent::Read(content) => match content {
                Some(t) => BunfigAction::Done(bunfig_has_frozen_lockfile(t.as_str())),
                None => BunfigAction::Done(false),
            },
        }
    }
}

} // verus!
