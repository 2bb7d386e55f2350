use vstd::prelude::*;

use crate::text::string_views;
use crate::text::{chars_of, copy_range, find_char_from, index_of, lemma_index_of, string_of, views};

verus! {

// ---------------------------------------------------------------------------
// A model of `std::path` for `/`-separated paths
// ---------------------------------------------------------------------------
//
// A path is its text; its components are what `Path::components` yields, written as text:
// `/` for the root directory, `.` for a leading current directory, `..` for a parent
// directory and the name itself for a normal component.

/// The pieces of `s` between the separators `/` (`str::split('/')`).
pub open spec fn segments(s: Seq<char>) -> Seq<Seq<char>>
    decreases s.len(),
{
    let k = index_of(s, '/');
    if k < 0 {
        seq![s]
    } else {
        proof {
            lemma_index_of(s, '/');
        }
        seq![s.take(k)] + segments(s.skip(k + 1))
    }
}

/// A segment that names a component (not empty, not `.`).
pub open spec fn names_component(seg: Seq<char>) -> bool {
    seg.len() > 0 && seg != seq!['.']
}

/// The segments that name components, in order.
pub open spec fn named(segs: Seq<Seq<char>>) -> Seq<Seq<char>>
    decreases segs.len(),
{
    if segs.len() == 0 {
        Seq::empty()
    } else {
        let rest = named(segs.drop_last());
        if names_component(segs.last()) {
            rest.push(segs.last())
        } else {
            rest
        }
    }
}

pub open spec fn root() -> Seq<char> {
    seq!['/']
}

pub open spec fn cur_dir() -> Seq<char> {
    seq!['.']
}

pub open spec fn parent_dir() -> Seq<char> {
    seq!['.', '.']
}

/// The components of a path (`Path::components`).
pub open spec fn components(p: Seq<char>) -> Seq<Seq<char>> {
    if p.len() > 0 && p[0] == '/' {
        seq![root()] + named(segments(p.skip(1)))
    } else {
        let segs = segments(p);
        if segs[0] == cur_dir() {
            seq![cur_dir()] + named(segs.drop_first())
        } else {
            named(segs)
        }
    }
}

/// Two paths are equal when their components are (`Path`'s `==`).
pub open spec fn same_path(a: Seq<char>, b: Seq<char>) -> bool {
    components(a) == components(b)
}

/// The last component, when it is a normal one (`Path::file_name`).
pub open spec fn file_name(p: Seq<char>) -> Option<Seq<char>> {
    let c = components(p);
    if c.len() == 0 {
        None
    } else {
        let last = c.last();
        if last == root() || last == cur_dir() || last == parent_dir() {
            None
        } else {
            Some(last)
        }
    }
}

/// The index of the last `.` in `s`, or -1.
pub open spec fn last_dot(s: Seq<char>) -> int
    decreases s.len(),
{
    if s.len() == 0 {
        -1
    } else if s.last() == '.' {
        s.len() - 1
    } else {
        last_dot(s.drop_last())
    }
}

/// The extension of a file name: what follows its last `.`, unless that dot starts the
/// name (`Path::extension`).
pub open spec fn name_extension(name: Seq<char>) -> Option<Seq<char>> {
    let d = last_dot(name);
    if name == parent_dir() || d <= 0 {
        None
    } else {
        Some(name.skip(d + 1))
    }
}

pub open spec fn extension(p: Seq<char>) -> Option<Seq<char>> {
    match file_name(p) {
        Some(name) => name_extension(name),
        None => None,
    }
}

/// The text of a path made of the given components.
pub open spec fn render(c: Seq<Seq<char>>) -> Seq<char>
    decreases c.len(),
{
    if c.len() == 0 {
        Seq::empty()
    } else if c.len() == 1 {
        c[0]
    } else if c.len() == 2 && c[0] == root() {
        c[0] + c[1]
    } else {
        render(c.drop_last()) + seq!['/'] + c.last()
    }
}

/// The path without its last component (`Path::parent`).
pub open spec fn parent(p: Seq<char>) -> Option<Seq<char>> {
    let c = components(p);
    if c.len() == 0 || c.last() == root() {
        None
    } else {
        Some(render(c.drop_last()))
    }
}

/// `base` followed by `rel` (`Path::join`): `rel` itself when it is absolute.
pub open spec fn join(base: Seq<char>, rel: Seq<char>) -> Seq<char> {
    if rel.len() > 0 && rel[0] == '/' {
        rel
    } else if base.len() == 0 || base.last() == '/' {
        base + rel
    } else {
        base + seq!['/'] + rel
    }
}

/// The components of `base` begin those of `p` (`Path::starts_with`).
pub open spec fn path_starts_with(p: Seq<char>, base: Seq<char>) -> bool {
    let c = components(p);
    let b = components(base);
    b.len() <= c.len() && c.take(b.len() as int) == b
}

/// `p` relative to `base` (`Path::strip_prefix`).
pub open spec fn strip_base(p: Seq<char>, base: Seq<char>) -> Option<Seq<char>> {
    if path_starts_with(p, base) {
        Some(render(components(p).skip(components(base).len() as int)))
    } else {
        None
    }
}

// ---------------------------------------------------------------------------
// Executable versions
// ---------------------------------------------------------------------------

pub fn segments_of(s: &[char]) -> (r: Vec<Vec<char>>)
    ensures
        views(r@) == segments(s@),
{
    let mut r: Vec<Vec<char>> = Vec::new();
    let mut start: usize = 0;
    assert(s@.skip(0) == s@);
    loop
        invariant
            start <= s.len(),
            views(r@) + segments(s@.skip(start as int)) == segments(s@),
        decreases s.len() - start,
    {
        let ghost rest = s@.skip(start as int);
        let ghost before = views(r@);
        match find_char_from(s, '/', start) {
            Some(k) => {
                let piece = copy_range(s, start, k);
                proof {
                    assert(rest.take(k - start) == s@.subrange(start as int, k as int));
                    assert(rest.skip(k - start + 1) == s@.skip(k + 1));
                }
                r.push(piece);
                proof {
                    assert(views(r@) =~= before.push(piece@));
                    assert(before + segments(rest) =~= before.push(piece@) + segments(s@.skip(k + 1)));
                }
                start = k + 1;
            },
            None => {
                let piece = copy_range(s, start, s.len());
                r.push(piece);
                proof {
                    assert(piece@ == rest);
                    assert(views(r@) =~= before.push(piece@));
                    assert(views(r@) =~= before + segments(rest));
                }
                return r;
            },
        }
    }
}

fn names_component_exec(seg: &[char]) -> (r: bool)
    ensures
        r == names_component(seg@),
{
    if seg.len() == 0 {
        return false;
    }
    if seg.len() == 1 && seg[0] == '.' {
        assert(seg@ =~= seq!['.']);
        return false;
    }
    assert(seg@.len() != 1 ==> seg@ != seq!['.']);
    assert(seg@.len() == 1 && seg@[0] != '.' ==> seg@ != seq!['.']) by {
        if seg@.len() == 1 && seg@[0] != '.' {
            assert(seg@[0] != seq!['.'][0]);
        }
    }
    true
}

fn named_exec(segs: &Vec<Vec<char>>, from: usize, out: &mut Vec<Vec<char>>)
    requires
        from <= segs.len(),
    ensures
        views(final(out)@) == views(old(out)@) + named(views(segs@).skip(from as int)),
{
    let ghost base = views(out@);
    let ghost vs = views(segs@).skip(from as int);
    let mut i = from;
    assert(vs.take(0) =~= Seq::<Seq<char>>::empty());
    while i < segs.len()
        invariant
            from <= i <= segs.len(),
            vs == views(segs@).skip(from as int),
            views(out@) == base + named(vs.take(i - from)),
        decreases segs.len() - i,
    {
        let ghost prev = views(out@);
        proof {
            assert(vs.take(i - from + 1).drop_last() == vs.take(i - from));
            assert(vs.take(i - from + 1).last() == segs@[i as int]@);
        }
        if names_component_exec(segs[i].as_slice()) {
            out.push(copy_range(segs[i].as_slice(), 0, segs[i].len()));
            proof {
                assert(segs@[i as int]@.subrange(0, segs@[i as int]@.len() as int) == segs@[i as int]@);
                assert(views(out@) =~= prev.push(segs@[i as int]@));
            }
        }
        i += 1;
    }
    assert(vs.take(segs.len() - from) == vs);
}

/// The components of a path (`Path::components`), as text.
pub fn components_of(p: &[char]) -> (r: Vec<Vec<char>>)
    ensures
        views(r@) == components(p@),
{
    let mut out: Vec<Vec<char>> = Vec::new();
    if p.len() > 0 && p[0] == '/' {
        out.push(chars_of("/"));
        proof {
            reveal_strlit("/");
            assert("/"@ =~= root());
        }
        let rest = copy_range(p, 1, p.len());
        let segs = segments_of(rest.as_slice());
        proof {
            assert(rest@ == p@.skip(1));
            assert(views(segs@).skip(0) == views(segs@));
            assert(views(out@) =~= seq![root()]);
        }
        named_exec(&segs, 0, &mut out);
        out
    } else {
        let segs = segments_of(p);
        proof {
            assert(segments(p@).len() >= 1) by {
                lemma_segments_nonempty(p@);
            }
        }
        if segs[0].len() == 1 && segs[0][0] == '.' {
            out.push(chars_of("."));
            proof {
                reveal_strlit(".");
                assert("."@ =~= cur_dir());
                assert(segs@[0]@ =~= cur_dir());
                assert(views(out@) =~= seq![cur_dir()]);
                assert(views(segs@).skip(1) == segments(p@).drop_first());
            }
            named_exec(&segs, 1, &mut out);
        } else {
            proof {
                assert(segs@[0]@ != cur_dir()) by {
                    if segs@[0]@.len() == 1 {
                        assert(segs@[0]@[0] != cur_dir()[0]);
                    }
                }
                assert(views(segs@).skip(0) == views(segs@));
                assert(views(out@) =~= Seq::<Seq<char>>::empty());
            }
            named_exec(&segs, 0, &mut out);
        }
        out
    }
}

pub proof fn lemma_segments_nonempty(s: Seq<char>)
    ensures
        segments(s).len() >= 1,
    decreases s.len(),
{
    let k = index_of(s, '/');
    lemma_index_of(s, '/');
    if k >= 0 {
        lemma_segments_nonempty(s.skip(k + 1));
    }
}

fn is_char_seq1(c: &[char], x: char) -> (r: bool)
    ensures
        r == (c@ == seq![x]),
{
    if c.len() == 1 && c[0] == x {
        assert(c@ =~= seq![x]);
        true
    } else {
        if c.len() == 1 {
            assert(c@[0] != seq![x][0]);
        }
        false
    }
}

fn is_parent_dir(c: &[char]) -> (r: bool)
    ensures
        r == (c@ == parent_dir()),
{
    if c.len() == 2 && c[0] == '.' && c[1] == '.' {
        assert(c@ =~= parent_dir());
        true
    } else {
        if c.len() == 2 {
            assert(c@[0] != parent_dir()[0] || c@[1] != parent_dir()[1]);
        }
        false
    }
}

/// `Path::file_name`.
pub fn file_name_of(p: &[char]) -> (r: Option<Vec<char>>)
    ensures
        match r {
            Some(n) => file_name(p@) == Some(n@),
            None => file_name(p@) is None,
        },
{
    let c = components_of(p);
    if c.len() == 0 {
        return None;
    }
    let last = &c[c.len() - 1];
    assert(views(c@).last() == last@);
    if is_char_seq1(last.as_slice(), '/') || is_char_seq1(last.as_slice(), '.') || is_parent_dir(
        last.as_slice(),
    ) {
        None
    } else {
        Some(copy_range(last.as_slice(), 0, last.len()))
    }
}

fn last_dot_exec(s: &[char]) -> (r: Option<usize>)
    ensures
        match r {
            Some(d) => last_dot(s@) == d && d < s.len(),
            None => last_dot(s@) == -1,
        },
{
    let mut i = s.len();
    assert(s@.take(s.len() as int) == s@);
    while i > 0 && s[i - 1] != '.'
        invariant
            i <= s.len(),
            last_dot(s@) == last_dot(s@.take(i as int)),
        decreases i,
    {
        assert(s@.take(i as int).drop_last() == s@.take(i - 1));
        i -= 1;
    }
    assert(s@.take(s.len() as int) == s@);
    if i == 0 {
        None
    } else {
        Some(i - 1)
    }
}

/// `Path::extension`.
pub fn extension_of(p: &[char]) -> (r: Option<Vec<char>>)
    ensures
        match r {
            Some(e) => extension(p@) == Some(e@),
            None => extension(p@) is None,
        },
{
    let name = match file_name_of(p) {
        Some(n) => n,
        None => return None,
    };
    if is_parent_dir(name.as_slice()) {
        return None;
    }
    match last_dot_exec(name.as_slice()) {
        Some(d) => {
            if d == 0 {
                None
            } else {
                Some(copy_range(name.as_slice(), d + 1, name.len()))
            }
        },
        None => None,
    }
}

/// The text of a path made of the given components.
pub fn render_exec(c: &Vec<Vec<char>>) -> (r: Vec<char>)
    ensures
        r@ == render(views(c@)),
{
    let ghost cv = views(c@);
    let mut r: Vec<char> = Vec::new();
    let mut i: usize = 0;
    assert(cv.take(0) =~= Seq::<Seq<char>>::empty());
    while i < c.len()
        invariant
            i <= c.len(),
            cv == views(c@),
            r@ == render(cv.take(i as int)),
        decreases c.len() - i,
    {
        proof {
            assert(cv.take(i + 1).drop_last() == cv.take(i as int));
            assert(cv.take(i + 1).last() == c@[i as int]@);
        }
        if i == 0 || (i == 1 && is_char_seq1(c[0].as_slice(), '/')) {
            if i == 1 {
                assert(cv.take(2)[0] == c@[0]@);
                assert(cv.take(1) =~= seq![c@[0]@]);
            }
        } else {
            r.push('/');
            proof {
                if i == 1 {
                    assert(cv.take(2)[0] == c@[0]@);
                }
            }
        }
        let mut k: usize = 0;
        let ghost before = r@;
        while k < c[i].len()
            invariant
                i < c.len(),
                k <= c@[i as int].len(),
                r@ == before + c@[i as int]@.take(k as int),
            decreases c@[i as int].len() - k,
        {
            r.push(c[i][k]);
            assert(c@[i as int]@.take(k + 1) == c@[i as int]@.take(k as int).push(c@[i as int]@[k as int]));
            k += 1;
        }
        assert(c@[i as int]@.take(k as int) == c@[i as int]@);
        i += 1;
    }
    assert(cv.take(c.len() as int) == cv);
    r
}

/// `Path::parent`, as text.
pub fn parent_of(p: &[char]) -> (r: Option<Vec<char>>)
    ensures
        match r {
            Some(q) => parent(p@) == Some(q@),
            None => parent(p@) is None,
        },
{
    let mut c = components_of(p);
    if c.len() == 0 {
        return None;
    }
    let n = c.len();
    assert(views(c@).last() == c@[n - 1]@);
    if is_char_seq1(c[n - 1].as_slice(), '/') {
        return None;
    }
    let ghost whole = views(c@);
    c.truncate(n - 1);
    assert(views(c@) =~= whole.drop_last());
    Some(render_exec(&c))
}

/// `Path::join`, as text.
pub fn join_exec(base: &[char], rel: &[char]) -> (r: Vec<char>)
    ensures
        r@ == join(base@, rel@),
{
    if rel.len() > 0 && rel[0] == '/' {
        return copy_range(rel, 0, rel.len());
    }
    let mut r = copy_range(base, 0, base.len());
    if !(base.len() == 0 || base[base.len() - 1] == '/') {
        r.push('/');
    }
    let ghost before = r@;
    let mut k: usize = 0;
    while k < rel.len()
        invariant
            k <= rel.len(),
            r@ == before + rel@.take(k as int),
        decreases rel.len() - k,
    {
        r.push(rel[k]);
        assert(rel@.take(k + 1) == rel@.take(k as int).push(rel@[k as int]));
        k += 1;
    }
    assert(rel@.take(rel.len() as int) == rel@);
    r
}

/// `Path::join` on strings.
pub fn join_str(base: &str, rel: &str) -> (r: String)
    ensures
        r@ == join(base@, rel@),
{
    let b = chars_of(base);
    let l = chars_of(rel);
    let j = join_exec(b.as_slice(), l.as_slice());
    string_of(j.as_slice())
}

fn components_equal(a: &Vec<Vec<char>>, b: &Vec<Vec<char>>, n: usize) -> (r: bool)
    requires
        n <= a.len(),
        n <= b.len(),
    ensures
        r == (views(a@).take(n as int) == views(b@).take(n as int)),
{
    let mut i: usize = 0;
    while i < n
        invariant
            i <= n <= a.len(),
            n <= b.len(),
            views(a@).take(i as int) == views(b@).take(i as int),
        decreases n - i,
    {
        if !crate::text::chars_equal(a[i].as_slice(), b[i].as_slice()) {
            assert(views(a@).take(n as int)[i as int] != views(b@).take(n as int)[i as int]);
            return false;
        }
        assert(views(a@).take(i + 1) =~= views(a@).take(i as int).push(a@[i as int]@));
        assert(views(b@).take(i + 1) =~= views(b@).take(i as int).push(b@[i as int]@));
        i += 1;
    }
    true
}

/// Whether two lists of components are equal.
pub fn same_components(a: &Vec<Vec<char>>, b: &Vec<Vec<char>>) -> (r: bool)
    ensures
        r == (views(a@) == views(b@)),
{
    if a.len() != b.len() {
        return false;
    }
    let r = components_equal(a, b, a.len());
    assert(views(a@).take(a.len() as int) == views(a@));
    assert(views(b@).take(b.len() as int) == views(b@));
    r
}

/// Path equality (`Path`'s `==`).
pub fn same_path_exec(a: &[char], b: &[char]) -> (r: bool)
    ensures
        r == same_path(a@, b@),
{
    let ca = components_of(a);
    let cb = components_of(b);
    if ca.len() != cb.len() {
        return false;
    }
    let r = components_equal(&ca, &cb, ca.len());
    assert(views(ca@).take(ca.len() as int) == views(ca@));
    assert(views(cb@).take(cb.len() as int) == views(cb@));
    r
}

/// `Path::starts_with`.
pub fn path_starts_with_exec(p: &[char], base: &[char]) -> (r: bool)
    ensures
        r == path_starts_with(p@, base@),
{
    let c = components_of(p);
    let b = components_of(base);
    if b.len() > c.len() {
        return false;
    }
    let r = components_equal(&c, &b, b.len());
    assert(views(b@).take(b.len() as int) == views(b@));
    r
}

/// `Path::strip_prefix`, as text.
pub fn strip_base_exec(p: &[char], base: &[char]) -> (r: Option<Vec<char>>)
    ensures
        match r {
            Some(q) => strip_base(p@, base@) == Some(q@),
            None => strip_base(p@, base@) is None,
        },
{
    if !path_starts_with_exec(p, base) {
        return None;
    }
    let c = components_of(p);
    let n = components_of(base).len();
    let mut rest: Vec<Vec<char>> = Vec::new();
    let mut i = n;
    assert(views(c@).skip(n as int).take(0) =~= Seq::<Seq<char>>::empty());
    while i < c.len()
        invariant
            n <= i <= c.len(),
            views(rest@) == views(c@).skip(n as int).take(i - n),
        decreases c.len() - i,
    {
        let ghost prev = views(rest@);
        rest.push(copy_range(c[i].as_slice(), 0, c[i].len()));
        assert(c@[i as int]@.subrange(0, c@[i as int]@.len() as int) == c@[i as int]@);
        assert(views(rest@) =~= prev.push(c@[i as int]@));
        assert(views(c@).skip(n as int).take(i + 1 - n) =~= views(c@).skip(n as int).take(i - n).push(
            c@[i as int]@,
        ));
        i += 1;
    }
    assert(views(c@).skip(n as int).take(c.len() - n) == views(c@).skip(n as int));
    Some(render_exec(&rest))
}

// ---------------------------------------------------------------------------
// Ordering (`Path`'s `Ord`: component by component)
// ---------------------------------------------------------------------------

/// Root, current directory, parent directory, then normal components.
pub open spec fn component_rank(c: Seq<char>) -> int {
    if c == root() {
        0
    } else if c == cur_dir() {
        1
    } else if c == parent_dir() {
        2
    } else {
        3
    }
}

/// Lexicographic order of texts by code point (that of their UTF-8 bytes).
pub open spec fn text_before(a: Seq<char>, b: Seq<char>) -> bool
    decreases a.len(),
{
    if a.len() == 0 {
        b.len() > 0
    } else if b.len() == 0 {
        false
    } else if a[0] == b[0] {
        text_before(a.drop_first(), b.drop_first())
    } else {
        (a[0] as u32) < (b[0] as u32)
    }
}

pub open spec fn component_before(a: Seq<char>, b: Seq<char>) -> bool {
    component_rank(a) < component_rank(b) || (component_rank(a) == 3 && component_rank(b) == 3
        && text_before(a, b))
}

pub open spec fn components_before(x: Seq<Seq<char>>, y: Seq<Seq<char>>) -> bool
    decreases x.len(),
{
    if x.len() == 0 {
        y.len() > 0
    } else if y.len() == 0 {
        false
    } else if component_before(x[0], y[0]) {
        true
    } else if x[0] == y[0] {
        components_before(x.drop_first(), y.drop_first())
    } else {
        false
    }
}

/// `a < b` for paths.
pub open spec fn path_before(a: Seq<char>, b: Seq<char>) -> bool {
    components_before(components(a), components(b))
}

fn rank_exec(c: &[char]) -> (r: u8)
    ensures
        r == component_rank(c@),
{
    if is_char_seq1(c, '/') {
        0
    } else if is_char_seq1(c, '.') {
        1
    } else if is_parent_dir(c) {
        2
    } else {
        3
    }
}

fn text_before_exec(a: &[char], b: &[char]) -> (r: bool)
    ensures
        r == text_before(a@, b@),
{
    let mut i: usize = 0;
    assert(a@.skip(0) == a@);
    assert(b@.skip(0) == b@);
    while i < a.len() && i < b.len() && a[i] == b[i]
        invariant
            i <= a.len(),
            i <= b.len(),
            text_before(a@, b@) == text_before(a@.skip(i as int), b@.skip(i as int)),
        decreases a.len() - i,
    {
        assert(a@.skip(i as int).drop_first() == a@.skip(i + 1));
        assert(b@.skip(i as int).drop_first() == b@.skip(i + 1));
        i += 1;
    }
    if i == a.len() {
        assert(a@.skip(i as int).len() == 0);
        i < b.len()
    } else if i == b.len() {
        assert(b@.skip(i as int).len() == 0);
        false
    } else {
        assert(a@.skip(i as int)[0] == a@[i as int]);
        assert(b@.skip(i as int)[0] == b@[i as int]);
        (a[i] as u32) < (b[i] as u32)
    }
}

pub fn components_before_exec(x: &Vec<Vec<char>>, y: &Vec<Vec<char>>) -> (r: bool)
    ensures
        r == components_before(views(x@), views(y@)),
{
    let mut i: usize = 0;
    assert(views(x@).skip(0) == views(x@));
    assert(views(y@).skip(0) == views(y@));
    while i < x.len() && i < y.len()
        invariant
            i <= x.len(),
            i <= y.len(),
            components_before(views(x@), views(y@)) == components_before(
                views(x@).skip(i as int),
                views(y@).skip(i as int),
            ),
        decreases x.len() - i,
    {
        let ra = rank_exec(x[i].as_slice());
        let rb = rank_exec(y[i].as_slice());
        assert(views(x@).skip(i as int)[0] == x@[i as int]@);
        assert(views(y@).skip(i as int)[0] == y@[i as int]@);
        if ra < rb || (ra == 3 && rb == 3 && text_before_exec(x[i].as_slice(), y[i].as_slice())) {
            return true;
        }
        if !crate::text::chars_equal(x[i].as_slice(), y[i].as_slice()) {
            return false;
        }
        assert(views(x@).skip(i as int).drop_first() =~= views(x@).skip(i + 1));
        assert(views(y@).skip(i as int).drop_first() =~= views(y@).skip(i + 1));
        i += 1;
    }
    assert(views(x@).skip(i as int).len() == x.len() - i);
    assert(views(y@).skip(i as int).len() == y.len() - i);
    i == x.len() && i < y.len()
}

proof fn lemma_same_head_tail<T>(a: Seq<T>, b: Seq<T>)
    requires
        a.len() > 0,
        b.len() > 0,
        a[0] == b[0],
        a.drop_first() == b.drop_first(),
    ensures
        a == b,
{
    assert(a.drop_first().len() == a.len() - 1);
    assert(b.drop_first().len() == b.len() - 1);
    assert forall|i: int| 0 <= i < a.len() implies a[i] == b[i] by {
        if i > 0 {
            assert(a[i] == a.drop_first()[i - 1]);
            assert(b[i] == b.drop_first()[i - 1]);
        }
    }
    assert(a =~= b);
}

proof fn lemma_text_before_order(a: Seq<char>, b: Seq<char>, c: Seq<char>)
    ensures
        !text_before(a, a),
        text_before(a, b) && text_before(b, c) ==> text_before(a, c),
        a != b ==> text_before(a, b) || text_before(b, a),
    decreases a.len(),
{
    if a.len() > 0 {
        lemma_text_before_order(a.drop_first(), b.drop_first(), c.drop_first());
        if b.len() > 0 && a[0] == b[0] && a.drop_first() == b.drop_first() {
            lemma_same_head_tail(a, b);
        }
        if b.len() > 0 && a[0] != b[0] {
            vstd::utf8::char_u32_cast(a[0], a[0] as u32);
            vstd::utf8::char_u32_cast(b[0], b[0] as u32);
        }
    } else if b.len() == 0 {
        assert(a =~= b);
    }
}

proof fn lemma_component_before_order(a: Seq<char>, b: Seq<char>, c: Seq<char>)
    ensures
        !component_before(a, a),
        component_before(a, b) && component_before(b, c) ==> component_before(a, c),
        a != b ==> component_before(a, b) || component_before(b, a),
{
    lemma_text_before_order(a, b, c);
}

pub proof fn lemma_components_before_order(x: Seq<Seq<char>>, y: Seq<Seq<char>>, z: Seq<Seq<char>>)
    ensures
        !components_before(x, x),
        components_before(x, y) && components_before(y, z) ==> components_before(x, z),
        x != y ==> components_before(x, y) || components_before(y, x),
    decreases x.len(),
{
    if x.len() > 0 {
        lemma_component_before_order(x[0], x[0], x[0]);
        if y.len() > 0 {
            lemma_component_before_order(x[0], y[0], x[0]);
            lemma_component_before_order(y[0], x[0], y[0]);
            if z.len() > 0 {
                lemma_component_before_order(x[0], y[0], z[0]);
            }
            lemma_components_before_order(x.drop_first(), y.drop_first(), z.drop_first());
            if x[0] == y[0] && x.drop_first() == y.drop_first() {
                lemma_same_head_tail(x, y);
            }
        } else {
            lemma_components_before_order(x.drop_first(), x.drop_first(), x.drop_first());
        }
    } else if y.len() == 0 {
        assert(x =~= y);
    }
}

/// `Path`'s order is a strict total order on paths up to `==`: no path is before itself
/// (nor before an equal one), it is transitive, and of two paths that are not equal one is
/// before the other.
pub proof fn lemma_path_order(a: Seq<char>, b: Seq<char>, c: Seq<char>)
    ensures
        same_path(a, b) ==> !path_before(a, b),
        path_before(a, b) && path_before(b, c) ==> path_before(a, c),
        same_path(a, b) || path_before(a, b) || path_before(b, a),
{
    lemma_components_before_order(components(a), components(b), components(c));
}

/// `a < b` for paths.
pub fn path_before_exec(a: &[char], b: &[char]) -> (r: bool)
    ensures
        r == path_before(a@, b@),
{
    let ca = components_of(a);
    let cb = components_of(b);
    components_before_exec(&ca, &cb)
}


// ---------------------------------------------------------------------------
// Sorting and deduplicating paths (`Vec<PathBuf>::sort` then `dedup`)
// ---------------------------------------------------------------------------

/// `x` placed before the first path that it sorts before, after all others.
pub open spec fn insert_path(s: Seq<Seq<char>>, x: Seq<char>) -> Seq<Seq<char>>
    decreases s.len(),
{
    if s.len() == 0 {
        seq![x]
    } else if path_before(x, s[0]) {
        seq![x] + s
    } else {
        seq![s[0]] + insert_path(s.drop_first(), x)
    }
}

/// The paths in `Path` order; paths that compare equal keep their order (a stable sort).
pub open spec fn sort_paths(s: Seq<Seq<char>>) -> Seq<Seq<char>>
    decreases s.len(),
{
    if s.len() == 0 {
        Seq::empty()
    } else {
        insert_path(sort_paths(s.drop_last()), s.last())
    }
}

/// Each path dropped that names the same path as the last one kept (`Vec::dedup`).
pub open spec fn dedup_paths(s: Seq<Seq<char>>) -> Seq<Seq<char>>
    decreases s.len(),
{
    if s.len() == 0 {
        s
    } else {
        let d = dedup_paths(s.drop_last());
        if d.len() > 0 && same_path(d.last(), s.last()) {
            d
        } else {
            d.push(s.last())
        }
    }
}

proof fn lemma_insert_path_at(s: Seq<Seq<char>>, x: Seq<char>, j: int)
    requires
        0 <= j <= s.len(),
        forall|k: int| 0 <= k < j ==> !path_before(x, #[trigger] s[k]),
        j == s.len() || path_before(x, s[j]),
    ensures
        insert_path(s, x) == s.take(j) + seq![x] + s.skip(j),
    decreases s.len(),
{
    if s.len() == 0 {
        assert(s.take(j) + seq![x] + s.skip(j) =~= seq![x]);
    } else if j == 0 {
        assert(s.take(j) + seq![x] + s.skip(j) =~= seq![x] + s);
    } else {
        let t = s.drop_first();
        assert forall|k: int| 0 <= k < j - 1 implies !path_before(x, #[trigger] t[k]) by {
            assert(t[k] == s[k + 1]);
        }
        if j < s.len() {
            assert(t[j - 1] == s[j]);
        }
        lemma_insert_path_at(t, x, j - 1);
        assert(s.take(j) + seq![x] + s.skip(j) =~= seq![s[0]] + (t.take(j - 1) + seq![x] + t.skip(j - 1)));
    }
}

/// The paths sorted as `Path`s are, equal ones in their given order.
pub fn sort_path_strings(v: &Vec<String>) -> (r: Vec<String>)
    ensures
        string_views(r@) == sort_paths(string_views(v@)),
{
    let ghost sv = string_views(v@);
    let mut out: Vec<String> = Vec::new();
    let mut i: usize = 0;
    assert(sv.take(0) =~= Seq::<Seq<char>>::empty());
    while i < v.len()
        invariant
            i <= v.len(),
            sv == string_views(v@),
            string_views(out@) == sort_paths(sv.take(i as int)),
        decreases v.len() - i,
    {
        let x = v[i].clone();
        let xc = chars_of(x.as_str());
        let ghost before = string_views(out@);
        let mut j: usize = 0;
        loop
            invariant_except_break
                j <= out.len(),
                string_views(out@) == before,
                forall|k: int| 0 <= k < j ==> !path_before(x@, #[trigger] before[k]),
            invariant
                xc@ == x@,
            ensures
                j <= out.len(),
                string_views(out@) == before,
                forall|k: int| 0 <= k < j ==> !path_before(x@, #[trigger] before[k]),
                j == out.len() || path_before(x@, before[j as int]),
            decreases out.len() - j,
        {
            if j == out.len() {
                break;
            }
            let yc = chars_of(out[j].as_str());
            assert(before[j as int] == out@[j as int]@);
            if path_before_exec(xc.as_slice(), yc.as_slice()) {
                break;
            }
            j += 1;
        }
        proof {
            lemma_insert_path_at(before, x@, j as int);
            assert(sv.take(i + 1).drop_last() =~= sv.take(i as int));
            assert(sv.take(i + 1).last() == x@);
        }
        out.insert(j, x);
        assert(string_views(out@) =~= before.take(j as int) + seq![x@] + before.skip(j as int));
        i += 1;
    }
    assert(sv.take(v.len() as int) =~= sv);
    out
}

/// The paths with each one dropped that names the same path as the last one kept.
pub fn dedup_path_strings(v: &Vec<String>) -> (r: Vec<String>)
    ensures
        string_views(r@) == dedup_paths(string_views(v@)),
{
    let ghost sv = string_views(v@);
    let mut out: Vec<String> = Vec::new();
    let mut last: Vec<char> = Vec::new();
    let mut i: usize = 0;
    assert(sv.take(0) =~= Seq::<Seq<char>>::empty());
    while i < v.len()
        invariant
            i <= v.len(),
            sv == string_views(v@),
            string_views(out@) == dedup_paths(sv.take(i as int)),
            out.len() > 0 ==> last@ == out@.last()@,
        decreases v.len() - i,
    {
        let xc = chars_of(v[i].as_str());
        let ghost d = string_views(out@);
        proof {
            assert(sv.take(i + 1).drop_last() =~= sv.take(i as int));
            assert(sv.take(i + 1).last() == v@[i as int]@);
            if out.len() > 0 {
                assert(d.last() == out@.last()@);
            }
        }
        if out.len() == 0 || !same_path_exec(last.as_slice(), xc.as_slice()) {
            out.push(v[i].clone());
            assert(string_views(out@) =~= d.push(v@[i as int]@));
            last = xc;
        }
        i += 1;
    }
    assert(sv.take(v.len() as int) =~= sv);
    out
}

} // verus!
