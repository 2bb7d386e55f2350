use vstd::prelude::*;

use crate::diagnostic::{file_views, FileFindings, FileLintResult, Violation};
use crate::paths::{
    components, components_before, components_before_exec, components_of, lemma_components_before_order,
    path_before, same_path,
};
use crate::text::{chars_of, views};

verus! {

// ---------------------------------------------------------------------------
// File results in path order (a stable sort by `Path`)
// ---------------------------------------------------------------------------

/// Result `i` comes before result `j`: its path is before, or the paths are equal and `i`
/// was given first.
pub open spec fn path_order_lt(paths: Seq<Seq<char>>, i: int, j: int) -> bool {
    path_before(paths[i], paths[j]) || (same_path(paths[i], paths[j]) && i < j)
}

/// `order` lists indices of `paths` strictly in path order, as many as there are paths: each
/// index once, equal paths in their given order (what a stable sort by path yields).
pub open spec fn path_order(paths: Seq<Seq<char>>, order: Seq<int>) -> bool {
    &&& order.len() == paths.len()
    &&& forall|k: int| 0 <= k < order.len() ==> 0 <= #[trigger] order[k] < paths.len()
    &&& forall|k: int, l: int|
        0 <= k < l < order.len() ==> path_order_lt(paths, #[trigger] order[k], #[trigger] order[l])
}

/// The paths of file reports.
pub open spec fn paths_of(v: Seq<FileFindings>) -> Seq<Seq<char>> {
    v.map_values(|f: FileFindings| f.path)
}

/// `out` is `v` sorted by path, reports for equal paths in their given order.
pub open spec fn sorted_by_path(v: Seq<FileFindings>, out: Seq<FileFindings>) -> bool {
    exists|order: Seq<int>| path_order(paths_of(v), order) && out == order.map_values(|i: int| v[i])
}

proof fn lemma_empty_multiset(s: Seq<usize>)
    requires
        s.len() == 0,
    ensures
        s.to_multiset() =~= vstd::multiset::Multiset::<usize>::empty(),
{
    vstd::seq_lib::to_multiset_len(s);
    vstd::multiset::lemma_multiset_empty_len(s.to_multiset());
}

/// The indices `lo`, `lo + 1`, ..., `hi - 1`.
spec fn index_range(lo: usize, hi: usize) -> Seq<usize> {
    Seq::new((hi - lo) as nat, |k: int| (lo + k) as usize)
}

pub open spec fn key_views(keys: Seq<Vec<Vec<char>>>) -> Seq<Seq<Seq<char>>> {
    keys.map_values(|v: Vec<Vec<char>>| views(v@))
}

spec fn key_lt(kv: Seq<Seq<Seq<char>>>, i: int, j: int) -> bool {
    components_before(kv[i], kv[j]) || (kv[i] == kv[j] && i < j)
}

spec fn sorted_keys(kv: Seq<Seq<Seq<char>>>, s: Seq<usize>) -> bool {
    forall|k: int, l: int| 0 <= k < l < s.len() ==> key_lt(kv, #[trigger] s[k] as int, #[trigger] s[l] as int)
}

proof fn lemma_key_lt_trans(kv: Seq<Seq<Seq<char>>>, x: int, y: int, z: int)
    requires
        key_lt(kv, x, y),
        key_lt(kv, y, z),
    ensures
        key_lt(kv, x, z),
{
    lemma_components_before_order(kv[x], kv[y], kv[z]);
    lemma_components_before_order(kv[y], kv[x], kv[z]);
    lemma_components_before_order(kv[x], kv[z], kv[y]);
}

/// Merges two index lists sorted by key, all of `a` below all of `b`.
fn merge(keys: &Vec<Vec<Vec<char>>>, a: &Vec<usize>, b: &Vec<usize>, lo: usize, mid: usize, hi: usize) -> (r: Vec<usize>)
    requires
        lo <= mid <= hi <= keys.len(),
        a.len() == mid - lo,
        b.len() == hi - mid,
        forall|k: int| 0 <= k < a.len() ==> lo <= #[trigger] a@[k] < mid,
        forall|k: int| 0 <= k < b.len() ==> mid <= #[trigger] b@[k] < hi,
        sorted_keys(key_views(keys@), a@),
        sorted_keys(key_views(keys@), b@),
    ensures
        r.len() == hi - lo,
        forall|k: int| 0 <= k < r.len() ==> lo <= #[trigger] r@[k] < hi,
        sorted_keys(key_views(keys@), r@),
        r@.to_multiset() == a@.to_multiset().add(b@.to_multiset()),
{
    let ghost kv = key_views(keys@);
    assert(a@.take(0) =~= Seq::<usize>::empty());
    assert(b@.take(0) =~= Seq::<usize>::empty());
    proof {
        lemma_empty_multiset(Seq::<usize>::empty());
    }
    let mut out: Vec<usize> = Vec::new();
    let mut i: usize = 0;
    let mut j: usize = 0;
    while i < a.len() || j < b.len()
        invariant
            kv == key_views(keys@),
            lo <= mid <= hi <= keys.len(),
            a.len() == mid - lo,
            b.len() == hi - mid,
            forall|k: int| 0 <= k < a.len() ==> lo <= #[trigger] a@[k] < mid,
            forall|k: int| 0 <= k < b.len() ==> mid <= #[trigger] b@[k] < hi,
            sorted_keys(kv, a@),
            sorted_keys(kv, b@),
            i <= a.len(),
            j <= b.len(),
            out.len() == i + j,
            forall|k: int| 0 <= k < out.len() ==> lo <= #[trigger] out@[k] < hi,
            sorted_keys(kv, out@),
            forall|p: int, q: int|
                0 <= p < out.len() && i <= q < a.len() ==> key_lt(kv, #[trigger] out@[p] as int, #[trigger] a@[q] as int),
            forall|p: int, q: int|
                0 <= p < out.len() && j <= q < b.len() ==> key_lt(kv, #[trigger] out@[p] as int, #[trigger] b@[q] as int),
            out@.to_multiset() == a@.take(i as int).to_multiset().add(b@.take(j as int).to_multiset()),
        decreases a.len() + b.len() - i - j,
    {
        let take_a = if i == a.len() {
            false
        } else if j == b.len() {
            true
        } else {
            !components_before_exec(&keys[b[j]], &keys[a[i]])
        };
        let ghost before = out@;
        if take_a {
            let x = a[i];
            proof {
                if j < b.len() {
                    assert(kv[b@[j as int] as int] == views(keys@[b@[j as int] as int]@));
                    assert(kv[x as int] == views(keys@[x as int]@));
                    lemma_components_before_order(kv[x as int], kv[b@[j as int] as int], kv[x as int]);
                    assert(key_lt(kv, x as int, b@[j as int] as int));
                    assert forall|q: int| j <= q < b.len() implies key_lt(kv, x as int, #[trigger] b@[q] as int) by {
                        if q > j {
                            lemma_key_lt_trans(kv, x as int, b@[j as int] as int, b@[q] as int);
                        }
                    }
                }
            }
            out.push(x);
            proof {
                assert(a@.take(i + 1) =~= a@.take(i as int).push(x));
                assert(out@ == before.push(x));
                vstd::seq_lib::to_multiset_build(before, x);
                vstd::seq_lib::to_multiset_build(a@.take(i as int), x);
                assert(out@.to_multiset() =~= a@.take(i + 1).to_multiset().add(b@.take(j as int).to_multiset()));
            }
            i += 1;
        } else {
            let x = b[j];
            proof {
                if i < a.len() {
                    assert(kv[a@[i as int] as int] == views(keys@[a@[i as int] as int]@));
                    assert(kv[x as int] == views(keys@[x as int]@));
                    assert(key_lt(kv, x as int, a@[i as int] as int));
                    assert forall|q: int| i <= q < a.len() implies key_lt(kv, x as int, #[trigger] a@[q] as int) by {
                        if q > i {
                            lemma_key_lt_trans(kv, x as int, a@[i as int] as int, a@[q] as int);
                        }
                    }
                }
            }
            out.push(x);
            proof {
                assert(b@.take(j + 1) =~= b@.take(j as int).push(x));
                assert(out@ == before.push(x));
                vstd::seq_lib::to_multiset_build(before, x);
                vstd::seq_lib::to_multiset_build(b@.take(j as int), x);
                assert(out@.to_multiset() =~= a@.take(i as int).to_multiset().add(b@.take(j + 1).to_multiset()));
            }
            j += 1;
        }
        assert(out@ == before.push(out@[out.len() - 1]));
    }
    assert(a@.take(a.len() as int) =~= a@);
    assert(b@.take(b.len() as int) =~= b@);
    out
}

fn merge_sort(keys: &Vec<Vec<Vec<char>>>, lo: usize, hi: usize) -> (r: Vec<usize>)
    requires
        lo <= hi <= keys.len(),
    ensures
        r.len() == hi - lo,
        forall|k: int| 0 <= k < r.len() ==> lo <= #[trigger] r@[k] < hi,
        sorted_keys(key_views(keys@), r@),
        r@.to_multiset() == index_range(lo, hi).to_multiset(),
    decreases hi - lo,
{
    if hi - lo <= 1 {
        let mut r: Vec<usize> = Vec::new();
        proof {
            lemma_empty_multiset(r@);
        }
        if hi > lo {
            r.push(lo);
            assert(r@ =~= Seq::<usize>::empty().push(lo));
            assert(index_range(lo, hi) =~= Seq::<usize>::empty().push(lo));
        } else {
            assert(index_range(lo, hi) =~= Seq::<usize>::empty());
        }
        return r;
    }
    let mid = lo + (hi - lo) / 2;
    let a = merge_sort(keys, lo, mid);
    let b = merge_sort(keys, mid, hi);
    let r = merge(keys, &a, &b, lo, mid, hi);
    proof {
        vstd::seq_lib::lemma_multiset_commutative(index_range(lo, mid), index_range(mid, hi));
        assert(index_range(lo, mid) + index_range(mid, hi) =~= index_range(lo, hi));
    }
    r
}

/// The indices of `keys` in key order (equal keys by index), each index once.
fn sorted_order(keys: &Vec<Vec<Vec<char>>>) -> (r: Vec<usize>)
    ensures
        r.len() == keys.len(),
        forall|k: int| 0 <= k < r.len() ==> #[trigger] r@[k] < keys.len(),
        sorted_keys(key_views(keys@), r@),
        forall|i: int| 0 <= i < keys.len() ==> #[trigger] r@.contains(i as usize),
{
    let r = merge_sort(keys, 0, keys.len());
    proof {
        assert forall|i: int| 0 <= i < keys.len() implies #[trigger] r@.contains(i as usize) by {
            let range = index_range(0, keys.len());
            assert(range[i] == i as usize);
            assert(range.contains(i as usize));
            vstd::seq_lib::to_multiset_contains(range, i as usize);
            vstd::seq_lib::to_multiset_contains(r@, i as usize);
        }
    }
    r
}

/// A copy of a violation.
pub fn copy_violation(v: &Violation) -> (r: Violation)
    ensures
        r@ == v@,
{
    let rule_id = match &v.rule_id {
        Some(id) => Some(id.clone()),
        None => None,
    };
    Violation {
        severity: v.severity,
        rule_id,
        message: v.message.clone(),
        line_num: v.line_num,
        line_content: v.line_content.clone(),
    }
}

/// A copy of a file's result.
pub fn copy_result(x: &FileLintResult) -> (r: FileLintResult)
    ensures
        r@ == x@,
{
    let mut violations: Vec<Violation> = Vec::new();
    let mut i: usize = 0;
    while i < x.violations.len()
        invariant
            i <= x.violations.len(),
            violations.len() == i,
            forall|k: int| 0 <= k < i ==> (#[trigger] violations@[k])@ == x.violations@[k]@,
        decreases x.violations.len() - i,
    {
        violations.push(copy_violation(&x.violations[i]));
        i += 1;
    }
    let r = FileLintResult { path: x.path.clone(), violations };
    assert(r@.findings =~= x@.findings);
    r
}

/// The results in the order of their paths (`Path`'s order); results for equal paths keep
/// the order in which they were given.
pub fn sort_results_by_path(results: &Vec<FileLintResult>) -> (r: Vec<FileLintResult>)
    ensures
        sorted_by_path(file_views(results@), file_views(r@)),
{
    let ghost paths = paths_of(file_views(results@));
    let mut keys: Vec<Vec<Vec<char>>> = Vec::new();
    let mut i: usize = 0;
    while i < results.len()
        invariant
            i <= results.len(),
            paths == paths_of(file_views(results@)),
            keys.len() == i,
            forall|j: int| 0 <= j < i ==> views(#[trigger] keys@[j]@) == components(paths[j]),
        decreases results.len() - i,
    {
        let c = chars_of(results[i].path.as_str());
        keys.push(components_of(c.as_slice()));
        i += 1;
    }
    let ghost kv = key_views(keys@);
    let order = sorted_order(&keys);
    let ghost ov = order@.map_values(|x: usize| x as int);
    let mut out: Vec<FileLintResult> = Vec::new();
    let mut k: usize = 0;
    while k < order.len()
        invariant
            k <= order.len(),
            order.len() == results.len(),
            forall|q: int| 0 <= q < order.len() ==> #[trigger] order@[q] < results.len(),
            ov == order@.map_values(|x: usize| x as int),
            file_views(out@) == ov.take(k as int).map_values(|i: int| results@[i]@),
        decreases order.len() - k,
    {
        let ghost before = file_views(out@);
        let x = copy_result(&results[order[k]]);
        out.push(x);
        assert(file_views(out@) =~= before.push(x@));
        assert(ov.take(k + 1).map_values(|i: int| results@[i]@) =~= ov.take(k as int).map_values(
            |i: int| results@[i]@,
        ).push(results@[ov[k as int]]@));
        k += 1;
    }
    proof {
        assert(ov.take(order.len() as int) =~= ov);
        assert forall|a: int, b: int| 0 <= a < b < ov.len() implies path_order_lt(paths, #[trigger] ov[a], #[trigger] ov[b]) by {
            assert(key_lt(kv, order@[a] as int, order@[b] as int));
            assert(kv[ov[a]] == views(keys@[ov[a]]@));
            assert(kv[ov[b]] == views(keys@[ov[b]]@));
            lemma_components_before_order(kv[ov[a]], kv[ov[b]], kv[ov[a]]);
        }
        assert(path_order(paths, ov));
        assert(file_views(out@) =~= ov.map_values(|i: int| file_views(results@)[i]));
    }
    out
}


// ---------------------------------------------------------------------------
// Looking up paths among many
// ---------------------------------------------------------------------------

/// The component lists are in path order (equal ones side by side).
pub open spec fn components_sorted(s: Seq<Seq<Seq<char>>>) -> bool {
    forall|k: int, l: int|
        0 <= k < l < s.len() ==> components_before(#[trigger] s[k], #[trigger] s[l]) || s[k] == s[l]
}

/// Some list of `s` is `x`.
pub open spec fn has_components(s: Seq<Seq<Seq<char>>>, x: Seq<Seq<char>>) -> bool {
    exists|j: int| 0 <= j < s.len() && #[trigger] s[j] == x
}

/// The components of the paths, sorted: a list is there exactly when some path has it.
pub fn sorted_components(paths: &Vec<String>) -> (r: Vec<Vec<Vec<char>>>)
    ensures
        components_sorted(key_views(r@)),
        forall|x: Seq<Seq<char>>|
            #[trigger] has_components(key_views(r@), x) <==> exists|i: int|
                0 <= i < paths.len() && components(#[trigger] paths@[i]@) == x,
{
    let mut keys: Vec<Vec<Vec<char>>> = Vec::new();
    let mut i: usize = 0;
    while i < paths.len()
        invariant
            i <= paths.len(),
            keys.len() == i,
            forall|j: int| 0 <= j < i ==> views(#[trigger] keys@[j]@) == components(paths@[j]@),
        decreases paths.len() - i,
    {
        let c = chars_of(paths[i].as_str());
        keys.push(components_of(c.as_slice()));
        i += 1;
    }
    let ghost kv = key_views(keys@);
    let order = sorted_order(&keys);
    let mut out: Vec<Vec<Vec<char>>> = Vec::new();
    let mut k: usize = 0;
    while k < order.len()
        invariant
            k <= order.len(),
            order.len() == keys.len(),
            kv == key_views(keys@),
            forall|q: int| 0 <= q < order.len() ==> #[trigger] order@[q] < keys.len(),
            out.len() == k,
            forall|q: int| 0 <= q < k ==> views(#[trigger] out@[q]@) == kv[order@[q] as int],
        decreases order.len() - k,
    {
        let c = copy_components(&keys[order[k]]);
        out.push(c);
        k += 1;
    }
    let ghost ov = key_views(out@);
    proof {
        assert forall|a: int, b: int| 0 <= a < b < ov.len() implies components_before(#[trigger] ov[a], #[trigger] ov[b])
            || ov[a] == ov[b] by {
            assert(key_lt(kv, order@[a] as int, order@[b] as int));
        }
        assert forall|x: Seq<Seq<char>>| #[trigger] has_components(ov, x) <==> exists|i: int|
            0 <= i < paths.len() && components(#[trigger] paths@[i]@) == x by {
            if has_components(ov, x) {
                let j = choose|j: int| 0 <= j < ov.len() && #[trigger] ov[j] == x;
                let i = order@[j] as int;
                assert(views(keys@[i]@) == components(paths@[i]@));
                assert(kv[i] == views(keys@[i]@));
            }
            if exists|i: int| 0 <= i < paths.len() && components(#[trigger] paths@[i]@) == x {
                let i = choose|i: int| 0 <= i < paths.len() && components(#[trigger] paths@[i]@) == x;
                assert(order@.contains(i as usize));
                let j = choose|j: int| 0 <= j < order@.len() && order@[j] == i as usize;
                assert(ov[j] == views(out@[j]@));
                assert(kv[i] == views(keys@[i]@));
            }
        }
    }
    out
}

fn copy_components(c: &Vec<Vec<char>>) -> (r: Vec<Vec<char>>)
    ensures
        views(r@) == views(c@),
{
    let mut r: Vec<Vec<char>> = Vec::new();
    let mut i: usize = 0;
    while i < c.len()
        invariant
            i <= c.len(),
            views(r@) == views(c@).take(i as int),
        decreases c.len() - i,
    {
        let ghost before = views(r@);
        r.push(crate::text::copy_range(c[i].as_slice(), 0, c[i].len()));
        assert(c@[i as int]@.subrange(0, c@[i as int]@.len() as int) == c@[i as int]@);
        assert(views(r@) =~= before.push(c@[i as int]@));
        assert(views(c@).take(i + 1) =~= views(c@).take(i as int).push(c@[i as int]@));
        i += 1;
    }
    assert(views(c@).take(c.len() as int) =~= views(c@));
    r
}

/// Whether `x` is among the sorted component lists (a binary search).
pub fn contains_components(sorted: &Vec<Vec<Vec<char>>>, x: &Vec<Vec<char>>) -> (r: bool)
    requires
        components_sorted(key_views(sorted@)),
    ensures
        r == has_components(key_views(sorted@), views(x@)),
{
    let ghost s = key_views(sorted@);
    let ghost xv = views(x@);
    let mut lo: usize = 0;
    let mut hi: usize = sorted.len();
    while lo < hi
        invariant
            lo <= hi <= sorted.len(),
            s == key_views(sorted@),
            xv == views(x@),
            components_sorted(s),
            forall|k: int| 0 <= k < lo ==> components_before(#[trigger] s[k], xv),
            forall|k: int| hi <= k < s.len() ==> !components_before(#[trigger] s[k], xv),
        decreases hi - lo,
    {
        let mid = lo + (hi - lo) / 2;
        assert(s[mid as int] == views(sorted@[mid as int]@));
        if components_before_exec(&sorted[mid], x) {
            proof {
                assert forall|k: int| 0 <= k < mid + 1 implies components_before(#[trigger] s[k], xv) by {
                    if k < mid {
                        lemma_components_before_order(s[k], s[mid as int], xv);
                    }
                }
            }
            lo = mid + 1;
        } else {
            proof {
                assert forall|k: int| mid <= k < s.len() implies !components_before(#[trigger] s[k], xv) by {
                    if mid < k && components_before(s[k], xv) {
                        lemma_components_before_order(s[mid as int], s[k], xv);
                    }
                }
            }
            hi = mid;
        }
    }
    let found = lo < sorted.len() && crate::paths::same_components(&sorted[lo], x);
    proof {
        if lo < s.len() {
            assert(s[lo as int] == views(sorted@[lo as int]@));
        }
        if !found {
            assert forall|k: int| 0 <= k < s.len() implies #[trigger] s[k] != xv by {
                lemma_components_before_order(s[k], xv, s[k]);
                if k > lo {
                    lemma_components_before_order(xv, s[lo as int], s[k]);
                    lemma_components_before_order(s[lo as int], xv, s[k]);
                }
            }
        }
    }
    found
}

} // verus!
