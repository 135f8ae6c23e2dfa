//! Target-file selection: ordering, deduplication, extension filtering.
//!
//! The walk over the configured directories happens outside and hands in
//! plain entries (a path as bytes, and whether it is a regular file). The
//! selection here is pure: keep the regular files whose extension is `rs` or
//! `fixed`, merge everything with set semantics, and produce the paths in
//! strictly increasing lexicographic byte order — the processing, aggregation
//! and report order of a run. The output is a function of the input set
//! alone, so repeated runs over an identical directory set discover an
//! identical list.

use vstd::prelude::*;

use crate::directive::match_at;

verus! {

/// The path separator byte `/`.
pub const SLASH: u8 = 47;

/// The extension separator byte `.`.
pub const DOT: u8 = 46;

/// One entry handed in by the directory walk.
pub struct DirEntryInfo {
    /// The entry's path as bytes.
    pub path: Vec<u8>,
    /// Whether the entry is a regular file (not a directory).
    pub is_file: bool,
}

/// The largest index at which `b` occurs in `p`, or `-1` when it does not.
pub open spec fn last_index_of(p: Seq<u8>, b: u8) -> int
    decreases p.len(),
{
    if p.len() == 0 {
        -1
    } else if p[p.len() - 1] == b {
        p.len() - 1
    } else {
        last_index_of(p.drop_last(), b)
    }
}

/// The bytes of the extension `rs`.
pub open spec fn rs_extension() -> Seq<u8> {
    seq![114u8, 115u8]
}

/// The bytes of the extension `fixed`.
pub open spec fn fixed_extension() -> Seq<u8> {
    seq![102u8, 105u8, 120u8, 101u8, 100u8]
}

/// The path's file name (the part after the last `/`) has an extension, the
/// part after the last `.` — the dot may not be the name's first byte — and
/// that extension is `rs` or `fixed`.
pub open spec fn has_target_extension(p: Seq<u8>) -> bool {
    let ns = last_index_of(p, SLASH) + 1;
    let d = last_index_of(p, DOT);
    d > ns && (p.skip(d + 1) == rs_extension() || p.skip(d + 1) == fixed_extension())
}

/// Lexicographic byte order on paths.
pub open spec fn lex_le(a: Seq<u8>, b: Seq<u8>) -> bool
    decreases a.len(),
{
    if a.len() == 0 {
        true
    } else if b.len() == 0 {
        false
    } else if a[0] < b[0] {
        true
    } else if a[0] > b[0] {
        false
    } else {
        lex_le(a.skip(1), b.skip(1))
    }
}

/// Strict lexicographic byte order.
pub open spec fn lex_lt(a: Seq<u8>, b: Seq<u8>) -> bool {
    lex_le(a, b) && a != b
}

/// The order is reflexive.
pub proof fn lemma_lex_refl(a: Seq<u8>)
    ensures
        lex_le(a, a),
    decreases a.len(),
{
    if a.len() > 0 {
        lemma_lex_refl(a.skip(1));
    }
}

/// The order is total.
pub proof fn lemma_lex_total(a: Seq<u8>, b: Seq<u8>)
    ensures
        lex_le(a, b) || lex_le(b, a),
    decreases a.len(),
{
    if a.len() > 0 && b.len() > 0 && a[0] == b[0] {
        lemma_lex_total(a.skip(1), b.skip(1));
    }
}

/// The order is antisymmetric.
pub proof fn lemma_lex_antisym(a: Seq<u8>, b: Seq<u8>)
    requires
        lex_le(a, b),
        lex_le(b, a),
    ensures
        a == b,
    decreases a.len(),
{
    if a.len() == 0 {
        assert(b.len() == 0);
        assert(a =~= b);
    } else {
        assert(b.len() > 0);
        assert(a[0] == b[0]);
        lemma_lex_antisym(a.skip(1), b.skip(1));
        assert(a.skip(1).len() == b.skip(1).len());
        assert(a =~= b) by {
            assert(forall|k: int| 1 <= k < a.len() ==> a[k] == a.skip(1)[k - 1]);
            assert(forall|k: int| 1 <= k < b.len() ==> b[k] == b.skip(1)[k - 1]);
        }
    }
}

/// The order is transitive.
pub proof fn lemma_lex_trans(a: Seq<u8>, b: Seq<u8>, c: Seq<u8>)
    requires
        lex_le(a, b),
        lex_le(b, c),
    ensures
        lex_le(a, c),
    decreases a.len(),
{
    if a.len() > 0 && b.len() > 0 && c.len() > 0 && a[0] == b[0] && b[0] == c[0] {
        lemma_lex_trans(a.skip(1), b.skip(1), c.skip(1));
    }
}

/// Where `b` occurs at all, `last_index_of` is a valid index.
pub proof fn lemma_last_index_range(p: Seq<u8>, b: u8)
    ensures
        -1 <= last_index_of(p, b) < p.len(),
    decreases p.len(),
{
    if p.len() > 0 && p[p.len() - 1] != b {
        lemma_last_index_range(p.drop_last(), b);
    }
}

/// Does `b` occur in `p`, and if so, where last?
fn last_index_of_exec(p: &Vec<u8>, b: u8) -> (r: Option<usize>)
    ensures
        (r matches Some(i) ==> i as int == last_index_of(p@, b) && i < p@.len()),
        (r is None ==> last_index_of(p@, b) == -1),
{
    let mut k: usize = p.len();
    proof {
        assert(p@.take(k as int) =~= p@);
    }
    while k > 0
        invariant
            k <= p@.len(),
            last_index_of(p@, b) == last_index_of(p@.take(k as int), b),
        decreases k,
    {
        k = k - 1;
        if p[k] == b {
            proof {
                assert(p@.take(k + 1 as int)[k as int] == p@[k as int]);
            }
            return Some(k);
        }
        proof {
            assert(p@.take(k + 1 as int).drop_last() =~= p@.take(k as int));
            assert(p@.take(k + 1 as int)[k as int] == p@[k as int]);
        }
    }
    None
}

/// Does `p` end, from `from` on, exactly in the bytes of `pat`?
fn suffix_is(p: &Vec<u8>, from: usize, pat: &Vec<u8>) -> (r: bool)
    requires
        from <= p@.len(),
    ensures
        r == (p@.skip(from as int) == pat@),
{
    if p.len() - from != pat.len() {
        proof {
            assert(p@.skip(from as int).len() != pat@.len());
        }
        return false;
    }
    let r = crate::directive::match_at_exec(p, from, pat);
    proof {
        if match_at(p@, from as int, pat@) {
            assert(p@.skip(from as int) =~= pat@);
        } else {
            if p@.skip(from as int) == pat@ {
                assert forall|k: int| 0 <= k < pat@.len() implies p@[from + k] == pat@[k] by {
                    assert(p@.skip(from as int)[k] == p@[from + k]);
                }
                assert(match_at(p@, from as int, pat@));
            }
        }
    }
    r
}

/// Is the path a candidate target: extension `rs` or `fixed`?
pub fn is_target_path(p: &Vec<u8>) -> (r: bool)
    ensures
        r == has_target_extension(p@),
{
    let dot = match last_index_of_exec(p, DOT) {
        Some(d) => d,
        None => {
            proof {
                lemma_last_index_range(p@, SLASH);
            }
            return false;
        },
    };
    let n = p.len();
    let ns = match last_index_of_exec(p, SLASH) {
        Some(s) => {
            proof {
                assert(s < n);
            }
            s + 1
        },
        None => 0,
    };
    if dot <= ns {
        return false;
    }
    let mut rs: Vec<u8> = Vec::new();
    rs.push(114);
    rs.push(115);
    let mut fixed: Vec<u8> = Vec::new();
    fixed.push(102);
    fixed.push(105);
    fixed.push(120);
    fixed.push(101);
    fixed.push(100);
    proof {
        assert(rs@ =~= rs_extension());
        assert(fixed@ =~= fixed_extension());
    }
    suffix_is(p, dot + 1, &rs) || suffix_is(p, dot + 1, &fixed)
}

/// The views of a vector of paths.
pub open spec fn paths_of(s: Seq<Vec<u8>>) -> Seq<Seq<u8>> {
    s.map_values(|v: Vec<u8>| v@)
}

/// The paths are in strictly increasing lexicographic order (so also
/// pairwise distinct).
pub open spec fn strictly_sorted(s: Seq<Seq<u8>>) -> bool {
    forall|i: int, j: int| 0 <= i < j < s.len() ==> lex_lt(#[trigger] s[i], #[trigger] s[j])
}

/// Inserting into a sequence adds exactly one member.
proof fn lemma_insert_contains(s: Seq<Seq<u8>>, i: int, v: Seq<u8>)
    requires
        0 <= i <= s.len(),
    ensures
        forall|q: Seq<u8>| #[trigger] s.insert(i, v).contains(q) <==> (s.contains(q) || q == v),
{
    assert forall|q: Seq<u8>| #[trigger] s.insert(i, v).contains(q) implies (s.contains(q) || q
        == v) by {
        let m = choose|m: int| 0 <= m < s.insert(i, v).len() && s.insert(i, v)[m] == q;
        if m < i {
            assert(s[m] == q);
        } else if m > i {
            assert(s[m - 1] == q);
        }
    }
    assert forall|q: Seq<u8>| (s.contains(q) || q == v) implies #[trigger] s.insert(
        i,
        v,
    ).contains(q) by {
        if q == v {
            assert(s.insert(i, v)[i] == q);
        } else {
            let m = choose|m: int| 0 <= m < s.len() && s[m] == q;
            if m < i {
                assert(s.insert(i, v)[m] == q);
            } else {
                assert(s.insert(i, v)[m + 1] == q);
            }
        }
    }
}

/// Finds where `p` belongs in a strictly sorted vector: the index of the
/// first element not below `p`, and whether that element equals `p`.
fn find_slot(out: &Vec<Vec<u8>>, p: &Vec<u8>) -> (r: (usize, bool))
    requires
        strictly_sorted(paths_of(out@)),
    ensures
        ({
            let (idx, eq) = r;
            &&& idx <= out@.len()
            &&& forall|k: int| 0 <= k < idx ==> lex_lt(#[trigger] paths_of(out@)[k], p@)
            &&& (eq ==> idx < out@.len() && paths_of(out@)[idx as int] == p@)
            &&& (!eq && idx < out@.len() ==> lex_lt(p@, paths_of(out@)[idx as int]))
        }),
{
    let mut idx: usize = 0;
    while idx < out.len()
        invariant
            idx <= out@.len(),
            strictly_sorted(paths_of(out@)),
            forall|k: int| 0 <= k < idx ==> lex_lt(#[trigger] paths_of(out@)[k], p@),
        decreases out@.len() - idx,
    {
        let le_cur = lex_le_bytes(&out[idx], p);
        if !le_cur {
            proof {
                lemma_lex_total(out@[idx as int]@, p@);
                lemma_lex_refl(p@);
                assert(lex_lt(p@, paths_of(out@)[idx as int]));
            }
            return (idx, false);
        }
        let le_new = lex_le_bytes(p, &out[idx]);
        if le_new {
            proof {
                lemma_lex_antisym(out@[idx as int]@, p@);
                assert(paths_of(out@)[idx as int] == p@);
            }
            return (idx, true);
        }
        proof {
            assert(lex_lt(paths_of(out@)[idx as int], p@));
        }
        idx = idx + 1;
    }
    (idx, false)
}

/// Inserts a path into a strictly sorted vector, keeping it strictly sorted;
/// a path already present is not inserted again.
fn insert_sorted(out: &mut Vec<Vec<u8>>, p: Vec<u8>)
    requires
        strictly_sorted(paths_of(old(out)@)),
    ensures
        strictly_sorted(paths_of(final(out)@)),
        forall|q: Seq<u8>| #[trigger] paths_of(final(out)@).contains(q) <==> (paths_of(
            old(out)@,
        ).contains(q) || q == p@),
{
    let (idx, eq) = find_slot(out, &p);
    if eq {
        proof {
            assert(paths_of(out@).contains(p@));
        }
        return ;
    }
    proof {
        lemma_insert_contains(paths_of(out@), idx as int, p@);
    }
    let ghost before = paths_of(out@);
    out.insert(idx, p);
    proof {
        assert(paths_of(out@) =~= before.insert(idx as int, p@)) by {
            assert forall|k: int| 0 <= k < out@.len() implies paths_of(out@)[k] == before.insert(
                idx as int,
                p@,
            )[k] by {
                if k < idx {
                } else if k == idx {
                } else {
                }
            }
        }
        assert forall|i: int, j: int| 0 <= i < j < paths_of(out@).len() implies lex_lt(
            #[trigger] paths_of(out@)[i],
            #[trigger] paths_of(out@)[j],
        ) by {
            let s = before;
            if i < idx && j < idx {
            } else if i < idx && j == idx {
                assert(lex_lt(s[i], p@));
            } else if i < idx && j > idx {
                assert(lex_lt(s[i], s[j - 1]));
            } else if i == idx && j > idx {
                assert(lex_lt(p@, s[j - 1])) by {
                    assert(lex_lt(p@, s[idx as int]));
                    if j - 1 > idx as int {
                        assert(lex_lt(s[idx as int], s[j - 1]));
                        lemma_lex_trans(p@, s[idx as int], s[j - 1]);
                        assert(p@ != s[j - 1]) by {
                            if p@ == s[j - 1] {
                                lemma_lex_antisym(p@, s[idx as int]);
                            }
                        }
                    }
                }
            } else {
                assert(lex_lt(s[i - 1], s[j - 1]));
            }
        }
    }
}

/// A path the discovery must produce: some walked entry is a regular file
/// with this path, and the extension is a target extension.
pub open spec fn wanted(entries: Seq<DirEntryInfo>, p: Seq<u8>) -> bool {
    has_target_extension(p) && exists|k: int|
        0 <= k < entries.len() && (#[trigger] entries[k]).is_file && entries[k].path@ == p
}

/// Selects the target files from the walked entries: exactly the regular
/// files with extension `rs` or `fixed`, deduplicated, in strictly increasing
/// lexicographic path order. The result is determined by the set of walked
/// entries alone.
pub fn select_targets(entries: &Vec<DirEntryInfo>) -> (r: Vec<Vec<u8>>)
    ensures
        strictly_sorted(paths_of(r@)),
        forall|p: Seq<u8>| #[trigger] paths_of(r@).contains(p) <==> wanted(entries@, p),
{
    let mut out: Vec<Vec<u8>> = Vec::new();
    let mut j: usize = 0;
    proof {
        assert(paths_of(out@) =~= Seq::<Seq<u8>>::empty());
    }
    while j < entries.len()
        invariant
            j <= entries@.len(),
            strictly_sorted(paths_of(out@)),
            forall|p: Seq<u8>| #[trigger] paths_of(out@).contains(p) <==> wanted(
                entries@.take(j as int),
                p,
            ),
        decreases entries@.len() - j,
    {
        let e = &entries[j];
        let ghost pre = paths_of(out@);
        if e.is_file && is_target_path(&e.path) {
            let p = e.path.clone();
            proof {
                assert(p@ =~= e.path@);
            }
            insert_sorted(&mut out, p);
        }
        proof {
            let tj = entries@.take(j as int);
            let tj1 = entries@.take(j + 1 as int);
            assert(tj1.drop_last() =~= tj);
            assert(tj1[j as int] == entries@[j as int]);
            assert forall|p: Seq<u8>| #[trigger] paths_of(out@).contains(p) <==> wanted(
                tj1,
                p,
            ) by {
                if wanted(tj1, p) {
                    let k = choose|k: int|
                        0 <= k < tj1.len() && (#[trigger] tj1[k]).is_file && tj1[k].path@ == p;
                    if k < j {
                        assert(tj[k].is_file && tj[k].path@ == p);
                        assert(wanted(tj, p));
                    }
                }
                if wanted(tj, p) {
                    let k = choose|k: int|
                        0 <= k < tj.len() && (#[trigger] tj[k]).is_file && tj[k].path@ == p;
                    assert(tj1[k].is_file && tj1[k].path@ == p);
                    assert(wanted(tj1, p));
                }
            }
        }
        j = j + 1;
    }
    proof {
        assert(entries@.take(j as int) =~= entries@);
    }
    out
}

/// Exec comparison realizing the lexicographic order.
pub fn lex_le_bytes(a: &Vec<u8>, b: &Vec<u8>) -> (r: bool)
    ensures
        r == lex_le(a@, b@),
{
    let mut i: usize = 0;
    proof {
        assert(a@.skip(0) =~= a@);
        assert(b@.skip(0) =~= b@);
    }
    while i < a.len() && i < b.len()
        invariant
            i <= a@.len(),
            i <= b@.len(),
            lex_le(a@, b@) == lex_le(a@.skip(i as int), b@.skip(i as int)),
        decreases a@.len() - i,
    {
        proof {
            assert(a@.skip(i as int)[0] == a@[i as int]);
            assert(b@.skip(i as int)[0] == b@[i as int]);
        }
        if a[i] < b[i] {
            return true;
        }
        if a[i] > b[i] {
            return false;
        }
        proof {
            assert(a@.skip(i as int).skip(1) =~= a@.skip(i + 1 as int));
            assert(b@.skip(i as int).skip(1) =~= b@.skip(i + 1 as int));
        }
        i = i + 1;
    }
    proof {
        if i >= a@.len() {
            assert(a@.skip(i as int).len() == 0);
        } else {
            assert(b@.skip(i as int).len() == 0);
            assert(a@.skip(i as int).len() > 0);
        }
    }
    i >= a.len()
}

/// Discovery is deterministic: two strictly sorted lists with the same
/// members are the same list, so the discovered file list is a function of
/// the walked directory set alone, identical and identically ordered across
/// repeated runs.
pub proof fn lemma_discovery_deterministic(a: Seq<Seq<u8>>, b: Seq<Seq<u8>>)
    requires
        strictly_sorted(a),
        strictly_sorted(b),
        forall|p: Seq<u8>| #[trigger] a.contains(p) <==> #[trigger] b.contains(p),
    ensures
        a == b,
    decreases a.len(),
{
    if a.len() == 0 {
        if b.len() > 0 {
            assert(b.contains(b[0]));
            assert(a.contains(b[0]));
            assert(false);
        }
        assert(a =~= b);
    } else {
        assert(a.contains(a[0]));
        assert(b.contains(a[0]));
        let i = choose|i: int| 0 <= i < b.len() && b[i] == a[0];
        assert(b.contains(b[0]));
        assert(a.contains(b[0]));
        let j = choose|j: int| 0 <= j < a.len() && a[j] == b[0];
        assert(a[0] == b[0]) by {
            if a[0] != b[0] {
                assert(i > 0);
                assert(j > 0);
                assert(lex_lt(b[0], b[i]));
                assert(lex_lt(a[0], a[j]));
                lemma_lex_antisym(a[0], b[0]);
                assert(false);
            }
        }
        let ta = a.skip(1);
        let tb = b.skip(1);
        assert(strictly_sorted(ta)) by {
            assert forall|x: int, y: int| 0 <= x < y < ta.len() implies lex_lt(
                #[trigger] ta[x],
                #[trigger] ta[y],
            ) by {
                assert(lex_lt(a[x + 1], a[y + 1]));
            }
        }
        assert(strictly_sorted(tb)) by {
            assert forall|x: int, y: int| 0 <= x < y < tb.len() implies lex_lt(
                #[trigger] tb[x],
                #[trigger] tb[y],
            ) by {
                assert(lex_lt(b[x + 1], b[y + 1]));
            }
        }
        assert forall|p: Seq<u8>| #[trigger] ta.contains(p) <==> #[trigger] tb.contains(p) by {
            if ta.contains(p) {
                let m = choose|m: int| 0 <= m < ta.len() && ta[m] == p;
                assert(a[m + 1] == p);
                assert(a.contains(p));
                assert(b.contains(p));
                let n = choose|n: int| 0 <= n < b.len() && b[n] == p;
                assert(n > 0) by {
                    if n == 0 {
                        // p would equal the shared head, repeated inside a
                        assert(lex_lt(a[0], a[m + 1]));
                        assert(false);
                    }
                }
                assert(tb[n - 1] == p);
                assert(tb.contains(p));
            }
            if tb.contains(p) {
                let m = choose|m: int| 0 <= m < tb.len() && tb[m] == p;
                assert(b[m + 1] == p);
                assert(b.contains(p));
                assert(a.contains(p));
                let n = choose|n: int| 0 <= n < a.len() && a[n] == p;
                assert(n > 0) by {
                    if n == 0 {
                        assert(lex_lt(b[0], b[m + 1]));
                        assert(false);
                    }
                }
                assert(ta[n - 1] == p);
                assert(ta.contains(p));
            }
        }
        lemma_discovery_deterministic(ta, tb);
        assert(a =~= b) by {
            assert(forall|k: int| 1 <= k < a.len() ==> a[k] == ta[k - 1]);
            assert(forall|k: int| 1 <= k < b.len() ==> b[k] == tb[k - 1]);
        }
    }
}

} // verus!
