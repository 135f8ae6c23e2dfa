//! The directive mutator: pure transforms over file content.
//!
//! Content is a sequence of bytes; a line is a maximal newline-free run. The
//! ignore-form directive is any line that begins with the literal bytes of
//! `// ignore-debug`; the replacement form is a line that is exactly
//! `// compile-flags: -Cdebug-assertions=no`. `remove_directive` deletes the
//! ignore-form line, `replace_directive` substitutes the replacement form in
//! its place. Matching is literal; a file with two ignore-form lines, or with
//! the replacement form already present beside one, is a configuration
//! anomaly and both transforms refuse it.

use vstd::prelude::*;

verus! {

/// The newline byte that terminates a line.
pub const NL: u8 = 10;

/// The bytes of the literal `// ignore-debug`, the prefix an ignore-form
/// directive line begins with.
pub open spec fn ignore_prefix() -> Seq<u8> {
    seq![47u8, 47u8, 32u8, 105u8, 103u8, 110u8, 111u8, 114u8, 101u8, 45u8, 100u8, 101u8, 98u8, 117u8, 103u8]
}

/// The bytes of the literal `// compile-flags: -Cdebug-assertions=no`, the
/// whole of a replacement-form line.
pub open spec fn replacement_line() -> Seq<u8> {
    seq![47u8, 47u8, 32u8, 99u8, 111u8, 109u8, 112u8, 105u8, 108u8, 101u8, 45u8, 102u8, 108u8, 97u8,
        103u8, 115u8, 58u8, 32u8, 45u8, 67u8, 100u8, 101u8, 98u8, 117u8, 103u8, 45u8, 97u8, 115u8,
        115u8, 101u8, 114u8, 116u8, 105u8, 111u8, 110u8, 115u8, 61u8, 110u8, 111u8]
}

/// Both directive literals are single lines: no byte of either is a newline,
/// and the two differ (already at their fourth byte).
pub proof fn lemma_directive_literals()
    ensures
        ignore_prefix().len() == 15,
        replacement_line().len() == 39,
        forall|k: int| 0 <= k < ignore_prefix().len() ==> #[trigger] ignore_prefix()[k] != NL,
        forall|k: int| 0 <= k < replacement_line().len() ==> #[trigger] replacement_line()[k] != NL,
        replacement_line()[3] != ignore_prefix()[3],
{
}

/// `i` is the first byte of a line: the start of the content, or just after
/// a newline. The content's length itself counts as the start of a final
/// empty line when the content ends with a newline.
pub open spec fn is_line_start(c: Seq<u8>, i: int) -> bool {
    0 <= i <= c.len() && (i == 0 || c[i - 1] == NL)
}

/// The index of the newline that terminates the line beginning at `i`, or
/// the content's length when that line is unterminated.
pub open spec fn line_end(c: Seq<u8>, i: int) -> int
    decreases c.len() - i,
{
    if i >= c.len() {
        c.len() as int
    } else if c[i] == NL {
        i
    } else {
        line_end(c, i + 1)
    }
}

/// The bytes of the line beginning at `i` are newline-free, and the byte at
/// `line_end` (when inside the content) is the newline.
pub proof fn lemma_line_end(c: Seq<u8>, i: int)
    requires
        0 <= i <= c.len(),
    ensures
        i <= line_end(c, i) <= c.len(),
        forall|k: int| i <= k < line_end(c, i) ==> c[k] != NL,
        line_end(c, i) < c.len() ==> c[line_end(c, i)] == NL,
    decreases c.len() - i,
{
    if i < c.len() && c[i] != NL {
        lemma_line_end(c, i + 1);
    }
}

/// The bytes of `pat` occur in `c` starting at index `i`.
pub open spec fn match_at(c: Seq<u8>, i: int, pat: Seq<u8>) -> bool {
    &&& 0 <= i
    &&& i + pat.len() <= c.len()
    &&& forall|k: int| 0 <= k < pat.len() ==> c[i + k] == #[trigger] pat[k]
}

/// An ignore-form directive line begins at `i`.
pub open spec fn is_directive_at(c: Seq<u8>, i: int) -> bool {
    is_line_start(c, i) && match_at(c, i, ignore_prefix())
}

/// Some line of `c` is an ignore-form directive.
pub open spec fn has_directive(c: Seq<u8>) -> bool {
    exists|i: int| is_directive_at(c, i)
}

/// At most one line of `c` is an ignore-form directive.
pub open spec fn unique_directive(c: Seq<u8>) -> bool {
    forall|i: int, j: int|
        #[trigger] is_directive_at(c, i) && #[trigger] is_directive_at(c, j) ==> i == j
}

/// The line beginning at `i` is exactly the replacement form.
pub open spec fn is_replacement_line_at(c: Seq<u8>, i: int) -> bool {
    &&& is_line_start(c, i)
    &&& line_end(c, i) == i + replacement_line().len()
    &&& match_at(c, i, replacement_line())
}

/// Some line of `c` is exactly the replacement form.
pub open spec fn has_replacement_line(c: Seq<u8>) -> bool {
    exists|i: int| is_replacement_line_at(c, i)
}

/// `c` is content the transforms act on: exactly one ignore-form directive
/// line and no replacement-form line.
pub open spec fn clean_target(c: Seq<u8>) -> bool {
    has_directive(c) && unique_directive(c) && !has_replacement_line(c)
}

/// The first byte of the (unique) ignore-form directive line.
pub open spec fn directive_start(c: Seq<u8>) -> int {
    choose|i: int| is_directive_at(c, i)
}

/// `c` with the directive line deleted, its terminating newline included.
pub open spec fn removed_content(c: Seq<u8>) -> Seq<u8> {
    let i = directive_start(c);
    let e = line_end(c, i);
    if e < c.len() {
        c.take(i) + c.skip(e + 1)
    } else {
        c.take(i)
    }
}

/// `c` with the directive line's bytes replaced by the replacement form; the
/// line's terminator (or its absence) is kept.
pub open spec fn replaced_content(c: Seq<u8>) -> Seq<u8> {
    let i = directive_start(c);
    let e = line_end(c, i);
    c.take(i) + replacement_line() + c.skip(e)
}

/// The ignore-form prefix as bytes for executable matching.
fn ignore_prefix_bytes() -> (r: Vec<u8>)
    ensures
        r@ == ignore_prefix(),
{
    let mut v: Vec<u8> = Vec::new();
    v.push(47);
    v.push(47);
    v.push(32);
    v.push(105);
    v.push(103);
    v.push(110);
    v.push(111);
    v.push(114);
    v.push(101);
    v.push(45);
    v.push(100);
    v.push(101);
    v.push(98);
    v.push(117);
    v.push(103);
    proof {
        assert(v@ =~= ignore_prefix());
    }
    v
}

/// The replacement-form line as bytes for executable matching and splicing.
fn replacement_line_bytes() -> (r: Vec<u8>)
    ensures
        r@ == replacement_line(),
{
    let mut v: Vec<u8> = Vec::new();
    v.push(47);
    v.push(47);
    v.push(32);
    v.push(99);
    v.push(111);
    v.push(109);
    v.push(112);
    v.push(105);
    v.push(108);
    v.push(101);
    v.push(45);
    v.push(102);
    v.push(108);
    v.push(97);
    v.push(103);
    v.push(115);
    v.push(58);
    v.push(32);
    v.push(45);
    v.push(67);
    v.push(100);
    v.push(101);
    v.push(98);
    v.push(117);
    v.push(103);
    v.push(45);
    v.push(97);
    v.push(115);
    v.push(115);
    v.push(101);
    v.push(114);
    v.push(116);
    v.push(105);
    v.push(111);
    v.push(110);
    v.push(115);
    v.push(61);
    v.push(110);
    v.push(111);
    proof {
        assert(v@ =~= replacement_line());
    }
    v
}

/// Index of the newline ending the line that begins at `i`, or the length.
fn find_line_end(c: &Vec<u8>, i: usize) -> (e: usize)
    requires
        i <= c@.len(),
    ensures
        e == line_end(c@, i as int),
        i <= e <= c@.len(),
{
    let mut k: usize = i;
    while k < c.len()
        invariant
            i <= k <= c@.len(),
            line_end(c@, i as int) == line_end(c@, k as int),
        decreases c@.len() - k,
    {
        if c[k] == NL {
            return k;
        }
        k = k + 1;
    }
    k
}

/// Do the bytes of `pat` occur in `c` at index `i`?
pub(crate) fn match_at_exec(c: &Vec<u8>, i: usize, pat: &Vec<u8>) -> (r: bool)
    requires
        i + pat@.len() <= c@.len(),
    ensures
        r == match_at(c@, i as int, pat@),
{
    let mut k: usize = 0;
    while k < pat.len()
        invariant
            0 <= k <= pat@.len(),
            i + pat@.len() <= c@.len(),
            forall|j: int| 0 <= j < k ==> c@[i + j] == #[trigger] pat@[j],
        decreases pat@.len() - k,
    {
        proof {
            assert(c@.len() == c.len());
            assert(i + k < c@.len());
        }
        if c[i + k] != pat[k] {
            return false;
        }
        k = k + 1;
    }
    true
}

/// What a scan of one file's content found of the ignore-form directive.
pub enum DirectiveScan {
    /// No ignore-form line: nothing to mutate.
    Absent,
    /// Exactly one ignore-form line and no replacement-form line. `start` is
    /// the line's first byte; `end` is the index of its terminating newline,
    /// or the content's length when the line is last and unterminated.
    Present { start: usize, end: usize },
    /// More than one ignore-form line, or the replacement form already
    /// present alongside one: a configuration anomaly.
    Anomalous,
}

/// Scans content for the ignore-form directive and classifies what it found.
pub fn scan_directive(c: &Vec<u8>) -> (r: DirectiveScan)
    ensures
        (r is Absent) <==> !has_directive(c@),
        (r is Present) <==> clean_target(c@),
        (r is Anomalous) <==> (has_directive(c@) && !clean_target(c@)),
        (r matches DirectiveScan::Present { start, end } ==>
            is_directive_at(c@, start as int)
            && directive_start(c@) == start as int
            && end as int == line_end(c@, start as int)),
{
    let prefix = ignore_prefix_bytes();
    let repl = replacement_line_bytes();
    let n = c.len();
    let mut i: usize = 0;
    let mut ndir: usize = 0;
    let mut dstart: usize = 0;
    let mut dend: usize = 0;
    let mut repl_found: bool = false;

    while i < n
        invariant
            c@.len() == n,
            i <= n,
            prefix@ == ignore_prefix(),
            repl@ == replacement_line(),
            is_line_start(c@, i as int) || i == n,
            ndir <= 2,
            ndir == 0 ==> forall|j: int| 0 <= j < i ==> !is_directive_at(c@, j),
            ndir == 1 ==> is_directive_at(c@, dstart as int)
                && dstart < i
                && dend as int == line_end(c@, dstart as int)
                && forall|j: int| 0 <= j < i && j != dstart ==> !is_directive_at(c@, j),
            ndir == 2 ==> exists|j1: int, j2: int|
                j1 != j2 && #[trigger] is_directive_at(c@, j1) && #[trigger] is_directive_at(c@, j2),
            repl_found <==> exists|j: int| 0 <= j < i && is_replacement_line_at(c@, j),
        decreases n - i,
    {
        let e = find_line_end(c, i);
        proof {
            lemma_line_end(c@, i as int);
            lemma_directive_literals();
        }
        let is_dir = if n - i >= prefix.len() {
            match_at_exec(c, i, &prefix)
        } else {
            false
        };
        if is_dir {
            if ndir == 0 {
                ndir = 1;
                dstart = i;
                dend = e;
            } else {
                proof {
                    if ndir == 1 {
                        assert(is_directive_at(c@, dstart as int));
                        assert(is_directive_at(c@, i as int));
                        assert(dstart < i);
                    }
                }
                ndir = 2;
            }
        }
        let is_repl = if e - i == repl.len() {
            match_at_exec(c, i, &repl)
        } else {
            false
        };
        if is_repl {
            repl_found = true;
            proof {
                assert(is_replacement_line_at(c@, i as int));
            }
        }
        proof {
            // no byte strictly inside the line starts another line
            assert forall|j: int| i < j <= e implies !is_line_start(c@, j) by {
                assert(c@[j - 1] != NL);
            }
            // hence the scanned stretch holds no further directive and no
            // further replacement line
            assert forall|j: int| i < j <= e implies
                !is_directive_at(c@, j) && !is_replacement_line_at(c@, j) by {
                assert(!is_line_start(c@, j));
            }
            if !is_dir && i + ignore_prefix().len() <= n {
                assert(!match_at(c@, i as int, ignore_prefix()));
            }
            if !is_dir {
                assert(!is_directive_at(c@, i as int));
            }
            if !is_repl {
                assert(!is_replacement_line_at(c@, i as int)) by {
                    if is_replacement_line_at(c@, i as int) {
                        assert(line_end(c@, i as int) == i + replacement_line().len());
                        assert(match_at(c@, i as int, replacement_line()));
                        assert(e - i == replacement_line().len());
                    }
                }
            }
        }
        if e < n {
            i = e + 1;
        } else {
            i = n;
        }
    }

    proof {
        // beyond the content no directive and no replacement line can begin
        assert forall|j: int| #[trigger] is_directive_at(c@, j) implies 0 <= j < n by {
            assert(j + ignore_prefix().len() <= n);
            lemma_directive_literals();
        }
        assert forall|j: int| #[trigger] is_replacement_line_at(c@, j) implies 0 <= j < n by {
            lemma_directive_literals();
            if j == n {
                assert(line_end(c@, j) == n);
            }
        }
    }

    if ndir == 0 {
        DirectiveScan::Absent
    } else if ndir == 1 && !repl_found {
        proof {
            assert(has_directive(c@)) by {
                assert(is_directive_at(c@, dstart as int));
            }
            assert(unique_directive(c@));
            assert(clean_target(c@));
            let ds = directive_start(c@);
            assert(is_directive_at(c@, ds));
            assert(ds == dstart as int);
        }
        DirectiveScan::Present { start: dstart, end: dend }
    } else {
        proof {
            if ndir == 1 {
                assert(has_directive(c@)) by {
                    assert(is_directive_at(c@, dstart as int));
                }
                assert(has_replacement_line(c@));
            } else {
                let (j1, j2) = choose|j1: int, j2: int|
                    j1 != j2 && #[trigger] is_directive_at(c@, j1) && #[trigger] is_directive_at(c@, j2);
                assert(is_directive_at(c@, j1));
                assert(!unique_directive(c@));
            }
        }
        DirectiveScan::Anomalous
    }
}

/// Appends `c[lo..hi]` to `out`.
pub(crate) fn copy_range(out: &mut Vec<u8>, c: &Vec<u8>, lo: usize, hi: usize)
    requires
        lo <= hi <= c@.len(),
    ensures
        final(out)@ == old(out)@ + c@.subrange(lo as int, hi as int),
{
    let mut k: usize = lo;
    while k < hi
        invariant
            lo <= k <= hi <= c@.len(),
            out@ == old(out)@ + c@.subrange(lo as int, k as int),
        decreases hi - k,
    {
        out.push(c[k]);
        proof {
            assert(c@.subrange(lo as int, k + 1 as int)
                =~= c@.subrange(lo as int, k as int).push(c@[k as int]));
        }
        k = k + 1;
    }
}

/// Deletes the directive line found at `start..end` by a scan.
pub(crate) fn splice_remove(c: &Vec<u8>, start: usize, end: usize) -> (out: Vec<u8>)
    requires
        clean_target(c@),
        directive_start(c@) == start as int,
        end as int == line_end(c@, start as int),
    ensures
        out@ == removed_content(c@),
{
    proof {
        lemma_line_end(c@, start as int);
        assert(is_directive_at(c@, directive_start(c@)));
    }
    let del_to = if end < c.len() {
        end + 1
    } else {
        end
    };
    let mut out: Vec<u8> = Vec::new();
    copy_range(&mut out, c, 0, start);
    copy_range(&mut out, c, del_to, c.len());
    proof {
        assert(out@ =~= removed_content(c@));
    }
    out
}

/// Substitutes the replacement form for the directive line found at
/// `start..end` by a scan.
pub(crate) fn splice_replace(c: &Vec<u8>, start: usize, end: usize) -> (out: Vec<u8>)
    requires
        clean_target(c@),
        directive_start(c@) == start as int,
        end as int == line_end(c@, start as int),
    ensures
        out@ == replaced_content(c@),
{
    proof {
        lemma_line_end(c@, start as int);
        assert(is_directive_at(c@, directive_start(c@)));
    }
    let repl = replacement_line_bytes();
    let mut out: Vec<u8> = Vec::new();
    copy_range(&mut out, c, 0, start);
    copy_range(&mut out, &repl, 0, repl.len());
    copy_range(&mut out, c, end, c.len());
    proof {
        assert(repl@.subrange(0, repl@.len() as int) =~= replacement_line());
        assert(out@ =~= replaced_content(c@));
    }
    out
}

/// Why a transform refused the content.
#[derive(Debug, Clone, Copy, PartialEq, Eq, Structural)]
pub enum DirectiveError {
    /// No ignore-form line is present.
    Absent,
    /// Two or more ignore-form lines, or the replacement form beside one.
    Anomalous,
}

/// Pure transform: the content with its ignore-form directive line deleted.
///
/// Succeeds exactly on content with one ignore-form line and no
/// replacement-form line; otherwise says whether the directive was absent or
/// the content anomalous.
pub fn remove_directive(c: &Vec<u8>) -> (r: Result<Vec<u8>, DirectiveError>)
    ensures
        (r is Ok) <==> clean_target(c@),
        (r matches Ok(out) ==> out@ == removed_content(c@)),
        (r matches Err(e) ==> ((e is Absent) <==> !has_directive(c@))),
        (r matches Err(e) ==> ((e is Anomalous) <==> has_directive(c@) && !clean_target(c@))),
{
    match scan_directive(c) {
        DirectiveScan::Absent => Err(DirectiveError::Absent),
        DirectiveScan::Anomalous => Err(DirectiveError::Anomalous),
        DirectiveScan::Present { start, end } => Ok(splice_remove(c, start, end)),
    }
}

/// Pure transform: the content with the replacement form substituted for its
/// ignore-form directive line.
///
/// Succeeds and fails exactly as `remove_directive` does.
pub fn replace_directive(c: &Vec<u8>) -> (r: Result<Vec<u8>, DirectiveError>)
    ensures
        (r is Ok) <==> clean_target(c@),
        (r matches Ok(out) ==> out@ == replaced_content(c@)),
        (r matches Err(e) ==> ((e is Absent) <==> !has_directive(c@))),
        (r matches Err(e) ==> ((e is Anomalous) <==> has_directive(c@) && !clean_target(c@))),
{
    match scan_directive(c) {
        DirectiveScan::Absent => Err(DirectiveError::Absent),
        DirectiveScan::Anomalous => Err(DirectiveError::Anomalous),
        DirectiveScan::Present { start, end } => Ok(splice_replace(c, start, end)),
    }
}

/// Removal resolves the directive for good: content whose unique ignore-form
/// line was deleted holds no ignore-form line at all, so a later run over the
/// same file finds nothing to do.
pub proof fn lemma_removed_resolves(c: Seq<u8>)
    requires
        clean_target(c),
    ensures
        !has_directive(removed_content(c)),
{
    lemma_directive_literals();
    let i = directive_start(c);
    assert(is_directive_at(c, i));
    let e = line_end(c, i);
    lemma_line_end(c, i);
    let p = ignore_prefix();
    let r = removed_content(c);
    assert forall|j: int| !is_directive_at(r, j) by {
        if is_directive_at(r, j) {
            if e < c.len() {
                let s = e + 1 - i;
                assert(r == c.take(i) + c.skip(e + 1));
                if j + p.len() <= i {
                    // the match sits wholly before the deleted line and so
                    // already stood in the original, beside the unique one
                    assert(match_at(c, j, p)) by {
                        assert forall|k: int| 0 <= k < p.len() implies c[j + k] == p[k] by {
                            assert(r[j + k] == c[j + k]);
                            assert(r[j + k] == p[k]);
                        }
                    }
                    if j != 0 {
                        assert(r[j - 1] == c[j - 1]);
                    }
                    assert(is_directive_at(c, j));
                    assert(j == i);
                    assert(false);
                } else if j < i {
                    // the match would straddle the seam, but the newline
                    // that preceded the deleted line sits inside its window
                    assert(0 < i);
                    assert(c[i - 1] == NL);
                    let k = i - 1 - j;
                    assert(0 <= k < p.len());
                    assert(r[j + k] == p[k]);
                    assert(r[j + k] == c[i - 1]);
                    assert(false);
                } else {
                    // the match sits wholly after the deleted line: shifted
                    // back, it already stood in the original
                    assert(match_at(c, j + s, p)) by {
                        assert forall|k: int| 0 <= k < p.len() implies c[j + s + k] == p[k] by {
                            assert(r[j + k] == c[j + k + s]);
                            assert(r[j + k] == p[k]);
                        }
                    }
                    assert(is_line_start(c, j + s)) by {
                        if j == i {
                            assert(c[e] == NL);
                        } else {
                            assert(r[j - 1] == c[j - 1 + s]);
                            assert(r[j - 1] == NL);
                        }
                    }
                    assert(is_directive_at(c, j + s));
                    assert(j + s == i);
                    assert(false);
                }
            } else {
                // the directive line was last and unterminated
                assert(r == c.take(i));
                assert(j + p.len() <= i);
                assert(match_at(c, j, p)) by {
                    assert forall|k: int| 0 <= k < p.len() implies c[j + k] == p[k] by {
                        assert(r[j + k] == c[j + k]);
                        assert(r[j + k] == p[k]);
                    }
                }
                if j != 0 {
                    assert(r[j - 1] == c[j - 1]);
                }
                assert(is_directive_at(c, j));
                assert(j == i);
                assert(false);
            }
        }
    }
}

/// Replacement resolves the directive for good: content whose unique
/// ignore-form line was replaced by the compile-flags form holds no
/// ignore-form line, so a later run over the same file finds nothing to do.
pub proof fn lemma_replaced_resolves(c: Seq<u8>)
    requires
        clean_target(c),
    ensures
        !has_directive(replaced_content(c)),
{
    lemma_directive_literals();
    let i = directive_start(c);
    assert(is_directive_at(c, i));
    let e = line_end(c, i);
    lemma_line_end(c, i);
    let p = ignore_prefix();
    let q = replacement_line();
    let r = replaced_content(c);
    assert(r == c.take(i) + q + c.skip(e));
    // the directive line is at least as long as the prefix
    assert(i + p.len() <= e) by {
        if e < i + p.len() {
            assert(c[i + (e - i)] == p[e - i]);
            assert(false);
        }
    }
    assert forall|j: int| !is_directive_at(r, j) by {
        if is_directive_at(r, j) {
            if j + p.len() <= i {
                // wholly before the replaced line: already in the original
                assert(match_at(c, j, p)) by {
                    assert forall|k: int| 0 <= k < p.len() implies c[j + k] == p[k] by {
                        assert(r[j + k] == c[j + k]);
                        assert(r[j + k] == p[k]);
                    }
                }
                if j != 0 {
                    assert(r[j - 1] == c[j - 1]);
                }
                assert(is_directive_at(c, j));
                assert(j == i);
                assert(false);
            } else if j < i {
                // straddles the seam: the newline before the replaced line
                // sits inside the window
                assert(0 < i);
                assert(c[i - 1] == NL);
                let k = i - 1 - j;
                assert(0 <= k < p.len());
                assert(r[j + k] == p[k]);
                assert(r[j + k] == c[i - 1]);
                assert(false);
            } else if j == i {
                // the replacement line itself is not an ignore-form line
                assert(r[i + 3] == q[3]);
                assert(r[i + 3] == p[3]);
                assert(false);
            } else if j < i + q.len() {
                // inside the replacement line: no line starts there
                assert(r[j - 1] == q[j - 1 - i]);
                assert(r[j - 1] == NL);
                assert(false);
            } else if j == i + q.len() {
                // right after the replacement bytes: the byte before is the
                // replacement's last, not a newline
                assert(r[j - 1] == q[q.len() - 1]);
                assert(r[j - 1] == NL);
                assert(false);
            } else {
                // wholly after the replaced line: shifted back, it already
                // stood in the original
                let jj = j - q.len() + (e - i);
                assert(jj >= e + 1);
                assert(match_at(c, jj, p)) by {
                    assert forall|k: int| 0 <= k < p.len() implies c[jj + k] == p[k] by {
                        assert(r[j + k] == c[jj + k]);
                        assert(r[j + k] == p[k]);
                    }
                }
                assert(is_line_start(c, jj)) by {
                    assert(r[j - 1] == c[jj - 1]);
                    assert(r[j - 1] == NL);
                }
                assert(is_directive_at(c, jj));
                assert(jj == i);
                assert(false);
            }
        }
    }
}

} // verus!
