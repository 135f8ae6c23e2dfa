//! Report aggregation and rendering.
//!
//! Each resolved file contributes one `(path, outcome)` pair. The rendered
//! document groups the files by outcome kind — unmodified, removed,
//! replaced, ignored — with a per-kind count and the full file list of each
//! group. The entries arrive in sorted-path order, the order files are
//! processed in, so each group's list is in sorted-path order too and the
//! rendering is reproducible.

use vstd::prelude::*;

use crate::directive::copy_range;
use crate::discover::lex_lt;
use crate::reduce::RunOutcome;

verus! {

/// One aggregated result: a file and its recorded outcome.
pub struct ReportEntry {
    /// The file's path as bytes.
    pub path: Vec<u8>,
    /// The file's terminal outcome.
    pub outcome: RunOutcome,
}

/// The entries' paths are strictly increasing: sorted-path order, each path
/// at most once.
pub open spec fn sorted_entries(s: Seq<ReportEntry>) -> bool {
    forall|i: int, j: int|
        0 <= i < j < s.len() ==> lex_lt((#[trigger] s[i]).path@, (#[trigger] s[j]).path@)
}

/// The report's heading line.
pub open spec fn report_title() -> Seq<u8> {
    seq![35u8, 32u8, 82u8, 101u8, 100u8, 117u8, 99u8, 116u8, 105u8, 111u8, 110u8, 32u8, 114u8,
        101u8, 112u8, 111u8, 114u8, 116u8, 10u8]
}

/// An outcome group's name in the report.
pub open spec fn title_of(o: RunOutcome) -> Seq<u8> {
    match o {
        RunOutcome::UnmodifiedOk => seq![85u8, 110u8, 109u8, 111u8, 100u8, 105u8, 102u8, 105u8,
            101u8, 100u8],
        RunOutcome::RemoveOk => seq![82u8, 101u8, 109u8, 111u8, 118u8, 101u8],
        RunOutcome::ReplaceOk => seq![82u8, 101u8, 112u8, 108u8, 97u8, 99u8, 101u8],
        RunOutcome::Ignored => seq![73u8, 103u8, 110u8, 111u8, 114u8, 101u8, 100u8],
    }
}

/// The decimal numeral of `n`, most significant digit first.
pub open spec fn decimal_rep(n: nat) -> Seq<u8>
    decreases n,
{
    if n < 10 {
        seq![(48 + n) as u8]
    } else {
        decimal_rep(n / 10) + seq![(48 + n % 10) as u8]
    }
}

/// How many entries carry the outcome.
pub open spec fn count_outcome(s: Seq<ReportEntry>, o: RunOutcome) -> nat
    decreases s.len(),
{
    if s.len() == 0 {
        0
    } else {
        count_outcome(s.drop_last(), o) + (if s.last().outcome == o {
            1nat
        } else {
            0nat
        })
    }
}

/// One listing line: `- ` + path + newline.
pub open spec fn line_of(p: Seq<u8>) -> Seq<u8> {
    seq![45u8, 32u8] + p + seq![10u8]
}

/// The listing lines of a group: one per entry with the outcome, in entry
/// order.
pub open spec fn group_lines(s: Seq<ReportEntry>, o: RunOutcome) -> Seq<u8>
    decreases s.len(),
{
    if s.len() == 0 {
        Seq::empty()
    } else {
        group_lines(s.drop_last(), o) + (if s.last().outcome == o {
            line_of(s.last().path@)
        } else {
            Seq::<u8>::empty()
        })
    }
}

/// One outcome group of the report: a blank line, the heading with the
/// count, and the listing lines.
pub open spec fn group_spec(s: Seq<ReportEntry>, o: RunOutcome) -> Seq<u8> {
    seq![10u8, 35u8, 35u8, 32u8] + title_of(o) + seq![32u8, 40u8] + decimal_rep(
        count_outcome(s, o),
    ) + seq![41u8, 10u8] + group_lines(s, o)
}

/// The whole report document.
pub open spec fn render_spec(s: Seq<ReportEntry>) -> Seq<u8> {
    report_title() + group_spec(s, RunOutcome::UnmodifiedOk) + group_spec(
        s,
        RunOutcome::RemoveOk,
    ) + group_spec(s, RunOutcome::ReplaceOk) + group_spec(s, RunOutcome::Ignored)
}

/// Appends the decimal numeral of `n`.
fn append_decimal(out: &mut Vec<u8>, n: usize)
    ensures
        final(out)@ == old(out)@ + decimal_rep(n as nat),
{
    let mut tmp: Vec<u8> = Vec::new();
    let mut m: usize = n;
    proof {
        assert(decimal_rep(n as nat) + tmp@.reverse() =~= decimal_rep(n as nat));
    }
    while m >= 10
        invariant
            decimal_rep(n as nat) == decimal_rep(m as nat) + tmp@.reverse(),
        decreases m,
    {
        let ghost tmp0 = tmp@;
        let d: u8 = (m % 10) as u8 + 48;
        tmp.push(d);
        proof {
            assert(tmp@.reverse() =~= seq![d] + tmp0.reverse());
            assert(decimal_rep(m as nat) == decimal_rep((m / 10) as nat) + seq![d]);
            assert(decimal_rep((m / 10) as nat) + seq![d] + tmp0.reverse() =~= decimal_rep(
                (m / 10) as nat,
            ) + (seq![d] + tmp0.reverse()));
        }
        m = m / 10;
    }
    let ghost tmp0 = tmp@;
    let d: u8 = m as u8 + 48;
    tmp.push(d);
    proof {
        assert(decimal_rep(m as nat) == seq![d]);
        assert(tmp@.reverse() =~= seq![d] + tmp0.reverse());
        assert(decimal_rep(n as nat) =~= tmp@.reverse());
    }
    let mut k: usize = tmp.len();
    proof {
        assert(out@ + tmp@.reverse().take(0) =~= out@);
    }
    while k > 0
        invariant
            k <= tmp@.len(),
            out@ == old(out)@ + tmp@.reverse().take(tmp@.len() - k),
            decimal_rep(n as nat) == tmp@.reverse(),
        decreases k,
    {
        k = k - 1;
        let ghost outpre = out@;
        out.push(tmp[k]);
        proof {
            let rev = tmp@.reverse();
            assert(rev[tmp@.len() - k - 1] == tmp@[k as int]);
            assert(rev.take(tmp@.len() - k) =~= rev.take(tmp@.len() - k - 1).push(
                tmp@[k as int],
            ));
        }
    }
    proof {
        assert(tmp@.reverse().take(tmp@.len() as int) =~= tmp@.reverse());
    }
}

/// Appends a group's blank line and heading up to the opening parenthesis.
fn append_header(out: &mut Vec<u8>, o: RunOutcome)
    ensures
        final(out)@ == old(out)@ + seq![10u8, 35u8, 35u8, 32u8] + title_of(o) + seq![32u8, 40u8],
{
    out.push(10);
    out.push(35);
    out.push(35);
    out.push(32);
    match o {
        RunOutcome::UnmodifiedOk => {
            out.push(85);
            out.push(110);
            out.push(109);
            out.push(111);
            out.push(100);
            out.push(105);
            out.push(102);
            out.push(105);
            out.push(101);
            out.push(100);
        },
        RunOutcome::RemoveOk => {
            out.push(82);
            out.push(101);
            out.push(109);
            out.push(111);
            out.push(118);
            out.push(101);
        },
        RunOutcome::ReplaceOk => {
            out.push(82);
            out.push(101);
            out.push(112);
            out.push(108);
            out.push(97);
            out.push(99);
            out.push(101);
        },
        RunOutcome::Ignored => {
            out.push(73);
            out.push(103);
            out.push(110);
            out.push(111);
            out.push(114);
            out.push(101);
            out.push(100);
        },
    }
    out.push(32);
    out.push(40);
    proof {
        assert(out@ =~= old(out)@ + seq![10u8, 35u8, 35u8, 32u8] + title_of(o) + seq![
            32u8,
            40u8,
        ]);
    }
}

/// How many entries carry the outcome.
fn count_entries(entries: &Vec<ReportEntry>, o: RunOutcome) -> (n: usize)
    ensures
        n as nat == count_outcome(entries@, o),
{
    let mut n: usize = 0;
    let mut k: usize = 0;
    proof {
        assert(entries@.take(0) =~= Seq::<ReportEntry>::empty());
    }
    while k < entries.len()
        invariant
            k <= entries@.len(),
            n <= k,
            n as nat == count_outcome(entries@.take(k as int), o),
        decreases entries@.len() - k,
    {
        proof {
            assert(entries@.take(k + 1 as int).drop_last() =~= entries@.take(k as int));
            assert(entries@.take(k + 1 as int).last() == entries@[k as int]);
        }
        if entries[k].outcome == o {
            n = n + 1;
        }
        k = k + 1;
    }
    proof {
        assert(entries@.take(entries@.len() as int) =~= entries@);
    }
    n
}

/// Appends one listing line for the path.
fn append_line(out: &mut Vec<u8>, p: &Vec<u8>)
    ensures
        final(out)@ == old(out)@ + line_of(p@),
{
    out.push(45);
    out.push(32);
    copy_range(out, p, 0, p.len());
    out.push(10);
    proof {
        assert(p@.subrange(0, p@.len() as int) =~= p@);
        assert(out@ =~= old(out)@ + line_of(p@));
    }
}

/// Appends one whole outcome group.
fn append_group(out: &mut Vec<u8>, entries: &Vec<ReportEntry>, o: RunOutcome)
    ensures
        final(out)@ == old(out)@ + group_spec(entries@, o),
{
    let cnt = count_entries(entries, o);
    append_header(out, o);
    append_decimal(out, cnt);
    out.push(41);
    out.push(10);
    let ghost base = out@;
    proof {
        assert(base + group_lines(entries@.take(0), o) =~= base);
        assert(entries@.take(0) =~= Seq::<ReportEntry>::empty());
    }
    let mut k: usize = 0;
    while k < entries.len()
        invariant
            k <= entries@.len(),
            out@ == base + group_lines(entries@.take(k as int), o),
        decreases entries@.len() - k,
    {
        proof {
            assert(entries@.take(k + 1 as int).drop_last() =~= entries@.take(k as int));
            assert(entries@.take(k + 1 as int).last() == entries@[k as int]);
        }
        let ghost outpre = out@;
        if entries[k].outcome == o {
            append_line(out, &entries[k].path);
        } else {
            proof {
                assert(outpre + Seq::<u8>::empty() =~= outpre);
            }
        }
        k = k + 1;
    }
    proof {
        assert(entries@.take(entries@.len() as int) =~= entries@);
        assert(out@ =~= old(out)@ + group_spec(entries@, o));
    }
}

/// Renders the whole report: the heading, then one group per outcome kind —
/// unmodified, removed, replaced, ignored — each with its count and its file
/// list. The entries arrive in sorted-path order (the processing order), so
/// each group lists its files in sorted-path order and the document is a
/// function of the outcome mapping alone.
pub fn format_report(entries: &Vec<ReportEntry>) -> (r: Vec<u8>)
    requires
        sorted_entries(entries@),
    ensures
        r@ == render_spec(entries@),
{
    let mut out: Vec<u8> = Vec::new();
    out.push(35);
    out.push(32);
    out.push(82);
    out.push(101);
    out.push(100);
    out.push(117);
    out.push(99);
    out.push(116);
    out.push(105);
    out.push(111);
    out.push(110);
    out.push(32);
    out.push(114);
    out.push(101);
    out.push(112);
    out.push(111);
    out.push(114);
    out.push(116);
    out.push(10);
    proof {
        assert(out@ =~= report_title());
    }
    append_group(&mut out, entries, RunOutcome::UnmodifiedOk);
    append_group(&mut out, entries, RunOutcome::RemoveOk);
    append_group(&mut out, entries, RunOutcome::ReplaceOk);
    append_group(&mut out, entries, RunOutcome::Ignored);
    out
}

/// The aggregator for one run: the discovered targets in processing order,
/// and the outcomes recorded so far, one per completed file, in the same
/// order. Because the targets are strictly sorted, so are the recorded
/// entries, and the final rendering needs nothing more from the caller.
pub struct ReportBuilder {
    /// The discovered target paths, strictly sorted.
    pub targets: Vec<Vec<u8>>,
    /// One entry per completed file: `entries[k]` belongs to `targets[k]`.
    pub entries: Vec<ReportEntry>,
}

impl ReportBuilder {
    /// Each recorded entry carries the path of the target it completed, in
    /// target order.
    pub open spec fn wf(self) -> bool {
        &&& crate::discover::strictly_sorted(crate::discover::paths_of(self.targets@))
        &&& self.entries@.len() <= self.targets@.len()
        &&& forall|k: int|
            0 <= k < self.entries@.len() ==> (#[trigger] self.entries@[k]).path@
                == self.targets@[k]@
    }

    /// Starts aggregation over the discovered targets.
    pub fn new(targets: Vec<Vec<u8>>) -> (b: ReportBuilder)
        requires
            crate::discover::strictly_sorted(crate::discover::paths_of(targets@)),
        ensures
            b.wf(),
            b.entries@.len() == 0,
            b.targets@ == targets@,
    {
        ReportBuilder { targets, entries: Vec::new() }
    }

    /// The next file to process, or nothing once every target is resolved.
    pub fn next_path(&self) -> (r: Option<Vec<u8>>)
        requires
            self.wf(),
        ensures
            (r is None) <==> self.entries@.len() == self.targets@.len(),
            (r matches Some(p) ==> self.entries@.len() < self.targets@.len() && p@
                == self.targets@[self.entries@.len() as int]@),
    {
        if self.entries.len() < self.targets.len() {
            let p = self.targets[self.entries.len()].clone();
            proof {
                assert(p@ =~= self.targets@[self.entries@.len() as int]@);
            }
            Some(p)
        } else {
            None
        }
    }

    /// Records the terminal outcome of the file `next_path` last named.
    pub fn record(&mut self, outcome: RunOutcome)
        requires
            old(self).wf(),
            old(self).entries@.len() < old(self).targets@.len(),
        ensures
            final(self).wf(),
            final(self).targets@ == old(self).targets@,
            final(self).entries@.len() == old(self).entries@.len() + 1,
            final(self).entries@.last().path@ == old(self).targets@[old(
                self,
            ).entries@.len() as int]@,
            final(self).entries@.last().outcome == outcome,
            forall|k: int|
                0 <= k < old(self).entries@.len() ==> final(self).entries@[k] == old(
                    self,
                ).entries@[k],
    {
        let k = self.entries.len();
        let path = self.targets[k].clone();
        proof {
            assert(path@ =~= self.targets@[k as int]@);
        }
        self.entries.push(ReportEntry { path, outcome });
    }

    /// Renders the report once every target is resolved: the last step of a
    /// successful run.
    pub fn render(&self) -> (r: Vec<u8>)
        requires
            self.wf(),
            self.entries@.len() == self.targets@.len(),
        ensures
            r@ == render_spec(self.entries@),
    {
        proof {
            assert(sorted_entries(self.entries@)) by {
                assert forall|i: int, j: int| 0 <= i < j < self.entries@.len() implies lex_lt(
                    (#[trigger] self.entries@[i]).path@,
                    (#[trigger] self.entries@[j]).path@,
                ) by {
                    assert(self.entries@[i].path@ == crate::discover::paths_of(self.targets@)[i]);
                    assert(self.entries@[j].path@ == crate::discover::paths_of(self.targets@)[j]);
                }
            }
        }
        format_report(&self.entries)
    }
}

} // verus!
