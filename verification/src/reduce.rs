//! The per-file reduction state machine.
//!
//! One file passes through up to three oracle invocations: a sanity check on
//! the unmodified content, a try with the directive removed, and a try with
//! the directive replaced by the compile-flags form. The machine itself does
//! no I/O: each step consumes one oracle response and says what to do next —
//! write this content and invoke the oracle again, finish with an outcome and
//! the content the file must end with, or restore the original and abort the
//! whole run. Whenever an attempted mutation is not the one kept, the content
//! handed back equals the original byte for byte.

use vstd::prelude::*;

use crate::directive::clean_target;
use crate::directive::has_directive;
use crate::directive::lemma_removed_resolves;
use crate::directive::lemma_replaced_resolves;
use crate::directive::removed_content;
use crate::directive::replaced_content;
use crate::directive::scan_directive;
use crate::directive::splice_remove;
use crate::directive::splice_replace;
use crate::directive::DirectiveScan;
use crate::errors::RunError;
use crate::oracle::OracleResponse;

verus! {

/// The terminal classification of one file, which fully determines the
/// file's final content relative to its original.
#[derive(Debug, Clone, Copy, PartialEq, Eq, Structural)]
pub enum RunOutcome {
    /// Both removal and replacement fail: the file stays unmodified.
    UnmodifiedOk,
    /// The directive is removed outright and the test still passes.
    RemoveOk,
    /// The directive is removed but the compile-flags form is needed (and,
    /// being the stricter form, preferred) for the test to pass.
    ReplaceOk,
    /// The file carries no ignore-form directive and is left untouched.
    Ignored,
}

/// The content a file must end with, given its original content and its
/// recorded outcome.
pub open spec fn outcome_content(original: Seq<u8>, outcome: RunOutcome) -> Seq<u8> {
    match outcome {
        RunOutcome::UnmodifiedOk => original,
        RunOutcome::RemoveOk => removed_content(original),
        RunOutcome::ReplaceOk => replaced_content(original),
        RunOutcome::Ignored => original,
    }
}

/// Which oracle invocation the machine is waiting on.
pub enum Phase {
    /// The unmodified file is under test.
    Sanity,
    /// The remove-transformed content is on disk and under test.
    Remove { removed: Vec<u8> },
    /// The replace-transformed content is on disk and under test; the
    /// remove-transformed content is kept for the fallback.
    Replace { removed: Vec<u8>, replaced: Vec<u8> },
}

/// The reduction of one file: its original content and the pending phase.
pub struct Reduction {
    /// The file's content exactly as it was before the first mutation.
    pub original: Vec<u8>,
    /// The phase whose oracle response is awaited.
    pub phase: Phase,
}

impl Reduction {
    /// The carried transforms are the transforms of the original.
    pub open spec fn wf(self) -> bool {
        match self.phase {
            Phase::Sanity => true,
            Phase::Remove { removed } => {
                clean_target(self.original@) && removed@ == removed_content(self.original@)
            },
            Phase::Replace { removed, replaced } => {
                clean_target(self.original@) && removed@ == removed_content(self.original@)
                    && replaced@ == replaced_content(self.original@)
            },
        }
    }
}

/// What the caller must do after one step of the machine.
pub enum Step {
    /// Write `write` to the file, invoke the oracle on it, and feed the
    /// response to `next`.
    Continue { next: Reduction, write: Vec<u8> },
    /// The file is resolved: bring it to `final_content` and record
    /// `outcome`. No further oracle invocation concerns this file.
    Done { outcome: RunOutcome, final_content: Vec<u8> },
    /// Restore the file to `restore` (its original content) and abort the
    /// whole run with `error`; no later file may be touched.
    Fatal { error: RunError, restore: Vec<u8> },
}

/// Starts the reduction of one file. The caller invokes the oracle on the
/// file as it stands — the sanity check — and feeds the response in.
pub fn begin(original: Vec<u8>) -> (r: Reduction)
    ensures
        r.wf(),
        r.phase is Sanity,
        r.original@ == original@,
{
    Reduction { original, phase: Phase::Sanity }
}

impl Reduction {
    /// Advances the machine by one oracle response.
    ///
    /// A failed sanity check aborts the run before any mutation, so no file
    /// of the batch is touched. A tooling error is fatal in every phase, the
    /// in-flight file restored first. A failed remove keeps the original; a
    /// failed replace keeps the proven remove transform; a passing replace
    /// keeps the replacement.
    pub fn on_oracle(self, resp: OracleResponse) -> (r: Step)
        requires
            self.wf(),
        ensures
            (r matches Step::Continue { next, write } ==> next.wf() && next.original@
                == self.original@),
            (r matches Step::Fatal { error, restore } ==> restore@ == self.original@),
            (r matches Step::Done { outcome, final_content } ==>
                final_content@ == outcome_content(self.original@, outcome)),
            (resp is ToolingError ==>
                (r matches Step::Fatal { error, restore } && error is ToolingFailure)),
            (self.phase is Sanity && resp is Fail ==>
                (r matches Step::Fatal { error, restore } && error is BaselineFailure)),
            (self.phase is Sanity && resp is Pass && !has_directive(self.original@) ==>
                (r matches Step::Done { outcome, final_content } && outcome is Ignored)),
            (self.phase is Sanity && resp is Pass && has_directive(self.original@)
                && !clean_target(self.original@) ==>
                (r matches Step::Fatal { error, restore } && error is DirectiveAnomaly)),
            (self.phase is Sanity && resp is Pass && clean_target(self.original@) ==>
                (r matches Step::Continue { next, write } && next.phase is Remove
                    && write@ == removed_content(self.original@))),
            (self.phase is Remove && resp is Fail ==>
                (r matches Step::Done { outcome, final_content } && outcome is UnmodifiedOk)),
            (self.phase is Remove && resp is Pass ==>
                (r matches Step::Continue { next, write } && next.phase is Replace
                    && write@ == replaced_content(self.original@))),
            (self.phase is Replace && resp is Pass ==>
                (r matches Step::Done { outcome, final_content } && outcome is ReplaceOk)),
            (self.phase is Replace && resp is Fail ==>
                (r matches Step::Done { outcome, final_content } && outcome is RemoveOk)),
    {
        match resp {
            OracleResponse::ToolingError => {
                Step::Fatal { error: RunError::ToolingFailure, restore: self.original }
            },
            OracleResponse::Fail => {
                match self.phase {
                    Phase::Sanity => {
                        Step::Fatal { error: RunError::BaselineFailure, restore: self.original }
                    },
                    Phase::Remove { removed: _ } => {
                        Step::Done {
                            outcome: RunOutcome::UnmodifiedOk,
                            final_content: self.original,
                        }
                    },
                    Phase::Replace { removed, replaced: _ } => {
                        Step::Done { outcome: RunOutcome::RemoveOk, final_content: removed }
                    },
                }
            },
            OracleResponse::Pass => {
                match self.phase {
                    Phase::Sanity => {
                        match scan_directive(&self.original) {
                            DirectiveScan::Absent => {
                                Step::Done {
                                    outcome: RunOutcome::Ignored,
                                    final_content: self.original,
                                }
                            },
                            DirectiveScan::Anomalous => {
                                Step::Fatal {
                                    error: RunError::DirectiveAnomaly,
                                    restore: self.original,
                                }
                            },
                            DirectiveScan::Present { start, end } => {
                                let removed = splice_remove(&self.original, start, end);
                                let write = removed.clone();
                                proof {
                                    assert(write@ =~= removed@);
                                }
                                Step::Continue {
                                    next: Reduction {
                                        original: self.original,
                                        phase: Phase::Remove { removed },
                                    },
                                    write,
                                }
                            },
                        }
                    },
                    Phase::Remove { removed } => {
                        match scan_directive(&self.original) {
                            DirectiveScan::Present { start, end } => {
                                let replaced = splice_replace(&self.original, start, end);
                                let write = replaced.clone();
                                proof {
                                    assert(write@ =~= replaced@);
                                }
                                Step::Continue {
                                    next: Reduction {
                                        original: self.original,
                                        phase: Phase::Replace { removed, replaced },
                                    },
                                    write,
                                }
                            },
                            _ => {
                                proof {
                                    assert(false);
                                }
                                vstd::pervasive::unreached()
                            },
                        }
                    },
                    Phase::Replace { removed: _, replaced } => {
                        Step::Done { outcome: RunOutcome::ReplaceOk, final_content: replaced }
                    },
                }
            },
        }
    }
}

/// Idempotence of a completed run. A file that a run fully resolved —
/// outcome `Ignored`, `RemoveOk` or `ReplaceOk`, with the file brought to the
/// content its outcome determines — carries no ignore-form directive any
/// more. A second run over the same repository therefore finds nothing to
/// mutate in it: its sanity check is followed by outcome `Ignored` and the
/// content stays byte-identical. Only `UnmodifiedOk` keeps the directive, and
/// it is excluded here: such a file was deliberately left unresolved.
pub proof fn lemma_run_idempotent(original: Seq<u8>, outcome: RunOutcome)
    requires
        outcome is Ignored ==> !has_directive(original),
        outcome is RemoveOk || outcome is ReplaceOk ==> clean_target(original),
        !(outcome is UnmodifiedOk),
    ensures
        !has_directive(outcome_content(original, outcome)),
{
    if outcome is RemoveOk {
        lemma_removed_resolves(original);
    }
    if outcome is ReplaceOk {
        lemma_replaced_resolves(original);
    }
}

} // verus!
