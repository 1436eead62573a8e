use vstd::prelude::*;

verus! {

/// What the execution backend reported for one assembled program.
///
/// `Failed` carries the backend's failure message. `ExecutionError` means the
/// backend could not even run the program (as opposed to the program running
/// and failing). `Timeout` means execution exceeded its time bound; a run that
/// timed out did not demonstrate success, so it is tallied with the failures.
#[derive(Debug, Clone, PartialEq, Eq)]
pub enum ExecOutcome {
    Passed,
    Failed(String),
    ExecutionError(String),
    Timeout,
}

/// Why a file's pipeline stopped before any program was executed.
#[derive(Debug, Clone, PartialEq, Eq)]
pub enum SkipReason {
    /// The file has no metadata block at all: a legitimate, countable outcome.
    NoMetadata,
    /// An open marker without a close marker, or a close marker that cuts the
    /// block short.
    MalformedMetadata,
    /// The block's interior is not a well-formed document; carries the parser's
    /// message.
    MetadataParseError(String),
    /// A declared or mandatory snippet name with no stored content; carries the
    /// offending name.
    MissingInclude(String),
}

/// The final classification of one input file.
#[derive(Debug, Clone, PartialEq, Eq)]
pub enum FileOutcome {
    Executed(ExecOutcome),
    Skipped(SkipReason),
}

/// The file ran and demonstrated success.
pub open spec fn is_pass(o: FileOutcome) -> bool {
    o matches FileOutcome::Executed(ExecOutcome::Passed)
}

/// The file ran and did not demonstrate success (a reported failure or a
/// timeout).
pub open spec fn is_fail(o: FileOutcome) -> bool {
    ||| o matches FileOutcome::Executed(ExecOutcome::Failed(_))
    ||| o matches FileOutcome::Executed(ExecOutcome::Timeout)
}

/// The file never came to a pass-or-fail verdict, because it was skipped
/// before execution or the backend itself could not run it.
pub open spec fn is_invalid(o: FileOutcome) -> bool {
    ||| o matches FileOutcome::Skipped(_)
    ||| o matches FileOutcome::Executed(ExecOutcome::ExecutionError(_))
}

/// The file counts as having been run: it passed or failed.
pub open spec fn is_run(o: FileOutcome) -> bool {
    is_pass(o) || is_fail(o)
}

/// Every outcome is tallied exactly once: either it ran to a verdict or it is
/// invalid.
pub proof fn lemma_outcome_partition(o: FileOutcome)
    ensures
        is_run(o) <==> !is_invalid(o),
        !(is_pass(o) && is_fail(o)),
{
}

/// How many of the outcomes are passes.
pub open spec fn passed_count(outs: Seq<FileOutcome>) -> int
    decreases outs.len(),
{
    if outs.len() == 0 {
        0
    } else {
        passed_count(outs.drop_last()) + (if is_pass(outs.last()) {
            1int
        } else {
            0
        })
    }
}

/// How many of the outcomes are failures (a reported failure or a timeout).
pub open spec fn failed_count(outs: Seq<FileOutcome>) -> int
    decreases outs.len(),
{
    if outs.len() == 0 {
        0
    } else {
        failed_count(outs.drop_last()) + (if is_fail(outs.last()) {
            1int
        } else {
            0
        })
    }
}

/// How many of the outcomes actually ran.
pub open spec fn run_count(outs: Seq<FileOutcome>) -> int
    decreases outs.len(),
{
    if outs.len() == 0 {
        0
    } else {
        run_count(outs.drop_last()) + (if is_run(outs.last()) {
            1int
        } else {
            0
        })
    }
}

/// How many of the outcomes never came to a pass-or-fail verdict.
pub open spec fn invalid_count(outs: Seq<FileOutcome>) -> int
    decreases outs.len(),
{
    if outs.len() == 0 {
        0
    } else {
        invalid_count(outs.drop_last()) + (if is_invalid(outs.last()) {
            1int
        } else {
            0
        })
    }
}

} // verus!
