//! What is seen of requests, replies and what they hold is what they are.
use crate::artifact::{
    Artifact, ArtifactView, Cause, Datum, DatumView, Instruction, InstructionView, State, StateView,
};
use crate::commit::{CommitPhase, CommitPhaseView};
use crate::error::{DialogArtifactsError, ErrorView};
use crate::open::{OpenPhase, OpenPhaseView};
use crate::protocol::{Entry, Reply, ReplyView, Request, RequestView};
use crate::reading::{ReadingPhase, ReadingPhaseView};
use crate::reference::Blake3Hash;
use crate::reset::{ResetPhase, ResetPhaseView};
use crate::revision::{RevisionQuery, RevisionQueryView};
use crate::value::{Value, ValueView};
use vstd::prelude::*;

verus! {

/// Whether a reference that may be there is seen as it is.
pub open spec fn is_seen(reference: Option<Blake3Hash>, seen: Option<Seq<u8>>) -> bool {
    match (reference, seen) {
        (Some(reference), Some(seen)) => reference@ == seen,
        (None, None) => true,
        _ => false,
    }
}

/// An error is seen as what went wrong, with its message.
pub proof fn law_error_is_seen(error: DialogArtifactsError)
    ensures
        match (error, error@) {
            (
                DialogArtifactsError::InvalidRevision(text),
                ErrorView::InvalidRevision(seen),
            ) => text@ == seen,
            (DialogArtifactsError::Export(text), ErrorView::Export(seen)) => text@ == seen,
            (DialogArtifactsError::Storage(text), ErrorView::Storage(seen)) => text@ == seen,
            (DialogArtifactsError::Index(text), ErrorView::Index(seen)) => text@ == seen,
            (
                DialogArtifactsError::InvalidAttribute(text),
                ErrorView::InvalidAttribute(seen),
            ) => text@ == seen,
            (DialogArtifactsError::InvalidEntity(text), ErrorView::InvalidEntity(seen)) => text@
                == seen,
            (DialogArtifactsError::InvalidValue(data_type), ErrorView::InvalidValue(seen)) =>
                data_type == seen,
            _ => false,
        },
{
}

/// A value is seen as what it holds.
pub proof fn law_value_is_seen(value: Value)
    ensures
        match (value, value@) {
            (Value::Boolean(flag), ValueView::Boolean(seen)) => flag == seen,
            (Value::String(text), ValueView::String(seen)) => text@ == seen,
            (Value::UnsignedInt(number), ValueView::UnsignedInt(seen)) => number == seen,
            _ => false,
        },
{
}

/// An artifact and its stored form are seen field by field, and an instruction as what
/// it does with which artifact.
pub proof fn law_instruction_is_seen(instruction: Instruction, datum: Datum)
    ensures
        match (instruction, instruction@) {
            (Instruction::Assert(artifact), InstructionView::Assert(seen)) => artifact_is_seen(
                artifact,
                seen,
            ),
            (Instruction::Retract(artifact), InstructionView::Retract(seen)) => artifact_is_seen(
                artifact,
                seen,
            ),
            _ => false,
        },
        datum_is_seen(datum, datum@),
{
}

/// Whether an artifact is seen as it is.
pub open spec fn artifact_is_seen(artifact: Artifact, seen: ArtifactView) -> bool {
    &&& artifact.the@ == seen.the
    &&& artifact.of@ == seen.of
    &&& artifact.is@ == seen.is
    &&& match (artifact.cause, seen.cause) {
        (Some(Cause(reference)), Some(cause)) => reference@ == cause,
        (None, None) => true,
        _ => false,
    }
}

/// Whether the stored form of an artifact is seen as it is.
pub open spec fn datum_is_seen(datum: Datum, seen: DatumView) -> bool {
    &&& datum.attribute@ == seen.attribute
    &&& datum.entity@ == seen.entity
    &&& datum.value_type == seen.value_type
    &&& datum.value@ == seen.value
    &&& match (datum.cause, seen.cause) {
        (Some(Cause(reference)), Some(cause)) => reference@ == cause,
        (None, None) => true,
        _ => false,
    }
}

/// Whether a state is seen as it is.
pub open spec fn state_is_seen(state: State, seen: StateView) -> bool {
    match (state, seen) {
        (State::Added(datum), StateView::Added(seen)) => datum_is_seen(datum, seen),
        (State::Removed, StateView::Removed) => true,
        _ => false,
    }
}

/// A request is seen as what is asked for.
pub proof fn law_request_is_seen(request: Request)
    ensures
        match (request, request@) {
            (Request::GetBlock(key), RequestView::GetBlock(seen)) => key@ == seen,
            (Request::SetBlock(key, block), RequestView::SetBlock(seen, bytes)) => key@ == seen
                && block@ == bytes,
            (Request::ReadRevision(reference), RequestView::ReadRevision(seen)) => reference@
                == seen,
            (Request::WriteRevision(revision), RequestView::WriteRevision(seen)) => revision@
                == seen,
            (Request::ReferToRevision(revision), RequestView::ReferToRevision(seen)) => revision@
                == seen,
            (Request::OpenIndex(root), RequestView::OpenIndex(seen)) => is_seen(root, seen),
            (Request::SetRoot(root), RequestView::SetRoot(seen)) => is_seen(root, seen),
            (Request::GetRoot, RequestView::GetRoot) => true,
            (Request::SetEntry(key, state), RequestView::SetEntry(seen, held)) => key@ == seen
                && state_is_seen(state, held),
            (Request::DeleteEntry(key), RequestView::DeleteEntry(seen)) => key@ == seen,
            (Request::Scan(range), RequestView::Scan(seen)) => range.start@ == seen.start
                && range.end@ == seen.end,
            (Request::NextEntry, RequestView::NextEntry) => true,
            (Request::NextInstruction, RequestView::NextInstruction) => true,
            (Request::NextRow, RequestView::NextRow) => true,
            (Request::Report(message), RequestView::Report(seen)) => message@ == seen,
            (Request::Yield(artifact), RequestView::Yield(seen)) => artifact_is_seen(
                artifact,
                seen,
            ),
            (Request::WriteRow(artifact), RequestView::WriteRow(seen)) => artifact_is_seen(
                artifact,
                seen,
            ),
            _ => false,
        },
{
}

/// A reply is seen as what is told.
pub proof fn law_reply_is_seen(reply: Reply)
    ensures
        match (reply, reply@) {
            (Reply::Done, ReplyView::Done) => true,
            (Reply::Failed(error), ReplyView::Failed(seen)) => error@ == seen,
            (Reply::RowFailed(message), ReplyView::RowFailed(seen)) => message@ == seen,
            (Reply::Block(Some(block)), ReplyView::Block(Some(seen))) => block@ == seen,
            (Reply::Block(None), ReplyView::Block(None)) => true,
            (Reply::Revision(Some(revision)), ReplyView::Revision(Some(seen))) => revision@ == seen,
            (Reply::Revision(None), ReplyView::Revision(None)) => true,
            (Reply::Reference(reference), ReplyView::Reference(seen)) => reference@ == seen,
            (Reply::Root(root), ReplyView::Root(seen)) => is_seen(root, seen),
            (Reply::Entry(Some(entry)), ReplyView::Entry(Some(seen))) => entry.key@ == seen.key
                && state_is_seen(entry.value, seen.value),
            (Reply::Entry(None), ReplyView::Entry(None)) => true,
            (Reply::Instruction(Some(instruction)), ReplyView::Instruction(Some(seen))) =>
                instruction@ == seen,
            (Reply::Instruction(None), ReplyView::Instruction(None)) => true,
            (Reply::Row(Some(Ok(artifact))), ReplyView::Row(Some(Ok(seen)))) => artifact_is_seen(
                artifact,
                seen,
            ),
            (Reply::Row(Some(Err(message))), ReplyView::Row(Some(Err(seen)))) => message@ == seen,
            (Reply::Row(None), ReplyView::Row(None)) => true,
            _ => false,
        },
{
}

/// How an operation ended is seen as it is: with success, a revision or an error.
pub proof fn law_outcome_is_seen(
    unit: Result<(), DialogArtifactsError>,
    reference: Result<Blake3Hash, DialogArtifactsError>,
)
    ensures
        match (unit, OpenPhase::Finished(unit)@, ResetPhase::Finished(unit)@) {
            (
                Ok(()),
                OpenPhaseView::Finished(Ok(())),
                ResetPhaseView::Finished(Ok(())),
            ) => true,
            (
                Err(error),
                OpenPhaseView::Finished(Err(opened)),
                ResetPhaseView::Finished(Err(reset)),
            ) => error@ == opened && error@ == reset,
            _ => false,
        },
        match (unit, ReadingPhase::Finished(unit)@) {
            (Ok(()), ReadingPhaseView::Finished(Ok(()))) => true,
            (Err(error), ReadingPhaseView::Finished(Err(seen))) => error@ == seen,
            _ => false,
        },
        match (reference, RevisionQuery::Finished(reference)@) {
            (Ok(revision), RevisionQueryView::Finished(Ok(seen))) => revision@ == seen,
            (Err(error), RevisionQueryView::Finished(Err(seen))) => error@ == seen,
            _ => false,
        },
        match (reference, CommitPhase::Finished(reference)@) {
            (Ok(revision), CommitPhaseView::Finished(Ok(seen))) => revision@ == seen,
            (Err(error), CommitPhaseView::Finished(Err(seen))) => error@ == seen,
            _ => false,
        },
{
}

} // verus!
