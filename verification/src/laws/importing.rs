//! What an import does to the store.
use crate::artifact::{law_artifact_of_its_datum, ArtifactView, InstructionView, StateView};
use crate::cause::cause_of;
use crate::commit::CommitPhaseView;
use crate::error::ErrorView;
use crate::import::ImportView;
use crate::index::{after_all, state_at, Contents};
use crate::key::{lemma_key_of_parts_in, parts_in, parts_of, KeyKind};
use crate::laws::committing::{
    has_all_instructions, is_framed, is_on_course, is_restored, lemma_ends_on_course,
    lemma_ignores_rows, lemma_starts_on_course, lemma_step,
    lemma_step_instruction, lemma_step_reports, reports_failure, History,
};
use crate::laws::contents::{
    holds, is_consistent, is_consistent_at, law_batch_is_its_parts, law_empty_is_consistent,
};
use crate::laws::order::{are_independent, assertions, is_key_of, lemma_assertions};
use crate::laws::reading::{
    are_ascending, is_smooth_amid, law_all_is_read, reading_after, reads_amid, written_after,
    SharedCourse,
};
use crate::protocol::{Process, ReplyView, RowView};
use crate::reading::ReadingView;
use crate::record::{artifact_in, law_artifact_of_its_record, record_of};
use crate::world::{
    is_smooth, lemma_smooth_rest, process_after, takes, world_after, Course, World,
};
use vstd::prelude::*;

verus! {

/// The artifacts of rows, without the rows that hold none.
pub open spec fn artifacts_of(rows: Seq<RowView>) -> Seq<ArtifactView>
    decreases rows.len(),
{
    if rows.len() == 0 {
        Seq::empty()
    } else {
        match rows[0] {
            Ok(artifact) => seq![artifact] + artifacts_of(rows.drop_first()),
            Err(_) => artifacts_of(rows.drop_first()),
        }
    }
}

/// The messages about the rows that hold no artifact.
pub open spec fn messages_of(rows: Seq<RowView>) -> Seq<Seq<char>>
    decreases rows.len(),
{
    if rows.len() == 0 {
        Seq::empty()
    } else {
        match rows[0] {
            Ok(_) => messages_of(rows.drop_first()),
            Err(message) => seq!["Skipping invalid datum: "@ + message] + messages_of(
                rows.drop_first(),
            ),
        }
    }
}

/// The history of the commit that an import feeds, with one more reply.
pub open spec fn fed(history: History, import: ImportView, reply: ReplyView) -> History {
    match (import.commit.phase, import.report, reply) {
        (CommitPhaseView::Instruction, None, ReplyView::Row(Some(Ok(artifact)))) =>
            history.with_reply(
            import.commit,
            ReplyView::Instruction(Some(InstructionView::Assert(artifact))),
        ),
        (CommitPhaseView::Instruction, None, ReplyView::Row(None)) => history.with_reply(
            import.commit,
            ReplyView::Instruction(None),
        ),
        (CommitPhaseView::Instruction, _, _) => history,
        _ => history.with_reply(import.commit, reply),
    }
}

/// The history of the commit that an import feeds, at the end of a course.
pub open spec fn fed_after(import: ImportView, course: Course, history: History) -> History
    decreases course.len(),
{
    if course.len() == 0 {
        history
    } else {
        fed_after(
            import.next(course[0].0),
            course.drop_first(),
            fed(history, import, course[0].0),
        )
    }
}

/// What holds of an import at every point of its course: the commit that it feeds
/// is on its own, what it has got and what is to come is what there was, and the
/// same goes for the messages.
spec fn is_importing(import: ImportView, start: World, now: World, history: History) -> bool {
    &&& is_on_course(import.commit, start, now, history)
    &&& reports_failure(import.commit, start, history)
    &&& history.instructions + assertions(artifacts_of(now.rows)) == assertions(
        artifacts_of(start.rows),
    )
    &&& now.messages + match import.report {
        Some(message) => seq![message],
        None => Seq::empty(),
    } + messages_of(now.rows) == start.messages + messages_of(start.rows)
    &&& has_all_instructions(import.commit.phase) ==> now.rows.len() == 0
    &&& import.report is Some ==> import.commit.phase is Instruction
}

proof fn lemma_step_import(
    import: ImportView,
    start: World,
    before: World,
    reply: ReplyView,
    now: World,
    history: History,
)
    requires
        is_importing(import, start, before, history),
        import.request() matches Some(request) && before.answers(request, reply, now),
    ensures
        is_importing(import.next(reply), start, now, fed(history, import, reply)),
{
    let next = import.next(reply);
    let later = fed(history, import, reply);
    if import.commit.phase is Instruction {
        match (import.report, reply) {
            (Some(message), _) => {
                lemma_ignores_rows(import.commit, start, before, now, history);
                assert(now.messages + Seq::<Seq<char>>::empty() + messages_of(now.rows)
                    =~= before.messages + seq![message] + messages_of(before.rows));
            },
            (None, ReplyView::Row(Some(Ok(artifact)))) => {
                let instruction = InstructionView::Assert(artifact);
                lemma_step_instruction(
                    import.commit,
                    start,
                    before,
                    ReplyView::Instruction(Some(instruction)),
                    now,
                    history,
                );
                lemma_step_reports(
                    import.commit,
                    start,
                    before,
                    ReplyView::Instruction(Some(instruction)),
                    now,
                    history,
                );
                assert(assertions(artifacts_of(before.rows)) =~= seq![instruction] + assertions(
                    artifacts_of(now.rows),
                ));
                assert(later.instructions + assertions(artifacts_of(now.rows))
                    =~= history.instructions + assertions(artifacts_of(before.rows)));
            },
            (None, ReplyView::Row(Some(Err(message)))) => {
                lemma_ignores_rows(import.commit, start, before, now, history);
                let shown = "Skipping invalid datum: "@ + message;
                assert(now.messages + seq![shown] + messages_of(now.rows) =~= before.messages
                    + Seq::<Seq<char>>::empty() + messages_of(before.rows));
            },
            (None, _) => {
                lemma_step_instruction(
                    import.commit,
                    start,
                    before,
                    ReplyView::Instruction(None),
                    now,
                    history,
                );
                lemma_step_reports(
                    import.commit,
                    start,
                    before,
                    ReplyView::Instruction(None),
                    now,
                    history,
                );
                assert(later.instructions == history.instructions);
            },
        }
    } else {
        lemma_step(import.commit, start, before, reply, now, history);
        lemma_step_reports(import.commit, start, before, reply, now, history);
        assert(now.rows == before.rows && now.messages == before.messages);
        assert(later.instructions == history.instructions);
    }
}

proof fn lemma_course(
    import: ImportView,
    start: World,
    now: World,
    course: Course,
    history: History,
)
    requires
        is_importing(import, start, now, history),
        takes(import, now, course),
    ensures
        is_importing(
            process_after(import, course),
            start,
            world_after(now, course),
            fed_after(import, course, history),
        ),
        process_after(import, course).commit.pointer == import.commit.pointer,
    decreases course.len(),
{
    if course.len() > 0 {
        let (reply, after) = course[0];
        lemma_step_import(import, start, now, reply, after, history);
        lemma_course(
            import.next(reply),
            start,
            after,
            course.drop_first(),
            fed(history, import, reply),
        );
        assert(world_after(after, course.drop_first()) == world_after(now, course));
    }
}

proof fn lemma_from_start(pointer: Seq<u8>, world: World, course: Course)
    requires
        takes(ImportView::start(pointer), world, course),
    ensures
        is_importing(
            process_after(ImportView::start(pointer), course),
            world,
            world_after(world, course),
            fed_after(ImportView::start(pointer), course, History::start()),
        ),
        process_after(ImportView::start(pointer), course).commit.pointer == pointer,
{
    let import = ImportView::start(pointer);
    lemma_starts_on_course(pointer, world);
    assert(History::start().instructions + assertions(artifacts_of(world.rows)) =~= assertions(
        artifacts_of(world.rows),
    ));
    assert(world.messages + Seq::<Seq<char>>::empty() + messages_of(world.rows) =~= world.messages
        + messages_of(world.rows));
    lemma_course(import, world, world, course, History::start());
}

/// An import that succeeds has asserted the artifacts of all rows, in their order,
/// and has shown a message about each row that holds none. It leaves the store at
/// the revision that it made.
pub proof fn law_import_asserts_rows(
    pointer: Seq<u8>,
    world: World,
    course: Course,
    revision: Seq<u8>,
)
    requires
        takes(ImportView::start(pointer), world, course),
        process_after(ImportView::start(pointer), course).commit.phase
            == CommitPhaseView::Finished(Ok(revision)),
    ensures
        after_all(world.index, assertions(artifacts_of(world.rows))) == Ok::<Contents, ErrorView>(
            world_after(world, course).index,
        ),
        world_after(world, course).messages == world.messages + messages_of(world.rows),
        revision == world_after(world, course).revision(),
        world_after(world, course).is_settled(),
        world_after(world, course).blocks == world.blocks.insert(pointer, revision),
        is_framed(world, world_after(world, course)),
{
    lemma_from_start(pointer, world, course);
    let import = process_after(ImportView::start(pointer), course);
    let history = fed_after(ImportView::start(pointer), course, History::start());
    let now = world_after(world, course);
    lemma_ends_on_course(import.commit, world, now, history);
    assert(history.instructions =~= assertions(artifacts_of(world.rows)));
    assert(now.messages + Seq::<Seq<char>>::empty() + messages_of(now.rows) =~= now.messages);
}

/// At every point of an import, the messages that were shown are those about the first
/// rows that hold no artifact, in their order.
pub proof fn law_import_reports_in_order(pointer: Seq<u8>, world: World, course: Course)
    requires
        takes(ImportView::start(pointer), world, course),
    ensures
        world.messages.is_prefix_of(world_after(world, course).messages),
        world_after(world, course).messages.is_prefix_of(
            world.messages + messages_of(world.rows),
        ),
{
    lemma_from_start(pointer, world, course);
    lemma_messages(ImportView::start(pointer), world, course);
    let import = process_after(ImportView::start(pointer), course);
    let now = world_after(world, course);
    let pending = match import.report {
        Some(message) => seq![message],
        None => Seq::empty(),
    };
    let all = now.messages + pending + messages_of(now.rows);
    assert(now.messages =~= all.subrange(0, now.messages.len() as int));
}

/// An import takes back no message.
proof fn lemma_messages(import: ImportView, world: World, course: Course)
    requires
        takes(import, world, course),
    ensures
        world.messages.is_prefix_of(world_after(world, course).messages),
    decreases course.len(),
{
    if course.len() > 0 {
        let (reply, after) = course[0];
        lemma_messages(import.next(reply), after, course.drop_first());
        assert(world_after(after, course.drop_first()) == world_after(world, course));
        assert(world.messages.is_prefix_of(after.messages));
    }
}

/// An import that fails leaves the store where it was, and reports what went wrong
/// first, if the index was that of a stored revision and no request fails by which
/// the store is set back. Where the import fails after it knew the revision to fall
/// back on, the block then names that revision.
pub proof fn law_import_falls_back(
    pointer: Seq<u8>,
    world: World,
    course: Course,
    error: ErrorView,
)
    requires
        takes(ImportView::start(pointer), world, course),
        process_after(ImportView::start(pointer), course).commit.phase
            == CommitPhaseView::Finished(Err(error)),
        world.is_settled(),
        fed_after(ImportView::start(pointer), course, History::start()).is_calm,
    ensures
        is_restored(
            pointer,
            world,
            world_after(world, course),
            fed_after(ImportView::start(pointer), course, History::start()).is_based,
        ),
        fed_after(ImportView::start(pointer), course, History::start()).failure == Some(error),
{
    lemma_from_start(pointer, world, course);
    let import = process_after(ImportView::start(pointer), course);
    let history = fed_after(ImportView::start(pointer), course, History::start());
    lemma_ends_on_course(import.commit, world, world_after(world, course), history);
}

/// In a course in which no request fails, none fails that the commit makes.
proof fn lemma_smooth(import: ImportView, course: Course, history: History)
    requires
        is_smooth(course),
        history.is_smooth,
        history.is_calm,
    ensures
        fed_after(import, course, history).is_smooth,
        fed_after(import, course, history).is_calm,
    decreases course.len(),
{
    if course.len() > 0 {
        lemma_smooth_rest(course);
        lemma_smooth(
            import.next(course[0].0),
            course.drop_first(),
            fed(history, import, course[0].0),
        );
    }
}

/// An import in the course of which no request fails ends as its rows say: with
/// success if their artifacts can be asserted, else with the error of the first
/// that cannot.
pub proof fn law_import_succeeds(
    pointer: Seq<u8>,
    world: World,
    course: Course,
    outcome: Result<Seq<u8>, ErrorView>,
)
    requires
        takes(ImportView::start(pointer), world, course),
        process_after(ImportView::start(pointer), course).commit.phase
            == CommitPhaseView::Finished(outcome),
        world.is_settled(),
        is_smooth(course),
    ensures
        match after_all(world.index, assertions(artifacts_of(world.rows))) {
            Ok(_) => outcome is Ok,
            Err(error) => outcome == Err::<Seq<u8>, ErrorView>(error),
        },
{
    let start = ImportView::start(pointer);
    lemma_from_start(pointer, world, course);
    lemma_smooth(start, course, History::start());
    let import = process_after(start, course);
    let history = fed_after(start, course, History::start());
    let now = world_after(world, course);
    lemma_ends_on_course(import.commit, world, now, history);
    match outcome {
        Ok(_) => {
            assert(history.instructions =~= assertions(artifacts_of(world.rows)));
        },
        Err(_) => {
            law_batch_is_its_parts(
                world.index,
                history.instructions,
                assertions(artifacts_of(now.rows)),
            );
        },
    }
}

/// Whether contents hold artifacts only, with no mark of one that was retracted,
/// and no artifact that supersedes another one that is stored.
pub open spec fn is_plain(contents: Contents) -> bool {
    &&& forall|key: Seq<u8>| #[trigger]
        contents.dom().contains(key) ==> contents[key] is Added
    &&& forall|a: ArtifactView, b: ArtifactView|
        a.valid() && b.valid() && #[trigger] holds(contents, a) && #[trigger] holds(contents, b)
            ==> a.cause != Some(cause_of(b))
}

/// The rows that are read where the given artifacts were written: what the record of
/// each stands for.
pub open spec fn rows_of(artifacts: Seq<ArtifactView>) -> Seq<RowView> {
    artifacts.map_values(|artifact: ArtifactView| artifact_in(record_of(artifact)))
}

proof fn lemma_artifacts_of_rows(artifacts: Seq<ArtifactView>)
    requires
        forall|i: int| 0 <= i < artifacts.len() ==> (#[trigger] artifacts[i]).valid(),
    ensures
        artifacts_of(rows_of(artifacts)) == artifacts,
    decreases artifacts.len(),
{
    if artifacts.len() > 0 {
        law_artifact_of_its_record(artifacts[0]);
        lemma_artifacts_of_rows(artifacts.drop_first());
        assert(rows_of(artifacts).drop_first() =~= rows_of(artifacts.drop_first()));
        assert(artifacts_of(rows_of(artifacts)) =~= artifacts);
    } else {
        assert(artifacts_of(rows_of(artifacts)) =~= artifacts);
    }
}

/// Asserting what is stored, into nothing, gives what is stored.
proof fn lemma_restores(contents: Contents, artifacts: Seq<ArtifactView>)
    requires
        is_consistent(contents),
        is_plain(contents),
        forall|artifact: ArtifactView| #[trigger]
            artifacts.contains(artifact) <==> artifact.valid() && holds(contents, artifact),
    ensures
        after_all(Map::empty(), assertions(artifacts)) == Ok::<Contents, ErrorView>(contents),
{
    let nothing: Contents = Map::empty();
    assert forall|i: int| 0 <= i < artifacts.len() implies (#[trigger] artifacts[i]).valid()
        && holds(contents, artifacts[i]) by {
        assert(artifacts.contains(artifacts[i]));
    }
    assert(are_independent(nothing, artifacts)) by {
        assert forall|i: int, j: int|
            0 <= i < artifacts.len() && 0 <= j < artifacts.len() && parts_of(
                #[trigger] artifacts[i],
            ) == parts_of(#[trigger] artifacts[j]) implies artifacts[i] == artifacts[j] by {
            law_artifact_of_its_datum(artifacts[i]);
            law_artifact_of_its_datum(artifacts[j]);
        }
    }
    law_empty_is_consistent();
    lemma_assertions(nothing, artifacts);
    let made = after_all(nothing, assertions(artifacts))->Ok_0;
    assert forall|key: Seq<u8>| state_at(contents, key) == #[trigger] state_at(made, key) by {
        if exists|i: int| 0 <= i < artifacts.len() && is_key_of(key, #[trigger] artifacts[i]) {
            let i = choose|i: int|
                0 <= i < artifacts.len() && is_key_of(key, #[trigger] artifacts[i]);
            let kind = choose|kind: KeyKind| key == #[trigger] parts_of(artifacts[i]).key(kind);
            assert(state_at(made, parts_of(artifacts[i]).key(kind)) == Some(
                StateView::Added(artifacts[i].datum()),
            ));
            assert(is_consistent_at(contents, parts_of(artifacts[i])));
        } else {
            assert(state_at(made, key) == state_at(nothing, key));
            if contents.dom().contains(key) {
                let kind = if key[0] == 0 {
                    KeyKind::Entity
                } else if key[0] == 1 {
                    KeyKind::Attribute
                } else {
                    KeyKind::Value
                };
                lemma_key_of_parts_in(kind, key);
                let parts = parts_in(kind, key);
                assert(is_consistent_at(contents, parts));
                assert(state_at(contents, key) == state_at(contents, parts.key(KeyKind::Entity)));
                let artifact = contents[key]->Added_0.artifact()->Ok_0;
                assert(holds(contents, artifact) && artifact.valid());
                assert(artifacts.contains(artifact));
                let i = choose|i: int| 0 <= i < artifacts.len() && artifacts[i] == artifact;
                assert(key == parts_of(artifacts[i]).key(kind));
                assert(is_key_of(key, artifacts[i]));
            }
        }
    }
    assert(made =~= contents) by {
        assert forall|key: Seq<u8>| made.dom().contains(key) == contents.dom().contains(key) by {
            assert(state_at(contents, key) == state_at(made, key));
        }
        assert forall|key: Seq<u8>| made.dom().contains(key) implies made[key]
            == contents[key] by {
            assert(state_at(contents, key) == state_at(made, key));
        }
    }
}

/// Importing, into an empty store, the rows that an export of a store wrote succeeds
/// if no request fails, and gives a store with the same contents, and so at the same
/// revision, which is returned. The exported store
/// must hold no mark of a retracted artifact, as these are not among its artifacts,
/// and no artifact that supersedes another one that it holds.
pub proof fn law_import_restores_export(
    exported: World,
    export: SharedCourse,
    pointer: Seq<u8>,
    world: World,
    course: Course,
    outcome: Result<Seq<u8>, ErrorView>,
)
    requires
        reads_amid(ReadingView::of_all(true), exported, export),
        is_smooth_amid(export),
        reading_after(ReadingView::of_all(true), export).phase is Finished,
        is_consistent(export[0].0.index),
        is_plain(export[0].0.index),
        exported.written.len() == 0,
        takes(ImportView::start(pointer), world, course),
        process_after(ImportView::start(pointer), course).commit.phase
            == CommitPhaseView::Finished(outcome),
        is_smooth(course),
        world.is_settled(),
        world.index == Map::<Seq<u8>, StateView>::empty(),
        world.rows == rows_of(written_after(exported, export)),
        world.root == export[0].0.root,
        world.refer == export[0].0.refer,
    ensures
        world_after(world, course).index == export[0].0.index,
        outcome == Ok::<Seq<u8>, ErrorView>(export[0].0.revision()),
{
    let contents = export[0].0.index;
    law_all_is_read(true, exported, export);
    let found = choose|found: Seq<ArtifactView>|
        written_after(exported, export) == exported.written + found && are_ascending(
            found,
            KeyKind::Entity,
        ) && forall|artifact: ArtifactView| #[trigger]
            found.contains(artifact) <==> artifact.valid() && holds(contents, artifact);
    assert(exported.written + found =~= found);
    assert forall|i: int| 0 <= i < found.len() implies (#[trigger] found[i]).valid() by {
        assert(found.contains(found[i]));
    }
    lemma_artifacts_of_rows(found);
    lemma_restores(contents, found);
    law_import_succeeds(pointer, world, course, outcome);
    law_import_asserts_rows(pointer, world, course, outcome->Ok_0);
}

} // verus!
