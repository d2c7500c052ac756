//! What is read out of the store.
use crate::artifact::{law_artifact_of_its_datum, ArtifactView, StateView};
use crate::error::ErrorView;
use crate::index::{state_at, Contents};
use crate::key::{
    before, lemma_key_of_parts_in, lemma_parts_in_key, lemma_pointwise_before, lemma_range_prefix,
    parts_in, parts_of, KeyKind, PartsView,
};
use crate::laws::contents::{holds, is_consistent, is_consistent_at};
use crate::protocol::{EntryView, Process, ReplyView};
use crate::reading::{ReadingPhaseView, ReadingView};
use crate::selector::{law_range_holds_what_matches, lemma_range_kind, RangeView, SelectorView};
use crate::world::{lemma_lists_unique, lists, World};
use vstd::prelude::*;

verus! {

/// The artifacts that a reading takes from entries, up to the first that cannot
/// be read.
pub open spec fn artifacts_in(reading: ReadingView, entries: Seq<EntryView>) -> Seq<ArtifactView>
    decreases entries.len(),
{
    if entries.len() == 0 {
        Seq::empty()
    } else {
        match reading.read(entries[0]) {
            Some(Ok(artifact)) => seq![artifact] + artifacts_in(reading, entries.drop_first()),
            Some(Err(_)) => Seq::empty(),
            None => artifacts_in(reading, entries.drop_first()),
        }
    }
}

/// How a reading of entries ends: with the error of the first that cannot be
/// read, if there is one.
pub open spec fn outcome_of(reading: ReadingView, entries: Seq<EntryView>) -> Result<(), ErrorView>
    decreases entries.len(),
{
    if entries.len() == 0 {
        Ok(())
    } else {
        match reading.read(entries[0]) {
            Some(Err(error)) => Err(error),
            _ => outcome_of(reading, entries.drop_first()),
        }
    }
}

/// A course of events amid others: before each reply, the world may have been
/// changed by others, but for the entries that this process goes through and the
/// artifacts that it has handed out or written.
pub type SharedCourse = Seq<(World, ReplyView, World)>;

/// Whether a reading takes a course amid others, from a world on.
pub open spec fn reads_amid(reading: ReadingView, world: World, course: SharedCourse) -> bool
    decreases course.len(),
{
    course.len() == 0 || {
        let (now, reply, after) = course[0];
        &&& now.scan == world.scan
        &&& now.output == world.output
        &&& now.written == world.written
        &&& reading.request() matches Some(request) && now.answers(request, reply, after)
        &&& reads_amid(reading.next(reply), after, course.drop_first())
    }
}

/// The reading at the end of a course.
pub open spec fn reading_after(reading: ReadingView, course: SharedCourse) -> ReadingView
    decreases course.len(),
{
    if course.len() == 0 {
        reading
    } else {
        reading_after(reading.next(course[0].1), course.drop_first())
    }
}

/// What was handed out by the end of a course.
pub open spec fn output_after(world: World, course: SharedCourse) -> Seq<ArtifactView>
    decreases course.len(),
{
    if course.len() == 0 {
        world.output
    } else {
        output_after(course[0].2, course.drop_first())
    }
}

/// What was written as rows by the end of a course.
pub open spec fn written_after(world: World, course: SharedCourse) -> Seq<ArtifactView>
    decreases course.len(),
{
    if course.len() == 0 {
        world.written
    } else {
        written_after(course[0].2, course.drop_first())
    }
}

/// What was given out: written as rows, or handed out.
pub open spec fn given(rows: bool, world: World) -> Seq<ArtifactView> {
    if rows {
        world.written
    } else {
        world.output
    }
}

/// What was given out by the end of a course: written as rows, or handed out.
pub open spec fn given_after(rows: bool, world: World, course: SharedCourse) -> Seq<ArtifactView> {
    if rows {
        written_after(world, course)
    } else {
        output_after(world, course)
    }
}

/// Whether no request fails in a course.
pub open spec fn is_smooth_amid(course: SharedCourse) -> bool {
    forall|i: int|
        0 <= i < course.len() ==> !((#[trigger] course[i]).1 is Failed) && !(course[i].1
            is RowFailed)
}

/// Where no request fails in a course, none fails first, nor in the rest.
proof fn lemma_smooth_rest_amid(course: SharedCourse)
    requires
        is_smooth_amid(course),
        course.len() > 0,
    ensures
        !(course[0].1 is Failed),
        !(course[0].1 is RowFailed),
        is_smooth_amid(course.drop_first()),
{
    let rest = course.drop_first();
    assert forall|i: int| 0 <= i < rest.len() implies !((#[trigger] rest[i]).1 is Failed) && !(
    rest[i].1 is RowFailed) by {
        assert(rest[i] == course[i + 1]);
    }
}

/// What a reading has handed out, and would yet hand out of the entries to come.
spec fn total(reading: ReadingView, world: World) -> Seq<ArtifactView> {
    let rest = artifacts_in(reading.at(ReadingPhaseView::Scan), world.scan);
    match reading.phase {
        ReadingPhaseView::Emit(artifact) => given(reading.rows, world) + seq![artifact] + rest,
        ReadingPhaseView::Finished(_) => given(reading.rows, world),
        _ => given(reading.rows, world) + rest,
    }
}

/// How a reading ends, or would end with the entries to come.
spec fn expected(reading: ReadingView, world: World) -> Result<(), ErrorView> {
    match reading.phase {
        ReadingPhaseView::Finished(outcome) => outcome,
        _ => outcome_of(reading.at(ReadingPhaseView::Scan), world.scan),
    }
}

/// A reply that is no failure does not change what is handed out in all.
proof fn lemma_step(reading: ReadingView, now: World, reply: ReplyView, after: World)
    requires
        reading.phase is Next || reading.phase is Emit,
        reading.request() matches Some(request) && now.answers(request, reply, after),
        !(reply is Failed),
        !(reply is RowFailed),
    ensures
        total(reading.next(reply), after) == total(reading, now),
        expected(reading.next(reply), after) == expected(reading, now),
        !(reading.next(reply).phase is Scan),
        reading.next(reply).at(ReadingPhaseView::Scan) == reading.at(ReadingPhaseView::Scan),
        reading.next(reply).rows == reading.rows,
{
    let base = reading.at(ReadingPhaseView::Scan);
    match reading.phase {
        ReadingPhaseView::Next => {
            if now.scan.len() > 0 {
                let entry = now.scan[0];
                assert(reading.read(entry) == base.read(entry));
                match reading.read(entry) {
                    Some(Ok(artifact)) => {
                        assert(total(reading.next(reply), after) =~= total(reading, now));
                    },
                    Some(Err(error)) => {
                        assert(total(reading.next(reply), after) =~= total(reading, now));
                    },
                    None => {},
                }
            } else {
                assert(total(reading.next(reply), after) =~= total(reading, now));
            }
        },
        ReadingPhaseView::Emit(artifact) => {
            assert(total(reading.next(reply), after) =~= total(reading, now));
        },
        _ => {},
    }
}

proof fn lemma_reading(reading: ReadingView, world: World, course: SharedCourse)
    requires
        !(reading.phase is Scan),
        reads_amid(reading, world, course),
        is_smooth_amid(course),
        reading_after(reading, course).phase is Finished,
    ensures
        given_after(reading.rows, world, course) == total(reading, world),
        reading_after(reading, course).phase == ReadingPhaseView::Finished(
            expected(reading, world),
        ),
    decreases course.len(),
{
    if course.len() > 0 {
        let (now, reply, after) = course[0];
        let rest = course.drop_first();
        lemma_smooth_rest_amid(course);
        lemma_step(reading, now, reply, after);
        lemma_reading(reading.next(reply), after, rest);
    }
}

/// A reading that writes rows hands out nothing, and one that hands out writes none.
proof fn lemma_other(reading: ReadingView, world: World, course: SharedCourse)
    requires
        reads_amid(reading, world, course),
    ensures
        given_after(!reading.rows, world, course) == given(!reading.rows, world),
    decreases course.len(),
{
    if course.len() > 0 {
        let (now, reply, after) = course[0];
        lemma_other(reading.next(reply), after, course.drop_first());
    }
}

/// A reading gives out what the index holds when it starts, as rows or not, and ends
/// as that says, whatever becomes of the index while it goes on. Nothing is given
/// out in the other way.
pub proof fn law_reading_is_pinned(reading: ReadingView, world: World, course: SharedCourse)
    requires
        reading.phase is Scan,
        reads_amid(reading, world, course),
        is_smooth_amid(course),
        reading_after(reading, course).phase is Finished,
    ensures
        exists|entries: Seq<EntryView>| #[trigger]
            lists(entries, course[0].0.index, reading.range) && given_after(
                reading.rows,
                world,
                course,
            ) == given(reading.rows, world) + artifacts_in(reading, entries) && reading_after(
                reading,
                course,
            ).phase == ReadingPhaseView::Finished(outcome_of(reading, entries)),
        given_after(!reading.rows, world, course) == given(!reading.rows, world),
{
    let (now, reply, after) = course[0];
    let rest = course.drop_first();
    lemma_smooth_rest_amid(course);
    let started = reading.next(reply);
    assert(started.at(ReadingPhaseView::Scan) == reading);
    lemma_reading(started, after, rest);
    lemma_other(reading, world, course);
    assert(lists(after.scan, now.index, reading.range));
}

/// What a reading has given out, at any point, is the front of what it would give out
/// in all.
proof fn lemma_front(reading: ReadingView, world: World, course: SharedCourse)
    requires
        !(reading.phase is Scan),
        reads_amid(reading, world, course),
    ensures
        given(reading.rows, world).is_prefix_of(given_after(reading.rows, world, course)),
        given_after(reading.rows, world, course).is_prefix_of(total(reading, world)),
    decreases course.len(),
{
    if course.len() > 0 {
        let (now, reply, after) = course[0];
        let next = reading.next(reply);
        assert(total(reading, now) == total(reading, world));
        if reply is Failed || reply is RowFailed {
            assert(total(next, after) == given(reading.rows, now));
        } else {
            lemma_step(reading, now, reply, after);
        }
        lemma_front(next, after, course.drop_first());
        assert(given(reading.rows, now).is_prefix_of(given(reading.rows, after)));
    }
}

/// A reading gives out the front of what the index holds when it starts, whatever
/// becomes of it: one that has not come to its end, or that fails, has given out
/// nothing else, and one that cannot start has given out nothing. Nothing is given out
/// in the other way.
pub proof fn law_reading_hands_out_front(reading: ReadingView, world: World, course: SharedCourse)
    requires
        reading.phase is Scan,
        reads_amid(reading, world, course),
    ensures
        if course.len() == 0 || course[0].1 is Failed {
            given_after(reading.rows, world, course) == given(reading.rows, world)
        } else {
            exists|entries: Seq<EntryView>| #[trigger]
                lists(entries, course[0].0.index, reading.range) && given(reading.rows, world).is_prefix_of(
                    given_after(reading.rows, world, course),
                ) && given_after(reading.rows, world, course).is_prefix_of(
                    given(reading.rows, world) + artifacts_in(reading, entries),
                )
        },
        given_after(!reading.rows, world, course) == given(!reading.rows, world),
{
    lemma_other(reading, world, course);
    if course.len() > 0 {
        let (now, reply, after) = course[0];
        let started = reading.next(reply);
        assert(started.at(ReadingPhaseView::Scan) == reading);
        lemma_front(started, after, course.drop_first());
        if !(reply is Failed) {
            assert(lists(after.scan, now.index, reading.range));
        }
    }
}

/// A request that fails is the last of a reading, which ends with the failure.
pub proof fn law_failure_ends_reading(
    reading: ReadingView,
    world: World,
    course: SharedCourse,
    i: int,
)
    requires
        reads_amid(reading, world, course),
        0 <= i < course.len(),
        course[i].1 is Failed || course[i].1 is RowFailed,
    ensures
        i == course.len() - 1,
        reading_after(reading, course).phase == ReadingPhaseView::Finished(
            Err(
                match course[i].1 {
                    ReplyView::RowFailed(message) => ErrorView::Export(message),
                    reply => reply->Failed_0,
                },
            ),
        ),
    decreases course.len(),
{
    let (now, reply, after) = course[0];
    let rest = course.drop_first();
    if i == 0 {
        assert(reads_amid(reading.next(reply), after, rest));
        assert(reading_after(reading, course) == reading_after(reading.next(reply), rest));
    } else {
        assert(rest[i - 1] == course[i]);
        law_failure_ends_reading(reading.next(reply), after, rest, i - 1);
    }
}

/// No request of a reading changes the storage or the index.
pub proof fn law_reading_keeps_store(
    reading: ReadingView,
    world: World,
    course: SharedCourse,
    i: int,
)
    requires
        reads_amid(reading, world, course),
        0 <= i < course.len(),
    ensures
        course[i].2 == (World {
            scan: course[i].2.scan,
            output: course[i].2.output,
            written: course[i].2.written,
            ..course[i].0
        }),
    decreases course.len(),
{
    if i > 0 {
        assert(course.drop_first()[i - 1] == course[i]);
        law_reading_keeps_store(
            reading.next(course[0].1),
            course[0].2,
            course.drop_first(),
            i - 1,
        );
    }
}

/// Whether a reading comes to its end with no request that fails, finds the given
/// contents in the index when it starts, and hands out the given artifacts.
pub open spec fn reads(
    reading: ReadingView,
    world: World,
    course: SharedCourse,
    contents: Contents,
    artifacts: Seq<ArtifactView>,
) -> bool {
    &&& reads_amid(reading, world, course)
    &&& is_smooth_amid(course)
    &&& reading_after(reading, course).phase is Finished
    &&& course[0].0.index == contents
    &&& given_after(reading.rows, world, course) == given(reading.rows, world) + artifacts
}

/// What a reading hands out is told by the entries of the index.
proof fn lemma_read(
    reading: ReadingView,
    world: World,
    course: SharedCourse,
    contents: Contents,
    artifacts: Seq<ArtifactView>,
)
    requires
        reading.phase is Scan,
        reads(reading, world, course, contents, artifacts),
    ensures
        exists|entries: Seq<EntryView>| lists(entries, contents, reading.range),
        forall|entries: Seq<EntryView>| #[trigger]
            lists(entries, contents, reading.range) ==> artifacts == artifacts_in(reading, entries)
                && reading_after(reading, course) == reading.at(
                ReadingPhaseView::Finished(outcome_of(reading, entries)),
            ),
{
    law_reading_is_pinned(reading, world, course);
    let read = choose|entries: Seq<EntryView>| #[trigger]
        lists(entries, contents, reading.range) && given_after(reading.rows, world, course)
            == given(reading.rows, world) + artifacts_in(reading, entries) && reading_after(reading, course).phase
            == ReadingPhaseView::Finished(outcome_of(reading, entries));
    lemma_reading_stays(reading, course);
    assert(artifacts =~= artifacts_in(reading, read)) by {
        let out = given_after(reading.rows, world, course);
        let n = given(reading.rows, world).len() as int;
        assert(artifacts =~= out.skip(n));
        assert(artifacts_in(reading, read) =~= out.skip(n));
    }
    assert forall|entries: Seq<EntryView>| #[trigger]
        lists(entries, contents, reading.range) implies entries == read by {
        lemma_lists_unique(entries, read, contents, reading.range);
    }
}

/// A reading changes in nothing but its phase.
proof fn lemma_reading_stays(reading: ReadingView, course: SharedCourse)
    ensures
        reading_after(reading, course) == reading.at(reading_after(reading, course).phase),
    decreases course.len(),
{
    if course.len() > 0 {
        lemma_reading_stays(reading.next(course[0].1), course.drop_first());
    }
}

/// Where the index holds the same, the same reading hands out the same, and ends in
/// the same way.
pub proof fn law_same_contents_read_alike(
    reading: ReadingView,
    worlds: (World, World),
    courses: (SharedCourse, SharedCourse),
    contents: Contents,
    artifacts: (Seq<ArtifactView>, Seq<ArtifactView>),
)
    requires
        reading.phase is Scan,
        reads(reading, worlds.0, courses.0, contents, artifacts.0),
        reads(reading, worlds.1, courses.1, contents, artifacts.1),
    ensures
        artifacts.0 == artifacts.1,
        reading_after(reading, courses.0) == reading_after(reading, courses.1),
{
    lemma_read(reading, worlds.0, courses.0, contents, artifacts.0);
    lemma_read(reading, worlds.1, courses.1, contents, artifacts.1);
    let entries = choose|entries: Seq<EntryView>| lists(entries, contents, reading.range);
    assert(reading_after(reading, courses.0) == reading_after(reading, courses.1));
}

/// Whether artifacts come in the order of their keys of a kind.
pub open spec fn are_ascending(artifacts: Seq<ArtifactView>, kind: KeyKind) -> bool {
    forall|i: int, j: int|
        0 <= i < j < artifacts.len() ==> before(
            parts_of(#[trigger] artifacts[i]).key(kind),
            parts_of(#[trigger] artifacts[j]).key(kind),
        )
}

/// What is read of entries each of which holds an artifact under its own key.
proof fn lemma_artifacts_in(reading: ReadingView, entries: Seq<EntryView>)
    requires
        forall|i: int|
            0 <= i < entries.len() ==> (reading.read(#[trigger] entries[i]) matches Some(read)
                ==> read matches Ok(artifact) && parts_of(artifact).key(reading.kind)
                == entries[i].key),
        forall|i: int, j: int|
            0 <= i < j < entries.len() ==> before(
                #[trigger] entries[i].key,
                #[trigger] entries[j].key,
            ),
    ensures
        outcome_of(reading, entries) == Ok::<(), ErrorView>(()),
        are_ascending(artifacts_in(reading, entries), reading.kind),
        forall|artifact: ArtifactView| #[trigger]
            artifacts_in(reading, entries).contains(artifact) <==> exists|i: int|
                0 <= i < entries.len() && reading.read(#[trigger] entries[i]) == Some(
                    Ok::<ArtifactView, ErrorView>(artifact),
                ),
    decreases entries.len(),
{
    let all = artifacts_in(reading, entries);
    if entries.len() > 0 {
        let rest = entries.drop_first();
        let others = artifacts_in(reading, rest);
        assert forall|i: int| 0 <= i < rest.len() implies (reading.read(#[trigger] rest[i]) matches
            Some(read) ==> read matches Ok(artifact) && parts_of(artifact).key(reading.kind)
            == rest[i].key) by {
            assert(rest[i] == entries[i + 1]);
        }
        assert forall|i: int, j: int| 0 <= i < j < rest.len() implies before(
            #[trigger] rest[i].key,
            #[trigger] rest[j].key,
        ) by {
            assert(before(entries[i + 1].key, entries[j + 1].key));
        }
        lemma_artifacts_in(reading, rest);
        assert(reading.read(entries[0]) matches Some(read) ==> read is Ok);
        assert forall|artifact: ArtifactView| #[trigger] all.contains(artifact) <==> exists|i: int|
            0 <= i < entries.len() && reading.read(#[trigger] entries[i]) == Some(
                Ok::<ArtifactView, ErrorView>(artifact),
            ) by {
            if all.contains(artifact) {
                let n = choose|n: int| 0 <= n < all.len() && all[n] == artifact;
                if reading.read(entries[0]) is Some && n == 0 {
                    assert(reading.read(entries[0]) == Some(
                        Ok::<ArtifactView, ErrorView>(artifact),
                    ));
                } else {
                    if reading.read(entries[0]) is Some {
                        assert(others[n - 1] == artifact);
                    } else {
                        assert(others[n] == artifact);
                    }
                    assert(others.contains(artifact));
                    let i = choose|i: int|
                        0 <= i < rest.len() && reading.read(#[trigger] rest[i]) == Some(
                            Ok::<ArtifactView, ErrorView>(artifact),
                        );
                    assert(entries[i + 1] == rest[i]);
                }
            }
            if exists|i: int|
                0 <= i < entries.len() && reading.read(#[trigger] entries[i]) == Some(
                    Ok::<ArtifactView, ErrorView>(artifact),
                ) {
                let i = choose|i: int|
                    0 <= i < entries.len() && reading.read(#[trigger] entries[i]) == Some(
                        Ok::<ArtifactView, ErrorView>(artifact),
                    );
                if i == 0 {
                    assert(all[0] == artifact);
                } else {
                    assert(rest[i - 1] == entries[i]);
                    assert(others.contains(artifact));
                    let n = choose|n: int| 0 <= n < others.len() && others[n] == artifact;
                    if reading.read(entries[0]) is Some {
                        assert(all[n + 1] == artifact);
                    } else {
                        assert(all[n] == artifact);
                    }
                }
            }
        }
        assert forall|i: int, j: int| 0 <= i < j < all.len() implies before(
            parts_of(#[trigger] all[i]).key(reading.kind),
            parts_of(#[trigger] all[j]).key(reading.kind),
        ) by {
            if reading.read(entries[0]) is Some {
                assert(all[j] == others[j - 1]);
                if i == 0 {
                    assert(others.contains(all[j]));
                    let k = choose|k: int|
                        0 <= k < rest.len() && reading.read(#[trigger] rest[k]) == Some(
                            Ok::<ArtifactView, ErrorView>(all[j]),
                        );
                    assert(rest[k] == entries[k + 1]);
                    assert(before(entries[0].key, entries[k + 1].key));
                    assert(parts_of(all[0]).key(reading.kind) == entries[0].key);
                } else {
                    assert(all[i] == others[i - 1]);
                }
            }
        }
    }
}

/// What is read of consistent contents: the stored artifacts whose keys are asked
/// for and in the range, in the order of their keys, each once.
proof fn lemma_reads(reading: ReadingView, contents: Contents, entries: Seq<EntryView>)
    requires
        is_consistent(contents),
        lists(entries, contents, reading.range),
        forall|key: Seq<u8>| #[trigger]
            reading.range.has_key(key) ==> key[0] == reading.kind.mark(),
    ensures
        outcome_of(reading, entries) == Ok::<(), ErrorView>(()),
        are_ascending(artifacts_in(reading, entries), reading.kind),
        forall|artifact: ArtifactView| #[trigger]
            artifacts_in(reading, entries).contains(artifact) <==> {
                let key = parts_of(artifact).key(reading.kind);
                &&& artifact.valid()
                &&& holds(contents, artifact)
                &&& reading.wants(key)
                &&& reading.range.has_key(key)
            },
{
    let kind = reading.kind;
    assert forall|i: int| 0 <= i < entries.len() implies (reading.read(
        #[trigger] entries[i],
    ) matches Some(read) ==> read matches Ok(artifact) && {
        &&& parts_of(artifact).key(kind) == entries[i].key
        &&& artifact.valid()
        &&& holds(contents, artifact)
    }) by {
        let key = entries[i].key;
        assert(reading.range.has_key(key));
        lemma_key_of_parts_in(kind, key);
        let parts = parts_in(kind, key);
        assert(is_consistent_at(contents, parts));
        assert(state_at(contents, key) == state_at(contents, parts.key(KeyKind::Entity)));
    }
    lemma_artifacts_in(reading, entries);
    assert forall|artifact: ArtifactView| #[trigger]
        artifacts_in(reading, entries).contains(artifact) <==> {
            let key = parts_of(artifact).key(kind);
            &&& artifact.valid()
            &&& holds(contents, artifact)
            &&& reading.wants(key)
            &&& reading.range.has_key(key)
        } by {
        let key = parts_of(artifact).key(kind);
        let parts = parts_of(artifact);
        if artifacts_in(reading, entries).contains(artifact) {
            let i = choose|i: int|
                0 <= i < entries.len() && reading.read(#[trigger] entries[i]) == Some(
                    Ok::<ArtifactView, ErrorView>(artifact),
                );
        }
        if artifact.valid() && holds(contents, artifact) && reading.wants(key)
            && reading.range.has_key(key) {
            assert(is_consistent_at(contents, parts));
            assert(state_at(contents, key) == Some(StateView::Added(artifact.datum())));
            assert(contents.dom().contains(key));
            let i = choose|i: int| 0 <= i < entries.len() && entries[i].key == key;
            assert(entries[i].value == StateView::Added(artifact.datum()));
            law_artifact_of_its_datum(artifact);
            assert(reading.read(entries[i]) == Some(Ok::<ArtifactView, ErrorView>(artifact)));
        }
    }
}

/// Selecting hands out the stored artifacts that match, each once, in the order of
/// their keys, and succeeds. A selector that gives all three of attribute, entity
/// and value asks for an empty range of keys, and gets nothing.
pub proof fn law_select_finds(selector: SelectorView, world: World, course: SharedCourse)
    requires
        selector.valid(),
        reads_amid(ReadingView::of_selector(selector), world, course),
        is_smooth_amid(course),
        reading_after(ReadingView::of_selector(selector), course).phase is Finished,
        is_consistent(course[0].0.index),
    ensures
        reading_after(ReadingView::of_selector(selector), course).phase
            == ReadingPhaseView::Finished(Ok(())),
        exists|found: Seq<ArtifactView>|
            output_after(world, course) == world.output + found && are_ascending(
                found,
                selector.kind(),
            ) && forall|artifact: ArtifactView| #[trigger]
                found.contains(artifact) <==> !selector.is_full() && artifact.valid() && holds(
                    course[0].0.index,
                    artifact,
                ) && selector.matches_parts(parts_of(artifact)),
        written_after(world, course) == world.written,
{
    let reading = ReadingView::of_selector(selector);
    let contents = course[0].0.index;
    law_reading_is_pinned(reading, world, course);
    let entries = choose|entries: Seq<EntryView>| #[trigger]
        lists(entries, contents, reading.range) && given_after(reading.rows, world, course)
            == given(reading.rows, world) + artifacts_in(reading, entries) && reading_after(reading, course).phase
            == ReadingPhaseView::Finished(outcome_of(reading, entries));
    assert forall|key: Seq<u8>| #[trigger] reading.range.has_key(key) implies key[0]
        == reading.kind.mark() by {
        lemma_range_kind(selector, key);
    }
    lemma_reads(reading, contents, entries);
    let found = artifacts_in(reading, entries);
    assert forall|artifact: ArtifactView| #[trigger]
        found.contains(artifact) <==> !selector.is_full() && artifact.valid() && holds(
            contents,
            artifact,
        ) && selector.matches_parts(parts_of(artifact)) by {
        let key = parts_of(artifact).key(reading.kind);
        lemma_parts_in_key(parts_of(artifact), reading.kind);
        assert(reading.wants(key) <==> selector.matches_parts(parts_of(artifact)));
        if selector.matches_parts(parts_of(artifact)) {
            law_range_holds_what_matches(selector, artifact);
        }
    }
}

/// The range of all entity keys holds the key of every artifact.
proof fn lemma_all_holds(artifact: ArtifactView)
    ensures
        RangeView::all(KeyKind::Entity).has_key(parts_of(artifact).key(KeyKind::Entity)),
{
    let parts = parts_of(artifact);
    let least = PartsView::uniform(0);
    let greatest = PartsView::uniform(255);
    lemma_parts_in_key(parts, KeyKind::Entity);
    lemma_parts_in_key(least, KeyKind::Entity);
    lemma_parts_in_key(greatest, KeyKind::Entity);
    let key = parts.key(KeyKind::Entity);
    assert forall|i: int| 0 <= i < key.len() implies least.key(KeyKind::Entity)[i] <= key[i] by {}
    assert forall|i: int| 0 <= i < key.len() implies key[i] <= greatest.key(KeyKind::Entity)[i] by {
        if i > 0 {
            assert(greatest.key(KeyKind::Entity)[i] == 255);
        }
    }
    lemma_pointwise_before(least.key(KeyKind::Entity), key);
    lemma_pointwise_before(key, greatest.key(KeyKind::Entity));
    assert(parts.value_type != greatest.value_type);
}

/// Reading all artifacts hands out each stored artifact once, in the order of the
/// entity keys, or writes each as a row and hands out none, and succeeds.
pub proof fn law_all_is_read(rows: bool, world: World, course: SharedCourse)
    requires
        reads_amid(ReadingView::of_all(rows), world, course),
        is_smooth_amid(course),
        reading_after(ReadingView::of_all(rows), course).phase is Finished,
        is_consistent(course[0].0.index),
    ensures
        reading_after(ReadingView::of_all(rows), course).phase == ReadingPhaseView::Finished(
            Ok(()),
        ),
        if rows {
            output_after(world, course) == world.output
        } else {
            written_after(world, course) == world.written
        },
        exists|found: Seq<ArtifactView>|
            if rows {
                written_after(world, course) == world.written + found
            } else {
                output_after(world, course) == world.output + found
            } && are_ascending(
                found,
                KeyKind::Entity,
            ) && forall|artifact: ArtifactView| #[trigger]
                found.contains(artifact) <==> artifact.valid() && holds(
                    course[0].0.index,
                    artifact,
                ),
{
    let reading = ReadingView::of_all(rows);
    let contents = course[0].0.index;
    law_reading_is_pinned(reading, world, course);
    let entries = choose|entries: Seq<EntryView>| #[trigger]
        lists(entries, contents, reading.range) && given_after(reading.rows, world, course)
            == given(reading.rows, world) + artifacts_in(reading, entries) && reading_after(reading, course).phase
            == ReadingPhaseView::Finished(outcome_of(reading, entries));
    assert forall|key: Seq<u8>| #[trigger] reading.range.has_key(key) implies key[0]
        == reading.kind.mark() by {
        lemma_parts_in_key(PartsView::uniform(0), KeyKind::Entity);
        lemma_parts_in_key(PartsView::uniform(255), KeyKind::Entity);
        lemma_range_prefix(reading.range.start, reading.range.end, key, 1);
    }
    lemma_reads(reading, contents, entries);
    let found = artifacts_in(reading, entries);
    assert forall|artifact: ArtifactView| #[trigger]
        found.contains(artifact) <==> artifact.valid() && holds(contents, artifact) by {
        lemma_all_holds(artifact);
    }
}

} // verus!
