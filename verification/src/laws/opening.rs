//! What opening a store and setting it back do.
use crate::artifact::StateView;
use crate::commit::{CommitPhaseView, CommitView};
use crate::error::ErrorView;
use crate::index::Contents;
use crate::laws::committing::{extends, law_commit_follows_instructions};
use crate::laws::keeping::law_answer_keeps_coherent;
use crate::open::{pointer_of, OpenPhaseView, OpenView};
use crate::protocol::Process;
use crate::reference::{HASH_SIZE, NULL_REVISION_HASH};
use crate::reset::{no_such_revision, revision_in_block, ResetPhaseView, ResetView};
use crate::revision::RevisionQueryView;
use crate::world::{
    held, is_smooth, lemma_smooth_rest, process_after, takes, world_after, Course, World,
};
use vstd::prelude::*;

verus! {

/// What the index of a store that is opened holds, as the storage says, or why it
/// cannot be opened. A store of which no revision is stored is empty, as is one
/// whose revision is the null revision or is not in the storage.
pub open spec fn opened_contents(world: World, pointer: Seq<u8>) -> Result<Contents, ErrorView> {
    match held(world.blocks, pointer) {
        None => Ok(Map::empty()),
        Some(block) => if block == NULL_REVISION_HASH@ {
            Ok(Map::empty())
        } else {
            match revision_in_block(block) {
                Ok(revision) => match held(world.revisions, revision) {
                    Some(root) => Ok(world.trees[root]),
                    None => Ok(Map::empty()),
                },
                Err(error) => Err(error),
            }
        },
    }
}

/// The revision that a store is opened at, as the storage says, or why it cannot be
/// opened.
pub open spec fn opened_revision(world: World, pointer: Seq<u8>) -> Result<Seq<u8>, ErrorView> {
    match held(world.blocks, pointer) {
        None => Ok(NULL_REVISION_HASH@),
        Some(block) => match revision_in_block(block) {
            Ok(revision) => if held(world.revisions, revision) is Some {
                Ok(revision)
            } else {
                Ok(NULL_REVISION_HASH@)
            },
            Err(error) => Err(error),
        },
    }
}

/// Whether a root is that of a revision; none is that of the null revision.
spec fn is_root_of(world: World, root: Option<Seq<u8>>, revision: Seq<u8>) -> bool {
    match root {
        Some(root) => held(world.revisions, revision) == Some(root),
        None => revision == NULL_REVISION_HASH@,
    }
}

/// With the index of a stored revision, the store is at that revision.
proof fn lemma_at_root(world: World, root: Option<Seq<u8>>, revision: Seq<u8>, after: World)
    requires
        world.is_coherent(),
        is_root_of(world, root, revision),
        world.sets_root(root, after),
    ensures
        after.revision() == revision,
        after.is_settled(),
{
    if root is None {
        assert((after.root)(after.index) is None);
    }
}

/// Whether an opening leads to a revision.
spec fn leads_to(open: OpenView, world: World, revision: Seq<u8>) -> bool {
    match open.phase {
        OpenPhaseView::Pointer => opened_revision(world, pointer_of(open.identifier)) == Ok::<
            Seq<u8>,
            ErrorView,
        >(revision),
        OpenPhaseView::Target(target) => revision == if held(world.revisions, target) is Some {
            target
        } else {
            NULL_REVISION_HASH@
        },
        OpenPhaseView::Index(root) => is_root_of(world, root, revision),
        OpenPhaseView::Finished(Ok(())) => world.revision() == revision && world.is_settled(),
        OpenPhaseView::Finished(Err(_)) => true,
    }
}

proof fn lemma_leads_to(open: OpenView, world: World, course: Course, revision: Seq<u8>)
    requires
        world.is_coherent(),
        takes(open, world, course),
        leads_to(open, world, revision),
    ensures
        leads_to(process_after(open, course), world_after(world, course), revision),
    decreases course.len(),
{
    if course.len() > 0 {
        let (reply, after) = course[0];
        law_answer_keeps_coherent(world, open.request()->0, reply, after);
        if let OpenPhaseView::Index(root) = open.phase {
            if reply is Done {
                lemma_at_root(world, root, revision, after);
            }
        }
        lemma_leads_to(open.next(reply), after, course.drop_first(), revision);
        assert(world_after(after, course.drop_first()) == world_after(world, course));
    }
}

/// Opening a store changes nothing in the storage, whether or not it succeeds.
pub proof fn law_open_keeps_storage(identifier: Seq<char>, world: World, course: Course)
    requires
        takes(OpenView::start(identifier), world, course),
    ensures
        world_after(world, course) == (World { index: world_after(world, course).index, ..world }),
{
    lemma_open_keeps_storage(OpenView::start(identifier), world, course);
}

/// The store that is opened has the identifier that it was to be opened with, whatever
/// replies came.
pub proof fn law_open_keeps_identifier(identifier: Seq<char>, course: Course)
    ensures
        process_after(OpenView::start(identifier), course).identifier == identifier,
{
    lemma_open_keeps_identifier(OpenView::start(identifier), course);
}

proof fn lemma_open_keeps_identifier(open: OpenView, course: Course)
    ensures
        process_after(open, course).identifier == open.identifier,
    decreases course.len(),
{
    if course.len() > 0 {
        lemma_open_keeps_identifier(open.next(course[0].0), course.drop_first());
    }
}

proof fn lemma_open_keeps_storage(open: OpenView, world: World, course: Course)
    requires
        takes(open, world, course),
    ensures
        world_after(world, course) == (World { index: world_after(world, course).index, ..world }),
    decreases course.len(),
{
    if course.len() > 0 {
        let (reply, after) = course[0];
        lemma_open_keeps_storage(open.next(reply), after, course.drop_first());
        assert(world_after(after, course.drop_first()) == world_after(world, course));
    }
}

/// How a store is opened, or would be, from where the opening has come to.
spec fn opening(open: OpenView, world: World) -> Result<Contents, ErrorView> {
    match open.phase {
        OpenPhaseView::Pointer => opened_contents(world, pointer_of(open.identifier)),
        OpenPhaseView::Target(revision) => match held(world.revisions, revision) {
            Some(root) => Ok(world.trees[root]),
            None => Ok(Map::empty()),
        },
        OpenPhaseView::Index(Some(root)) => Ok(world.trees[root]),
        OpenPhaseView::Index(None) => Ok(Map::empty()),
        OpenPhaseView::Finished(Ok(())) => Ok(world.index),
        OpenPhaseView::Finished(Err(error)) => Err(error),
    }
}

proof fn lemma_opening(open: OpenView, world: World, course: Course)
    requires
        takes(open, world, course),
        is_smooth(course),
    ensures
        opening(process_after(open, course), world_after(world, course)) == opening(open, world),
    decreases course.len(),
{
    if course.len() > 0 {
        let (reply, after) = course[0];
        lemma_smooth_rest(course);
        lemma_opening(open.next(reply), after, course.drop_first());
        assert(world_after(after, course.drop_first()) == world_after(world, course));
    }
}

/// Opening a store, if no request fails, ends as the storage says: with the index
/// that is stored, or with an error.
pub proof fn law_open_loads(
    identifier: Seq<char>,
    world: World,
    course: Course,
    outcome: Result<(), ErrorView>,
)
    requires
        takes(OpenView::start(identifier), world, course),
        is_smooth(course),
        process_after(OpenView::start(identifier), course).phase == OpenPhaseView::Finished(
            outcome,
        ),
    ensures
        match opened_contents(world, pointer_of(identifier)) {
            Ok(contents) => outcome is Ok && world_after(world, course).index == contents,
            Err(error) => outcome == Err::<(), ErrorView>(error),
        },
{
    lemma_opening(OpenView::start(identifier), world, course);
}

/// A store that was opened is at the revision that the storage says, the null
/// revision if it names none that is stored, and its index is that of the revision.
pub proof fn law_opened_store_is_at_revision(identifier: Seq<char>, world: World, course: Course)
    requires
        world.is_coherent(),
        takes(OpenView::start(identifier), world, course),
        process_after(OpenView::start(identifier), course).phase matches OpenPhaseView::Finished(
            Ok(()),
        ),
    ensures
        opened_revision(world, pointer_of(identifier)) == Ok::<Seq<u8>, ErrorView>(
            world_after(world, course).revision(),
        ),
        world_after(world, course).is_settled(),
{
    let open = OpenView::start(identifier);
    if let Ok(revision) = opened_revision(world, pointer_of(identifier)) {
        lemma_leads_to(open, world, course, revision);
    } else {
        lemma_refused(open, world, course);
    }
}

/// A store whose block names no revision is not opened.
proof fn lemma_refused(open: OpenView, world: World, course: Course)
    requires
        opened_revision(world, pointer_of(open.identifier)) is Err,
        open.phase is Pointer || open.phase matches OpenPhaseView::Finished(Err(_)),
        takes(open, world, course),
    ensures
        process_after(open, course).phase is Pointer || process_after(open, course).phase matches
            OpenPhaseView::Finished(Err(_)),
    decreases course.len(),
{
    if course.len() > 0 {
        let (reply, after) = course[0];
        lemma_refused(open.next(reply), after, course.drop_first());
    }
}

/// A store that is opened again after a commit holds what it held then, and is at
/// the revision that the commit returned.
pub proof fn law_reopened_store_is_the_same(
    identifier: Seq<char>,
    world: World,
    commit: Course,
    revision: Seq<u8>,
    later: World,
    open: Course,
    outcome: Result<(), ErrorView>,
)
    requires
        takes(CommitView::start(pointer_of(identifier)), world, commit),
        process_after(CommitView::start(pointer_of(identifier)), commit).phase
            == CommitPhaseView::Finished(Ok(revision)),
        held(later.blocks, pointer_of(identifier)) == Some(revision),
        follows(world_after(world, commit), later),
        takes(OpenView::start(identifier), later, open),
        is_smooth(open),
        process_after(OpenView::start(identifier), open).phase == OpenPhaseView::Finished(
            outcome,
        ),
    ensures
        outcome is Ok,
        world_after(later, open).index == world_after(world, commit).index,
        world_after(later, open).revision() == revision,
        world_after(later, open).is_settled(),
{
    law_commit_follows_instructions(pointer_of(identifier), world, commit, revision);
    lemma_reopened(identifier, world_after(world, commit), later, open, outcome);
}

/// A store that is opened where the block names the revision of another one holds
/// what the other one holds.
proof fn lemma_reopened(
    identifier: Seq<char>,
    world: World,
    later: World,
    open: Course,
    outcome: Result<(), ErrorView>,
)
    requires
        world.is_settled(),
        held(later.blocks, pointer_of(identifier)) == Some(world.revision()),
        follows(world, later),
        takes(OpenView::start(identifier), later, open),
        is_smooth(open),
        process_after(OpenView::start(identifier), open).phase == OpenPhaseView::Finished(
            outcome,
        ),
    ensures
        outcome is Ok,
        world_after(later, open).index == world.index,
        world_after(later, open).revision() == world.revision(),
        world_after(later, open).is_settled(),
{
    lemma_stays_stored(world, later);
    law_open_loads(identifier, later, open, outcome);
    assert(opened_contents(later, pointer_of(identifier)) == contents_at(later, world.revision()));
    law_opened_store_is_at_revision(identifier, later, open);
}

/// Whether a world can be a later one on the same storage: what was stored is still
/// stored, and everything is stored under its own name.
pub open spec fn follows(world: World, later: World) -> bool {
    &&& extends(world.revisions, later.revisions)
    &&& extends(world.trees, later.trees)
    &&& later.root == world.root
    &&& later.refer == world.refer
    &&& later.is_coherent()
}

/// The revision that a store is at, if its index is that of a stored revision, can
/// be gone back to later on.
pub(super) proof fn lemma_stays_stored(world: World, later: World)
    requires
        world.is_settled(),
        follows(world, later),
    ensures
        contents_at(later, world.revision()) == Ok::<Contents, ErrorView>(world.index),
        world.revision().len() == HASH_SIZE,
        world.revision() == NULL_REVISION_HASH@ || held(later.revisions, world.revision()) is Some,
{
    if let Some(root) = world.index_root() {
        assert(later.revisions.dom().contains(world.revision()));
        assert(later.trees.dom().contains(root));
        assert(((later.refer)(root)).len() == HASH_SIZE);
    }
}

/// What the index holds at a revision, or why it cannot be set back to it.
pub open spec fn contents_at(world: World, revision: Seq<u8>) -> Result<Contents, ErrorView> {
    if revision == NULL_REVISION_HASH@ {
        Ok(Map::empty())
    } else {
        match held(world.revisions, revision) {
            Some(root) => Ok(world.trees[root]),
            None => Err(no_such_revision(revision)),
        }
    }
}

/// The revision that a store is set back to: the given one, else the stored one,
/// else the null revision.
pub open spec fn target_of(
    world: World,
    pointer: Seq<u8>,
    revision: Option<Seq<u8>>,
) -> Result<Seq<u8>, ErrorView> {
    match revision {
        Some(revision) => Ok(revision),
        None => match held(world.blocks, pointer) {
            Some(block) => revision_in_block(block),
            None => Ok(NULL_REVISION_HASH@),
        },
    }
}

/// What the index of a store that is set back holds, and what its blocks are; or
/// why it cannot be set back.
pub open spec fn reset_state(
    world: World,
    pointer: Seq<u8>,
    revision: Option<Seq<u8>>,
) -> Result<(Contents, Map<Seq<u8>, Seq<u8>>), ErrorView> {
    match target_of(world, pointer, revision) {
        Ok(target) => match contents_at(world, target) {
            Ok(contents) => Ok(
                (
                    contents,
                    match revision {
                        Some(revision) => world.blocks.insert(pointer, revision),
                        None => world.blocks,
                    },
                ),
            ),
            Err(error) => Err(error),
        },
        Err(error) => Err(error),
    }
}

/// What the index held at a root; nothing where there is none.
spec fn contents_with_root(world: World, root: Option<Seq<u8>>) -> Contents {
    match root {
        Some(root) => world.trees[root],
        None => Map::empty(),
    }
}

/// How a store is set back, or would be, from where the reset has come to.
spec fn resetting(reset: ResetView, world: World) -> Result<
    (Contents, Map<Seq<u8>, Seq<u8>>),
    ErrorView,
> {
    match reset.phase {
        ResetPhaseView::Pointer => if reset.given {
            arbitrary()
        } else {
            reset_state(world, reset.pointer, None)
        },
        ResetPhaseView::Target(target) => match contents_at(world, target) {
            Ok(contents) => Ok(
                (
                    contents,
                    if reset.given {
                        world.blocks.insert(reset.pointer, target)
                    } else {
                        world.blocks
                    },
                ),
            ),
            Err(error) => Err(error),
        },
        ResetPhaseView::Point(target, root) => Ok(
            (contents_with_root(world, root), world.blocks.insert(reset.pointer, target)),
        ),
        ResetPhaseView::Root(root) => Ok((contents_with_root(world, root), world.blocks)),
        ResetPhaseView::Finished(Ok(())) => Ok((world.index, world.blocks)),
        ResetPhaseView::Finished(Err(error)) => Err(error),
    }
}

/// Whether a reset is where it can be.
spec fn is_sound(reset: ResetView) -> bool {
    match reset.phase {
        ResetPhaseView::Pointer => !reset.given,
        ResetPhaseView::Target(target) => target != NULL_REVISION_HASH@,
        _ => true,
    }
}

/// Whether a reset can still end with an error when no request fails.
spec fn is_undecided(reset: ResetView) -> bool {
    reset.phase is Pointer || reset.phase is Target || reset.phase matches ResetPhaseView::Finished(
        Err(_),
    )
}

proof fn lemma_resetting(reset: ResetView, world: World, course: Course)
    requires
        takes(reset, world, course),
        is_smooth(course),
        is_sound(reset),
    ensures
        resetting(process_after(reset, course), world_after(world, course)) == resetting(
            reset,
            world,
        ),
        world_after(world, course) == (World {
            index: world_after(world, course).index,
            blocks: world_after(world, course).blocks,
            ..world
        }),
        is_undecided(process_after(reset, course)) ==> world_after(world, course) == world
            && is_undecided(reset),
    decreases course.len(),
{
    if course.len() > 0 {
        let (reply, after) = course[0];
        let next = reset.next(reply);
        lemma_smooth_rest(course);
        assert(is_sound(next));
        assert(resetting(next, after) == resetting(reset, world));
        lemma_resetting(next, after, course.drop_first());
        assert(world_after(after, course.drop_first()) == world_after(world, course));
    }
}

/// Setting a store back, if no request fails, ends as the storage says: with the
/// index of the revision, and the block that names it written only if the revision
/// was given; or with an error, and nothing changed at all.
pub proof fn law_reset_sets_back(
    pointer: Seq<u8>,
    revision: Option<Seq<u8>>,
    world: World,
    course: Course,
    outcome: Result<(), ErrorView>,
)
    requires
        takes(ResetView::start(pointer, revision), world, course),
        is_smooth(course),
        process_after(ResetView::start(pointer, revision), course).phase
            == ResetPhaseView::Finished(outcome),
    ensures
        match reset_state(world, pointer, revision) {
            Ok((contents, blocks)) => outcome is Ok && world_after(world, course) == (World {
                index: contents,
                blocks,
                ..world
            }),
            Err(error) => outcome == Err::<(), ErrorView>(error) && world_after(world, course)
                == world,
        },
{
    let reset = ResetView::start(pointer, revision);
    lemma_resetting(reset, world, course);
}

/// Whether a reset leads to a revision.
spec fn resets_to(reset: ResetView, world: World, target: Result<Seq<u8>, ErrorView>) -> bool {
    match reset.phase {
        ResetPhaseView::Pointer => !reset.given && target == target_of(world, reset.pointer, None),
        ResetPhaseView::Target(revision) => target == Ok::<Seq<u8>, ErrorView>(revision),
        ResetPhaseView::Point(revision, root) => target == Ok::<Seq<u8>, ErrorView>(revision)
            && is_root_of(world, root, revision),
        ResetPhaseView::Root(root) => target matches Ok(revision) && is_root_of(
            world,
            root,
            revision,
        ),
        ResetPhaseView::Finished(Ok(())) => target == Ok::<Seq<u8>, ErrorView>(world.revision())
            && world.is_settled(),
        ResetPhaseView::Finished(Err(_)) => true,
    }
}

proof fn lemma_resets_to(
    reset: ResetView,
    world: World,
    course: Course,
    target: Result<Seq<u8>, ErrorView>,
)
    requires
        world.is_coherent(),
        takes(reset, world, course),
        resets_to(reset, world, target),
    ensures
        resets_to(process_after(reset, course), world_after(world, course), target),
    decreases course.len(),
{
    if course.len() > 0 {
        let (reply, after) = course[0];
        law_answer_keeps_coherent(world, reset.request()->0, reply, after);
        if let ResetPhaseView::Root(root) = reset.phase {
            if reply is Done {
                lemma_at_root(world, root, target->Ok_0, after);
            }
        }
        lemma_resets_to(reset.next(reply), after, course.drop_first(), target);
        assert(world_after(after, course.drop_first()) == world_after(world, course));
    }
}

/// A store that was set back is at the revision that it was to go back to, be it
/// given or stored, and its index is that of the revision.
pub proof fn law_reset_store_is_at_revision(
    pointer: Seq<u8>,
    revision: Option<Seq<u8>>,
    world: World,
    course: Course,
)
    requires
        world.is_coherent(),
        takes(ResetView::start(pointer, revision), world, course),
        process_after(ResetView::start(pointer, revision), course).phase matches
            ResetPhaseView::Finished(Ok(())),
    ensures
        target_of(world, pointer, revision) == Ok::<Seq<u8>, ErrorView>(
            world_after(world, course).revision(),
        ),
        world_after(world, course).is_settled(),
{
    let reset = ResetView::start(pointer, revision);
    lemma_resets_to(reset, world, course, target_of(world, pointer, revision));
}

/// Setting a store back without naming a revision does not write to the storage.
pub proof fn law_reset_without_revision_keeps_storage(
    pointer: Seq<u8>,
    world: World,
    course: Course,
)
    requires
        takes(ResetView::start(pointer, None), world, course),
    ensures
        world_after(world, course) == (World { index: world_after(world, course).index, ..world }),
{
    lemma_reset_keeps_storage(ResetView::start(pointer, None), world, course);
}

proof fn lemma_reset_keeps_storage(reset: ResetView, world: World, course: Course)
    requires
        takes(reset, world, course),
        !reset.given,
        !(reset.phase is Point),
    ensures
        world_after(world, course) == (World { index: world_after(world, course).index, ..world }),
    decreases course.len(),
{
    if course.len() > 0 {
        let (reply, after) = course[0];
        lemma_reset_keeps_storage(reset.next(reply), after, course.drop_first());
        assert(world_after(after, course.drop_first()) == world_after(world, course));
    }
}

/// Setting a store back to the null revision empties it, and makes the block name
/// the null revision.
pub proof fn law_reset_to_null_empties(
    pointer: Seq<u8>,
    world: World,
    course: Course,
    outcome: Result<(), ErrorView>,
)
    requires
        takes(ResetView::start(pointer, Some(NULL_REVISION_HASH@)), world, course),
        is_smooth(course),
        process_after(ResetView::start(pointer, Some(NULL_REVISION_HASH@)), course).phase
            == ResetPhaseView::Finished(outcome),
    ensures
        outcome is Ok,
        world_after(world, course).index == Map::<Seq<u8>, StateView>::empty(),
        held(world_after(world, course).blocks, pointer) == Some(NULL_REVISION_HASH@),
        world.is_coherent() ==> world_after(world, course).revision() == NULL_REVISION_HASH@,
{
    law_reset_sets_back(pointer, Some(NULL_REVISION_HASH@), world, course, outcome);
    if world.is_coherent() {
        law_reset_store_is_at_revision(pointer, Some(NULL_REVISION_HASH@), world, course);
    }
}

/// Setting a store back to the revision that a commit returned brings back what it
/// held then, whatever was committed since.
pub proof fn law_reset_undoes_later_commits(
    pointer: Seq<u8>,
    world: World,
    commit: Course,
    revision: Seq<u8>,
    later: World,
    reset: Course,
    outcome: Result<(), ErrorView>,
)
    requires
        takes(CommitView::start(pointer), world, commit),
        process_after(CommitView::start(pointer), commit).phase == CommitPhaseView::Finished(
            Ok(revision),
        ),
        follows(world_after(world, commit), later),
        takes(ResetView::start(pointer, Some(revision)), later, reset),
        is_smooth(reset),
        process_after(ResetView::start(pointer, Some(revision)), reset).phase
            == ResetPhaseView::Finished(outcome),
    ensures
        outcome is Ok,
        world_after(later, reset).index == world_after(world, commit).index,
        world_after(later, reset).revision() == revision,
        world_after(later, reset).is_settled(),
        held(world_after(later, reset).blocks, pointer) == Some(revision),
{
    law_commit_follows_instructions(pointer, world, commit, revision);
    lemma_stays_stored(world_after(world, commit), later);
    law_reset_sets_back(pointer, Some(revision), later, reset, outcome);
    law_reset_store_is_at_revision(pointer, Some(revision), later, reset);
}

/// How a query for the revision ends, or would end, from where it has come to.
spec fn queried(query: RevisionQueryView, world: World) -> Seq<u8> {
    match query {
        RevisionQueryView::Root => world.revision(),
        RevisionQueryView::Refer(root) => (world.refer)(root),
        RevisionQueryView::Finished(Ok(revision)) => revision,
        RevisionQueryView::Finished(Err(_)) => arbitrary(),
    }
}

proof fn lemma_querying(query: RevisionQueryView, world: World, course: Course)
    requires
        takes(query, world, course),
        is_smooth(course),
        !(query matches RevisionQueryView::Finished(outcome) && outcome is Err),
    ensures
        queried(process_after(query, course), world_after(world, course)) == queried(query, world),
        !(process_after(query, course) matches RevisionQueryView::Finished(outcome) && outcome
            is Err),
    decreases course.len(),
{
    if course.len() > 0 {
        let (reply, after) = course[0];
        lemma_smooth_rest(course);
        lemma_querying(query.next(reply), after, course.drop_first());
        assert(world_after(after, course.drop_first()) == world_after(world, course));
    }
}

/// A query for the revision, in which no request fails, tells the revision that the
/// store is at.
pub proof fn law_revision_is_told(
    world: World,
    course: Course,
    outcome: Result<Seq<u8>, ErrorView>,
)
    requires
        takes(RevisionQueryView::Root, world, course),
        is_smooth(course),
        process_after(RevisionQueryView::Root, course) == RevisionQueryView::Finished(outcome),
    ensures
        outcome == Ok::<Seq<u8>, ErrorView>(world.revision()),
{
    lemma_querying(RevisionQueryView::Root, world, course);
}

/// A query for the revision changes neither the storage nor the index, whether or
/// not it succeeds.
pub proof fn law_revision_query_keeps_store(
    query: RevisionQueryView,
    world: World,
    course: Course,
)
    requires
        takes(query, world, course),
    ensures
        world_after(world, course) == (World { trees: world_after(world, course).trees, ..world }),
        extends(world.trees, world_after(world, course).trees),
    decreases course.len(),
{
    if course.len() > 0 {
        let (reply, after) = course[0];
        law_revision_query_keeps_store(query.next(reply), after, course.drop_first());
        assert(world_after(after, course.drop_first()) == world_after(world, course));
        assert forall|root: Seq<u8>| #[trigger] world.trees.dom().contains(root) implies ({
            let trees = world_after(world, course).trees;
            trees.dom().contains(root) && trees[root] == world.trees[root]
        }) by {
            assert(after.trees.dom().contains(root));
        }
    }
}

} // verus!
