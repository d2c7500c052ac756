//! What the index holds, and what instructions make of it.
use crate::artifact::{ArtifactView, Cause, InstructionView, State, StateView};
use crate::cause::cause_of;
use crate::error::{DialogArtifactsError, ErrorView};
use crate::key::{before, filled, parts_in, parts_of, Key, KeyKind, Parts, PartsView};
use crate::protocol::Entry;
use crate::reference::same_bytes;
use crate::selector::{KeyRange, RangeView};
use vstd::prelude::*;

verus! {

/// What an index holds: a state under each of its keys.
pub type Contents = Map<Seq<u8>, StateView>;

/// The state under a key, if there is one.
pub open spec fn state_at(contents: Contents, key: Seq<u8>) -> Option<StateView> {
    if contents.dom().contains(key) {
        Some(contents[key])
    } else {
        None
    }
}

/// The contents with a state under the three keys that hold the given parts.
pub open spec fn with_state(contents: Contents, parts: PartsView, state: StateView) -> Contents {
    contents.insert(parts.key(KeyKind::Entity), state).insert(
        parts.key(KeyKind::Attribute),
        state,
    ).insert(parts.key(KeyKind::Value), state)
}

/// The contents without the three keys that hold the given parts.
pub open spec fn without_parts(contents: Contents, parts: PartsView) -> Contents {
    contents.remove(parts.key(KeyKind::Entity)).remove(parts.key(KeyKind::Value)).remove(
        parts.key(KeyKind::Attribute),
    )
}

/// The range of the entity keys that hold the entity and the attribute of the
/// given parts.
pub open spec fn search_range(parts: PartsView) -> RangeView {
    RangeView {
        start: PartsView {
            value_type: 0,
            value_reference: filled(32, 0),
            ..parts
        }.key(KeyKind::Entity),
        end: PartsView {
            value_type: 255,
            value_reference: filled(32, 255),
            ..parts
        }.key(KeyKind::Entity),
    }
}

/// Whether the search for the artifact with the given reference stops at a
/// state: the artifact stored there has that reference, or cannot be read.
pub open spec fn stops_at(state: StateView, cause: Seq<u8>) -> bool {
    match state {
        StateView::Added(datum) => match datum.artifact() {
            Ok(artifact) => cause_of(artifact) == cause,
            Err(_) => true,
        },
        StateView::Removed => false,
    }
}

/// Whether the search stops at a key.
pub open spec fn is_stop(
    contents: Contents,
    range: RangeView,
    cause: Seq<u8>,
    key: Seq<u8>,
) -> bool {
    &&& contents.dom().contains(key)
    &&& range.has_key(key)
    &&& stops_at(contents[key], cause)
}

/// Whether the search stops at a key, and at none before it.
pub open spec fn is_first_stop(
    contents: Contents,
    range: RangeView,
    cause: Seq<u8>,
    key: Seq<u8>,
) -> bool {
    &&& is_stop(contents, range, cause, key)
    &&& forall|other: Seq<u8>|
        #[trigger] is_stop(contents, range, cause, other) ==> other == key || before(key, other)
}

/// What the search for the artifact with the given reference finds: the key
/// where it stops first, if the artifact there can be read; nothing where it
/// stops nowhere.
pub open spec fn ancestor(contents: Contents, range: RangeView, cause: Seq<u8>) -> Result<
    Option<Seq<u8>>,
    ErrorView,
> {
    if exists|key: Seq<u8>| is_first_stop(contents, range, cause, key) {
        let key = choose|key: Seq<u8>| is_first_stop(contents, range, cause, key);
        match contents[key]->Added_0.artifact() {
            Ok(_) => Ok(Some(key)),
            Err(error) => Err(error),
        }
    } else {
        Ok(None)
    }
}

/// The contents once an artifact is put into them in the place of its ancestor,
/// if it has one.
pub open spec fn with_artifact(
    contents: Contents,
    artifact: ArtifactView,
    ancestor: Option<Seq<u8>>,
) -> Contents {
    let pruned = match ancestor {
        Some(key) => without_parts(contents, parts_in(KeyKind::Entity, key)),
        None => contents,
    };
    with_state(pruned, parts_of(artifact), StateView::Added(artifact.datum()))
}

/// What an instruction makes of the contents, or why it cannot be followed. An
/// artifact that is asserted takes the place of its cause, if that is stored for
/// the same entity and attribute. One that is retracted is marked as removed.
pub open spec fn after(contents: Contents, instruction: InstructionView) -> Result<
    Contents,
    ErrorView,
> {
    match instruction {
        InstructionView::Assert(artifact) => match artifact.cause {
            Some(cause) => match ancestor(contents, search_range(parts_of(artifact)), cause) {
                Ok(ancestor) => Ok(with_artifact(contents, artifact, ancestor)),
                Err(error) => Err(error),
            },
            None => Ok(with_artifact(contents, artifact, None)),
        },
        InstructionView::Retract(artifact) => Ok(
            with_state(contents, parts_of(artifact), StateView::Removed),
        ),
    }
}

/// What instructions make of the contents, one after the other.
pub open spec fn after_all(contents: Contents, instructions: Seq<InstructionView>) -> Result<
    Contents,
    ErrorView,
>
    decreases instructions.len(),
{
    if instructions.len() == 0 {
        Ok(contents)
    } else {
        match after_all(contents, instructions.drop_last()) {
            Ok(contents) => after(contents, instructions.last()),
            Err(error) => Err(error),
        }
    }
}

/// A change to one key of the index.
#[derive(Debug)]
pub enum Edit {
    /// Put a state under the key.
    Put(Key, State),
    /// Take the key out.
    Delete(Key),
}

/// What a change says.
pub enum EditView {
    Put(Seq<u8>, StateView),
    Delete(Seq<u8>),
}

impl View for Edit {
    type V = EditView;

    open spec fn view(&self) -> EditView {
        match *self {
            Edit::Put(key, state) => EditView::Put(key@, state@),
            Edit::Delete(key) => EditView::Delete(key@),
        }
    }
}

/// What a list of changes says.
pub open spec fn edits_view(edits: Seq<Edit>) -> Seq<EditView> {
    Seq::new(edits.len(), |i: int| edits[i]@)
}

/// The contents after a change.
pub open spec fn edited(contents: Contents, edit: EditView) -> Contents {
    match edit {
        EditView::Put(key, state) => contents.insert(key, state),
        EditView::Delete(key) => contents.remove(key),
    }
}

/// The contents after changes, one after the other.
pub open spec fn all_edited(contents: Contents, edits: Seq<EditView>) -> Contents
    decreases edits.len(),
{
    if edits.len() == 0 {
        contents
    } else {
        all_edited(edited(contents, edits[0]), edits.drop_first())
    }
}

/// The changes that put a state under the keys of the given parts.
pub open spec fn setting(parts: PartsView, state: StateView) -> Seq<EditView> {
    seq![
        EditView::Put(parts.key(KeyKind::Entity), state),
        EditView::Put(parts.key(KeyKind::Attribute), state),
        EditView::Put(parts.key(KeyKind::Value), state),
    ]
}

/// The changes that put a state under the keys of the given parts, after the
/// keys of an ancestor are taken out.
pub open spec fn replacing(
    ancestor: Option<Seq<u8>>,
    parts: PartsView,
    state: StateView,
) -> Seq<EditView> {
    match ancestor {
        Some(key) => {
            let old = parts_in(KeyKind::Entity, key);
            seq![
                EditView::Delete(old.key(KeyKind::Entity)),
                EditView::Delete(old.key(KeyKind::Value)),
                EditView::Delete(old.key(KeyKind::Attribute)),
            ] + setting(parts, state)
        },
        None => setting(parts, state),
    }
}

/// The changes do what they are meant for.
pub proof fn lemma_setting(contents: Contents, parts: PartsView, state: StateView)
    ensures
        all_edited(contents, setting(parts, state)) == with_state(contents, parts, state),
{
    reveal_with_fuel(all_edited, 4);
    let edits = setting(parts, state);
    assert(edits.drop_first() =~= seq![edits[1], edits[2]]);
    assert(edits.drop_first().drop_first() =~= seq![edits[2]]);
    assert(edits.drop_first().drop_first().drop_first() =~= seq![]);
}

/// The changes do what they are meant for.
pub proof fn lemma_replacing(contents: Contents, ancestor: Option<Seq<u8>>, artifact: ArtifactView)
    ensures
        all_edited(
            contents,
            replacing(ancestor, parts_of(artifact), StateView::Added(artifact.datum())),
        ) == with_artifact(contents, artifact, ancestor),
{
    let state = StateView::Added(artifact.datum());
    let rest = setting(parts_of(artifact), state);
    match ancestor {
        Some(key) => {
            let old = parts_in(KeyKind::Entity, key);
            let edits = replacing(ancestor, parts_of(artifact), state);
            reveal_with_fuel(all_edited, 4);
            assert(edits.drop_first() =~= seq![edits[1], edits[2]] + rest);
            assert(edits.drop_first().drop_first() =~= seq![edits[2]] + rest);
            assert(edits.drop_first().drop_first().drop_first() =~= rest);
            assert(edits[0] == EditView::Delete(old.key(KeyKind::Entity)));
            assert(edits.drop_first()[0] == EditView::Delete(old.key(KeyKind::Value)));
            assert(edits.drop_first().drop_first()[0] == EditView::Delete(
                old.key(KeyKind::Attribute),
            ));
            lemma_setting(without_parts(contents, old), parts_of(artifact), state);
        },
        None => {
            lemma_setting(contents, parts_of(artifact), state);
        },
    }
}

/// The range of the entity keys that hold the entity and the attribute of the
/// given parts.
pub fn search_range_of(parts: &Parts) -> (range: KeyRange)
    ensures
        range@ == search_range(parts@),
{
    let least = Parts { entity: parts.entity, attribute: parts.attribute, ..Parts::min() };
    let greatest = Parts { entity: parts.entity, attribute: parts.attribute, ..Parts::max() };
    KeyRange { start: least.key(KeyKind::Entity), end: greatest.key(KeyKind::Entity) }
}

/// Whether an entry is that of the artifact with the given reference; it is an
/// error if the artifact that is stored there cannot be read.
pub fn is_ancestor(entry: Entry, cause: &Cause) -> (found: Result<bool, DialogArtifactsError>)
    ensures
        match found {
            Ok(found) => found == stops_at(entry@.value, cause@) && (entry@.value matches
                StateView::Added(datum) ==> datum.artifact() is Ok),
            Err(error) => entry@.value matches StateView::Added(datum) && datum.artifact() == Err::<
                ArtifactView,
                ErrorView,
            >(error@),
        },
{
    match entry.value {
        State::Added(datum) => match datum.to_artifact() {
            Ok(artifact) => {
                let reference = Cause::of_artifact(&artifact);
                Ok(same_bytes(reference.0.as_slice(), cause.0.as_slice()))
            },
            Err(error) => Err(error),
        },
        State::Removed => Ok(false),
    }
}

/// The changes that put a state under the keys of the given parts, after the
/// keys of an ancestor are taken out.
pub fn replacing_edits(ancestor: Option<Key>, parts: &Parts, state: State) -> (edits: Vec<Edit>)
    ensures
        edits_view(edits@) == replacing(
            match ancestor {
                Some(key) => Some(key@),
                None => None,
            },
            parts@,
            state@,
        ),
{
    let mut edits: Vec<Edit> = Vec::new();
    if let Some(key) = &ancestor {
        let old = Parts::in_key(KeyKind::Entity, key);
        edits.push(Edit::Delete(old.key(KeyKind::Entity)));
        edits.push(Edit::Delete(old.key(KeyKind::Value)));
        edits.push(Edit::Delete(old.key(KeyKind::Attribute)));
    }
    edits.push(Edit::Put(parts.key(KeyKind::Entity), state.clone()));
    edits.push(Edit::Put(parts.key(KeyKind::Attribute), state.clone()));
    edits.push(Edit::Put(parts.key(KeyKind::Value), state));
    assert(edits_view(edits@) =~= replacing(
        match ancestor {
            Some(key) => Some(key@),
            None => None,
        },
        parts@,
        state@,
    ));
    edits
}

} // verus!
