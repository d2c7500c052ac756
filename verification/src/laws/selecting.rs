//! What a selection finds, and in which order.
use crate::artifact::{ArtifactView, DatumView, StateView};
use crate::error::ErrorView;
use crate::index::{state_at, Contents};
use crate::key::{
    before, first_less_at, lemma_before_asymmetric, lemma_key_of_parts_in, lemma_parts_in_key,
    lemma_range_prefix, parts_in, parts_of, KeyKind, PartsView,
};
use crate::laws::contents::{holds, is_consistent};
use crate::laws::naming::{collide, law_bytes_tell_values_apart};
use crate::laws::reading::{
    are_ascending, artifacts_in, given, given_after, is_smooth_amid, law_reading_is_pinned,
    law_select_finds, outcome_of, output_after, reading_after, reads_amid, written_after,
    SharedCourse,
};
use crate::name::name_part;
use crate::protocol::EntryView;
use crate::reading::{ReadingPhaseView, ReadingView};
use crate::reference::{blake3_hash, reference_of};
use crate::selector::{
    law_match_is_asked_for, lemma_parts_pointwise, lemma_range_kind, SelectorView,
};
use crate::world::{lists, World};
use vstd::prelude::*;

verus! {

/// The kind of the keys by which a selection goes: those that start with the entity
/// if it is given, else with the value, else with the attribute.
pub open spec fn leading_kind(selector: SelectorView) -> KeyKind {
    match (selector.entity, selector.value) {
        (Some(_), _) => KeyKind::Entity,
        (None, Some(_)) => KeyKind::Value,
        (None, None) => KeyKind::Attribute,
    }
}

/// Selecting hands out the stored artifacts that have the attribute, the entity and
/// the value that are given, each once, in the order of the keys that start with the
/// entity if it is given, else with the value, else with the attribute; and no other,
/// unless its value is of the same data type and its bytes collide with those of the
/// value that is given. A selector that gives all three gets nothing. Nothing is
/// written as a row.
pub proof fn law_select_finds_what_is_asked_for(
    selector: SelectorView,
    world: World,
    course: SharedCourse,
)
    requires
        selector.valid(),
        reads_amid(ReadingView::of_selector(selector), world, course),
        is_smooth_amid(course),
        reading_after(ReadingView::of_selector(selector), course).phase is Finished,
        is_consistent(course[0].0.index),
    ensures
        reading_after(ReadingView::of_selector(selector), course).phase
            == ReadingPhaseView::Finished(Ok(())),
        written_after(world, course) == world.written,
        exists|found: Seq<ArtifactView>|
            {
                &&& output_after(world, course) == world.output + found
                &&& are_ascending(found, leading_kind(selector))
                &&& forall|artifact: ArtifactView| #[trigger]
                    found.contains(artifact) ==> {
                        &&& artifact.valid()
                        &&& holds(course[0].0.index, artifact)
                        &&& selector.attribute matches Some(attribute) ==> artifact.the
                            == attribute
                        &&& selector.entity matches Some(entity) ==> artifact.of == entity
                        &&& selector.value matches Some(value) ==> artifact.is == value || (
                        artifact.is.data_type() == value.data_type() && collide(
                            artifact.is.bytes(),
                            value.bytes(),
                        ))
                        &&& selector.attribute is None || selector.entity is None || selector.value
                            is None
                    }
                &&& forall|artifact: ArtifactView|
                    {
                        &&& artifact.valid()
                        &&& #[trigger] holds(course[0].0.index, artifact)
                        &&& selector.attribute matches Some(attribute) ==> artifact.the
                            == attribute
                        &&& selector.entity matches Some(entity) ==> artifact.of == entity
                        &&& selector.value matches Some(value) ==> artifact.is == value
                        &&& selector.attribute is None || selector.entity is None || selector.value
                            is None
                    } ==> found.contains(artifact)
            },
{
    law_select_finds(selector, world, course);
    let index = course[0].0.index;
    let found = choose|found: Seq<ArtifactView>|
        output_after(world, course) == world.output + found && are_ascending(found, selector.kind())
            && forall|artifact: ArtifactView| #[trigger]
            found.contains(artifact) <==> !selector.is_full() && artifact.valid() && holds(
                index,
                artifact,
            ) && selector.matches_parts(parts_of(artifact));
    assert forall|artifact: ArtifactView| #[trigger] found.contains(artifact) implies {
        &&& artifact.valid()
        &&& holds(index, artifact)
        &&& selector.attribute matches Some(attribute) ==> artifact.the == attribute
        &&& selector.entity matches Some(entity) ==> artifact.of == entity
        &&& selector.value matches Some(value) ==> artifact.is == value || (artifact.is.data_type()
            == value.data_type() && collide(artifact.is.bytes(), value.bytes()))
    } by {
        law_match_is_asked_for(selector, artifact);
        if let Some(value) = selector.value {
            let a = artifact.is.bytes();
            let b = value.bytes();
            if a == b {
                law_bytes_tell_values_apart(artifact.is, value);
            } else {
                assert forall|i: int| 0 <= i < 32 implies #[trigger] blake3_hash(a)[i]
                    == blake3_hash(b)[i] by {
                    assert(reference_of(a)[i] == blake3_hash(a)[i]);
                    assert(reference_of(b)[i] == blake3_hash(b)[i]);
                }
            }
        }
    }
    assert(leading_kind(selector) == selector.kind());
}

/// Whether parts share what a selector gives and keys of its kind start with: the
/// entity, else the value, and the attribute with them or alone.
pub open spec fn shares_lead(selector: SelectorView, parts: PartsView) -> bool {
    &&& selector.entity matches Some(entity) ==> parts.entity == name_part(entity)
    &&& selector.entity is None ==> (selector.value matches Some(value) ==> parts.value_type
        == value.data_type() && parts.value_reference == reference_of(value.bytes()))
    &&& selector.attribute matches Some(attribute) ==> parts.attribute == name_part(attribute)
}

/// A selection goes through no keys but those that share what is given and comes first
/// in them: the entity, and the attribute with it; else the value, and the attribute
/// with it; else the attribute.
pub proof fn law_selection_is_narrow(selector: SelectorView, key: Seq<u8>)
    requires
        selector.valid(),
        ReadingView::of_selector(selector).range.has_key(key),
    ensures
        exists|parts: PartsView|
            parts.valid() && key == #[trigger] parts.key(leading_kind(selector)) && shares_lead(
                selector,
                parts,
            ),
{
    let kind = leading_kind(selector);
    let least = selector.applied_to(PartsView::uniform(0));
    let greatest = selector.applied_to(PartsView::uniform(255));
    lemma_range_kind(selector, key);
    lemma_key_of_parts_in(kind, key);
    lemma_parts_in_key(least, kind);
    lemma_parts_in_key(greatest, kind);
    let parts = parts_in(kind, key);
    let x = least.key(kind);
    let y = greatest.key(kind);
    match kind {
        KeyKind::Entity => {
            let n: int = if selector.attribute is Some {
                129
            } else {
                65
            };
            lemma_range_prefix(x, y, key, n);
            assert(parts.entity =~= least.entity) by {
                assert forall|i: int| 0 <= i < 64 implies parts.entity[i] == least.entity[i] by {
                    assert(key[1 + i] == x[1 + i]);
                }
            }
            if selector.attribute is Some {
                assert forall|i: int| 0 <= i < 64 implies parts.attribute[i]
                    == least.attribute[i] by {
                    assert(key[65 + i] == x[65 + i]);
                }
                assert(parts.attribute =~= least.attribute);
            }
        },
        KeyKind::Value => {
            let n: int = if selector.attribute is Some {
                98
            } else {
                34
            };
            lemma_range_prefix(x, y, key, n);
            assert(key[1] == x[1]);
            assert forall|i: int| 0 <= i < 32 implies parts.value_reference[i]
                == least.value_reference[i] by {
                assert(key[2 + i] == x[2 + i]);
            }
            assert(parts.value_reference =~= least.value_reference);
            if selector.attribute is Some {
                assert forall|i: int| 0 <= i < 64 implies parts.attribute[i]
                    == least.attribute[i] by {
                    assert(key[34 + i] == x[34 + i]);
                }
                assert(parts.attribute =~= least.attribute);
            }
        },
        KeyKind::Attribute => {
            lemma_range_prefix(x, y, key, 65);
            assert forall|i: int| 0 <= i < 64 implies parts.attribute[i] == least.attribute[i] by {
                assert(key[1 + i] == x[1 + i]);
            }
            assert(parts.attribute =~= least.attribute);
        },
    }
    assert(parts.key(kind) == key && shares_lead(selector, parts));
}

/// What is made of two pieces is ordered by the first, then by the second.
proof fn lemma_before_joined(a: Seq<u8>, b: Seq<u8>, c: Seq<u8>, d: Seq<u8>)
    requires
        a.len() == c.len(),
    ensures
        before(a + b, c + d) <==> before(a, c) || (a == c && before(b, d)),
{
    let n = a.len() as int;
    if before(a + b, c + d) {
        let i = choose|i: int| first_less_at(a + b, c + d, i);
        if i < n {
            assert forall|j: int| 0 <= j < i implies a[j] == c[j] by {
                assert((a + b)[j] == (c + d)[j]);
            }
            assert(first_less_at(a, c, i));
        } else {
            assert forall|j: int| 0 <= j < n implies a[j] == c[j] by {
                assert((a + b)[j] == (c + d)[j]);
            }
            assert(a =~= c);
            assert forall|j: int| 0 <= j < i - n implies b[j] == d[j] by {
                assert((a + b)[n + j] == (c + d)[n + j]);
            }
            assert(first_less_at(b, d, i - n));
        }
    }
    if before(a, c) {
        let i = choose|i: int| first_less_at(a, c, i);
        assert(first_less_at(a + b, c + d, i));
    }
    if a == c && before(b, d) {
        let i = choose|i: int| first_less_at(b, d, i);
        assert forall|j: int| 0 <= j < n + i implies (a + b)[j] == (c + d)[j] by {
            if j >= n {
                assert(b[j - n] == d[j - n]);
            }
        }
        assert(first_less_at(a + b, c + d, n + i));
    }
}

/// Whether the first of the pieces in which two lists of pieces differ is less.
pub open spec fn comes_first(a: Seq<Seq<u8>>, b: Seq<Seq<u8>>) -> bool
    decreases a.len(),
{
    a.len() > 0 && b.len() > 0 && (before(a[0], b[0]) || (a[0] == b[0] && comes_first(
        a.drop_first(),
        b.drop_first(),
    )))
}

/// The parts in the order of a kind of keys: entity, attribute and value; attribute,
/// entity and value; or value, attribute and entity. A value goes by its data type,
/// then by its reference.
pub open spec fn in_order(parts: PartsView, kind: KeyKind) -> Seq<Seq<u8>> {
    let data_type = seq![parts.value_type];
    match kind {
        KeyKind::Entity => seq![
            parts.entity,
            parts.attribute,
            data_type,
            parts.value_reference,
        ],
        KeyKind::Attribute => seq![
            parts.attribute,
            parts.entity,
            data_type,
            parts.value_reference,
        ],
        KeyKind::Value => seq![
            data_type,
            parts.value_reference,
            parts.attribute,
            parts.entity,
        ],
    }
}

/// Keys of a kind are ordered by the first of their parts in which they differ, in the
/// order of that kind.
pub proof fn law_keys_are_ordered_by_parts(a: PartsView, b: PartsView, kind: KeyKind)
    requires
        a.valid(),
        b.valid(),
    ensures
        before(a.key(kind), b.key(kind)) <==> comes_first(in_order(a, kind), in_order(b, kind)),
{
    let x = in_order(a, kind);
    let y = in_order(b, kind);
    let mark = seq![kind.mark()];
    lemma_parts_in_key(a, kind);
    lemma_parts_in_key(b, kind);
    assert(a.key(kind) =~= mark + (x[0] + (x[1] + (x[2] + x[3]))));
    assert(b.key(kind) =~= mark + (y[0] + (y[1] + (y[2] + y[3]))));
    lemma_before_joined(mark, x[0] + (x[1] + (x[2] + x[3])), mark, y[0] + (y[1] + (y[2] + y[3])));
    if before(mark, mark) {
        lemma_before_asymmetric(mark, mark);
    }
    lemma_before_joined(x[0], x[1] + (x[2] + x[3]), y[0], y[1] + (y[2] + y[3]));
    lemma_before_joined(x[1], x[2] + x[3], y[1], y[2] + y[3]);
    lemma_before_joined(x[2], x[3], y[2], y[3]);
    reveal_with_fuel(comes_first, 5);
    assert(x.drop_first()[0] == x[1] && y.drop_first()[0] == y[1]);
    assert(x.drop_first().drop_first()[0] == x[2] && y.drop_first().drop_first()[0] == y[2]);
    assert(x.drop_first().drop_first().drop_first()[0] == x[3]);
    assert(y.drop_first().drop_first().drop_first()[0] == y[3]);
}

/// A reading ends at the first entry that cannot be read, with what is wrong with it.
proof fn lemma_ends_at(reading: ReadingView, entries: Seq<EntryView>, n: int, error: ErrorView)
    requires
        0 <= n < entries.len(),
        reading.read(entries[n]) == Some(Err::<ArtifactView, ErrorView>(error)),
        forall|i: int|
            0 <= i < n ==> !(reading.read(#[trigger] entries[i]) matches Some(read) && read is Err),
    ensures
        outcome_of(reading, entries) == Err::<(), ErrorView>(error),
    decreases entries.len(),
{
    if n > 0 {
        let rest = entries.drop_first();
        assert(rest[n - 1] == entries[n]);
        assert forall|i: int| 0 <= i < n - 1 implies !(reading.read(#[trigger] rest[i]) matches Some(
            read,
        ) && read is Err) by {
            assert(rest[i] == entries[i + 1]);
        }
        lemma_ends_at(reading, rest, n - 1, error);
        assert(!(reading.read(entries[0]) matches Some(read) && read is Err));
    }
}

/// Whether what is stored under a key can be read, or was retracted, or nothing is.
pub open spec fn is_readable(contents: Contents, key: Seq<u8>) -> bool {
    state_at(contents, key) matches Some(StateView::Added(datum)) ==> datum.artifact() is Ok
}

/// Reading all artifacts fails where something that cannot be read is stored: with what
/// is wrong with the first that cannot.
pub proof fn law_all_fails_at_what_cannot_be_read(
    rows: bool,
    world: World,
    course: SharedCourse,
    parts: PartsView,
    datum: DatumView,
    error: ErrorView,
)
    requires
        reads_amid(ReadingView::of_all(rows), world, course),
        is_smooth_amid(course),
        reading_after(ReadingView::of_all(rows), course).phase is Finished,
        parts.valid(),
        parts.value_type < 255,
        state_at(course[0].0.index, parts.key(KeyKind::Entity)) == Some(StateView::Added(datum)),
        datum.artifact() == Err::<ArtifactView, ErrorView>(error),
        forall|earlier: PartsView|
            earlier.valid() && before(
                #[trigger] earlier.key(KeyKind::Entity),
                parts.key(KeyKind::Entity),
            ) ==> is_readable(course[0].0.index, earlier.key(KeyKind::Entity)),
    ensures
        reading_after(ReadingView::of_all(rows), course).phase == ReadingPhaseView::Finished(
            Err(error),
        ),
{
    let reading = ReadingView::of_all(rows);
    let contents = course[0].0.index;
    let key = parts.key(KeyKind::Entity);
    let least = PartsView::uniform(0);
    let greatest = PartsView::uniform(255);
    lemma_parts_in_key(least, KeyKind::Entity);
    lemma_parts_in_key(greatest, KeyKind::Entity);
    lemma_parts_in_key(parts, KeyKind::Entity);
    lemma_parts_pointwise(least, parts, KeyKind::Entity);
    lemma_parts_pointwise(parts, greatest, KeyKind::Entity);
    assert(parts.value_type != greatest.value_type);
    assert(reading.range.has_key(key));
    law_reading_is_pinned(reading, world, course);
    let entries = choose|entries: Seq<EntryView>| #[trigger]
        lists(entries, contents, reading.range) && given_after(reading.rows, world, course)
            == given(reading.rows, world) + artifacts_in(reading, entries) && reading_after(
            reading,
            course,
        ).phase == ReadingPhaseView::Finished(outcome_of(reading, entries));
    assert(contents.dom().contains(key));
    let n = choose|i: int| 0 <= i < entries.len() && entries[i].key == key;
    assert forall|i: int| 0 <= i < n implies !(reading.read(#[trigger] entries[i]) matches Some(
        read,
    ) && read is Err) by {
        assert(before(entries[i].key, entries[n].key));
        assert(reading.range.has_key(entries[i].key));
        lemma_range_prefix(reading.range.start, reading.range.end, entries[i].key, 1);
        lemma_key_of_parts_in(KeyKind::Entity, entries[i].key);
        let earlier = parts_in(KeyKind::Entity, entries[i].key);
        assert(before(earlier.key(KeyKind::Entity), key));
        assert(is_readable(contents, earlier.key(KeyKind::Entity)));
    }
    lemma_ends_at(reading, entries, n, error);
}

/// Whether parts are those of a key that a selection asks for.
pub open spec fn are_asked_for(selector: SelectorView, parts: PartsView) -> bool {
    &&& selector.attribute matches Some(attribute) ==> parts.attribute == name_part(attribute)
    &&& selector.entity matches Some(entity) ==> parts.entity == name_part(entity)
    &&& selector.value matches Some(value) ==> parts.value_type == value.data_type()
        && parts.value_reference == reference_of(value.bytes())
}

/// Selecting fails where something that cannot be read is stored under a key that is
/// asked for: with what is wrong with the first that cannot. What is stored under other
/// keys does not matter.
pub proof fn law_select_fails_at_what_cannot_be_read(
    selector: SelectorView,
    world: World,
    course: SharedCourse,
    parts: PartsView,
    datum: DatumView,
    error: ErrorView,
)
    requires
        selector.valid(),
        selector.attribute is None || selector.entity is None || selector.value is None,
        reads_amid(ReadingView::of_selector(selector), world, course),
        is_smooth_amid(course),
        reading_after(ReadingView::of_selector(selector), course).phase is Finished,
        parts.valid(),
        are_asked_for(selector, parts),
        parts.value_type < 255 && parts.entity[0] < 255 && parts.attribute[0] < 255,
        state_at(course[0].0.index, parts.key(leading_kind(selector))) == Some(
            StateView::Added(datum),
        ),
        datum.artifact() == Err::<ArtifactView, ErrorView>(error),
        forall|earlier: PartsView|
            earlier.valid() && are_asked_for(selector, earlier) && before(
                #[trigger] earlier.key(leading_kind(selector)),
                parts.key(leading_kind(selector)),
            ) ==> is_readable(course[0].0.index, earlier.key(leading_kind(selector))),
    ensures
        reading_after(ReadingView::of_selector(selector), course).phase
            == ReadingPhaseView::Finished(Err(error)),
{
    let reading = ReadingView::of_selector(selector);
    let contents = course[0].0.index;
    let kind = leading_kind(selector);
    let key = parts.key(kind);
    let least = selector.applied_to(PartsView::uniform(0));
    let greatest = selector.applied_to(PartsView::uniform(255));
    lemma_parts_in_key(least, kind);
    lemma_parts_in_key(greatest, kind);
    lemma_parts_in_key(parts, kind);
    lemma_parts_pointwise(least, parts, kind);
    lemma_parts_pointwise(parts, greatest, kind);
    assert(parts != greatest) by {
        assert(greatest.entity[0] == 255 || greatest.attribute[0] == 255 || greatest.value_type
            == 255);
    }
    assert(reading.range.has_key(key));
    law_reading_is_pinned(reading, world, course);
    let entries = choose|entries: Seq<EntryView>| #[trigger]
        lists(entries, contents, reading.range) && given_after(reading.rows, world, course)
            == given(reading.rows, world) + artifacts_in(reading, entries) && reading_after(
            reading,
            course,
        ).phase == ReadingPhaseView::Finished(outcome_of(reading, entries));
    assert(contents.dom().contains(key));
    let n = choose|i: int| 0 <= i < entries.len() && entries[i].key == key;
    assert forall|i: int| 0 <= i < n implies !(reading.read(#[trigger] entries[i]) matches Some(
        read,
    ) && read is Err) by {
        assert(before(entries[i].key, entries[n].key));
        assert(reading.range.has_key(entries[i].key));
        lemma_range_kind(selector, entries[i].key);
        lemma_key_of_parts_in(kind, entries[i].key);
        let earlier = parts_in(kind, entries[i].key);
        assert(before(earlier.key(kind), key));
        if reading.wants(entries[i].key) {
            assert(is_readable(contents, earlier.key(kind)));
        }
    }
    lemma_ends_at(reading, entries, n, error);
}

} // verus!
