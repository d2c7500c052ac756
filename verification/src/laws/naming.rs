//! What names tell apart: the keys and the references of artifacts, and the pointers
//! of stores. They are made of Blake3 hashes, so they do so unless two different byte
//! strings share a hash.
use crate::artifact::{ArtifactView, DatumView};
use crate::cause::{cause_bytes, cause_of};
use crate::commit::CommitView;
use crate::error::ErrorView;
use crate::import::ImportView;
use crate::key::{before, first_less_at, lemma_parts_in_key, parts_of, KeyKind};
use crate::laws::keeping::{
    keeps_others, law_commit_keeps_others, law_import_keeps_others, law_reset_keeps_others,
};
use crate::laws::opening::opened_revision;
use crate::name::{fits, lemma_name_part_injective, name_part};
use crate::open::pointer_of;
use crate::reference::{blake3_hash, reference_of};
use crate::reset::ResetView;
use crate::value::{lemma_value_of_its_bytes, value_of_bytes, ValueView};
use crate::world::{held, takes, world_after, Course, World};
use vstd::prelude::*;
use vstd::utf8::{
    char_u32_cast, encode_scalar, encode_utf8, encode_utf8_decode_utf8,
};

verus! {

/// Whether two different byte strings share the 32 bytes of their Blake3 hash.
pub open spec fn collide(a: Seq<u8>, b: Seq<u8>) -> bool {
    &&& a != b
    &&& forall|i: int| 0 <= i < 32 ==> #[trigger] blake3_hash(a)[i] == blake3_hash(b)[i]
}

/// References that are equal are those of the same bytes, unless these collide.
proof fn lemma_same_reference(a: Seq<u8>, b: Seq<u8>)
    requires
        reference_of(a) == reference_of(b),
    ensures
        a == b || collide(a, b),
{
    assert forall|i: int| 0 <= i < 32 implies #[trigger] blake3_hash(a)[i] == blake3_hash(
        b,
    )[i] by {
        assert(reference_of(a)[i] == blake3_hash(a)[i]);
        assert(reference_of(b)[i] == blake3_hash(b)[i]);
    }
}

/// The block of a store is found under the 32 bytes of the Blake3 hash of the UTF-8 of
/// its identifier.
pub proof fn law_pointer_is_hash_of_identifier(identifier: Seq<char>, i: int)
    requires
        0 <= i < 32,
    ensures
        pointer_of(identifier).len() == 32,
        pointer_of(identifier)[i] == blake3_hash(encode_utf8(identifier))[i],
{
}

/// Stores with different identifiers have different pointers, unless the identifiers
/// collide.
pub proof fn law_pointer_tells_identifiers_apart(a: Seq<char>, b: Seq<char>)
    requires
        pointer_of(a) == pointer_of(b),
    ensures
        a == b || collide(encode_utf8(a), encode_utf8(b)),
{
    lemma_same_reference(encode_utf8(a), encode_utf8(b));
    encode_utf8_decode_utf8(a);
    encode_utf8_decode_utf8(b);
}

/// Whether a store is opened from the storage as it was from an earlier one: its
/// block is as it was, and it is opened at the same revision, where the block named
/// none or one that was stored.
pub open spec fn is_unaffected(identifier: Seq<char>, world: World, later: World) -> bool {
    let pointer = pointer_of(identifier);
    &&& held(later.blocks, pointer) == held(world.blocks, pointer)
    &&& (held(world.blocks, pointer) matches Some(block) ==> held(world.revisions, block) is Some)
        ==> opened_revision(later, pointer) == opened_revision(world, pointer)
}

proof fn lemma_unaffected(a: Seq<char>, b: Seq<char>, world: World, later: World)
    requires
        a != b,
        !collide(encode_utf8(a), encode_utf8(b)),
        keeps_others(pointer_of(a), world, later),
    ensures
        is_unaffected(b, world, later),
{
    if pointer_of(a) == pointer_of(b) {
        law_pointer_tells_identifiers_apart(a, b);
    }
    let pointer = pointer_of(b);
    assert(later.blocks.remove(pointer_of(a)).dom().contains(pointer) == world.blocks.remove(
        pointer_of(a),
    ).dom().contains(pointer));
    if world.blocks.dom().contains(pointer) {
        assert(later.blocks.remove(pointer_of(a))[pointer] == world.blocks.remove(
            pointer_of(a),
        )[pointer]);
    }
}

/// A commit to a store, whether or not it succeeds, does not affect how one with
/// another identifier is opened.
pub proof fn law_commit_does_not_affect_other_identifiers(
    a: Seq<char>,
    b: Seq<char>,
    world: World,
    course: Course,
)
    requires
        a != b,
        !collide(encode_utf8(a), encode_utf8(b)),
        takes(CommitView::start(pointer_of(a)), world, course),
    ensures
        is_unaffected(b, world, world_after(world, course)),
{
    law_commit_keeps_others(pointer_of(a), world, course);
    lemma_unaffected(a, b, world, world_after(world, course));
}

/// An import into a store, whether or not it succeeds, does not affect how one with
/// another identifier is opened.
pub proof fn law_import_does_not_affect_other_identifiers(
    a: Seq<char>,
    b: Seq<char>,
    world: World,
    course: Course,
)
    requires
        a != b,
        !collide(encode_utf8(a), encode_utf8(b)),
        takes(ImportView::start(pointer_of(a)), world, course),
    ensures
        is_unaffected(b, world, world_after(world, course)),
{
    law_import_keeps_others(pointer_of(a), world, course);
    lemma_unaffected(a, b, world, world_after(world, course));
}

/// Setting a store back, whether or not it succeeds, does not affect how one with
/// another identifier is opened.
pub proof fn law_reset_does_not_affect_other_identifiers(
    a: Seq<char>,
    b: Seq<char>,
    revision: Option<Seq<u8>>,
    world: World,
    course: Course,
)
    requires
        a != b,
        !collide(encode_utf8(a), encode_utf8(b)),
        takes(ResetView::start(pointer_of(a), revision), world, course),
    ensures
        is_unaffected(b, world, world_after(world, course)),
{
    law_reset_keeps_others(pointer_of(a), revision, world, course);
    lemma_unaffected(a, b, world, world_after(world, course));
}

/// Values of the same data type with the same bytes are the same.
pub proof fn law_bytes_tell_values_apart(a: ValueView, b: ValueView)
    requires
        a.data_type() == b.data_type(),
        a.bytes() == b.bytes(),
    ensures
        a == b,
{
    lemma_value_of_its_bytes(a);
    lemma_value_of_its_bytes(b);
}

/// Values have the same data type exactly where they are of the same sort.
pub proof fn law_data_type_tells_sorts_apart(a: ValueView, b: ValueView)
    ensures
        a.data_type() == b.data_type() <==> match (a, b) {
            (ValueView::Boolean(_), ValueView::Boolean(_)) => true,
            (ValueView::String(_), ValueView::String(_)) => true,
            (ValueView::UnsignedInt(_), ValueView::UnsignedInt(_)) => true,
            _ => false,
        },
{
}

/// A value that is read from bytes has the data type and the bytes that it was read
/// from.
pub proof fn law_value_read_has_its_bytes(data_type: u8, bytes: Seq<u8>)
    ensures
        value_of_bytes(data_type, bytes) matches Some(value) ==> value.data_type() == data_type
            && value.bytes() == bytes,
{
    if let Some(value) = value_of_bytes(data_type, bytes) {
        match value {
            ValueView::Boolean(_) => {
                assert(value.bytes() =~= bytes);
            },
            ValueView::String(_) => {
                vstd::utf8::decode_utf8_encode_utf8(bytes);
            },
            ValueView::UnsignedInt(_) => {
                vstd::bytes::lemma_auto_spec_u128_to_from_le_bytes();
            },
        }
    }
}

/// An artifact has the attribute, the entity and the cause of the datum that it is
/// read from, and the datum is its stored form. One that cannot be read says what is
/// wrong first: the attribute, the entity, or the data type of the value.
pub proof fn law_artifact_read_has_its_datum(datum: DatumView)
    ensures
        match datum.artifact() {
            Ok(artifact) => {
                &&& artifact.the == datum.attribute
                &&& artifact.of == datum.entity
                &&& artifact.cause == datum.cause
                &&& artifact.is.data_type() == datum.value_type
                &&& artifact.is.bytes() == datum.value
                &&& artifact.datum() == datum
            },
            Err(ErrorView::InvalidAttribute(text)) => text == datum.attribute && !fits(text),
            Err(ErrorView::InvalidEntity(text)) => text == datum.entity && !fits(text) && fits(
                datum.attribute,
            ),
            Err(ErrorView::InvalidValue(data_type)) => {
                &&& data_type == datum.value_type
                &&& fits(datum.attribute)
                &&& fits(datum.entity)
                &&& forall|value: ValueView| #[trigger]
                    value.bytes() == datum.value ==> value.data_type() != data_type
            },
            Err(_) => false,
        },
{
    law_value_read_has_its_bytes(datum.value_type, datum.value);
    if let Err(ErrorView::InvalidValue(data_type)) = datum.artifact() {
        assert forall|value: ValueView| #[trigger] value.bytes() == datum.value implies
            value.data_type() != data_type by {
            lemma_value_of_its_bytes(value);
        }
    }
}

/// The keys of an artifact are those of another one exactly where the two have the
/// same attribute, entity and value, whatever their causes, unless the values are of
/// one data type and their bytes collide.
pub proof fn law_keys_tell_artifacts_apart(a: ArtifactView, b: ArtifactView, kind: KeyKind)
    requires
        a.valid(),
        b.valid(),
    ensures
        parts_of(a).key(kind) == parts_of(b).key(kind) ==> a.the == b.the && a.of == b.of && (a.is
            == b.is || (a.is.data_type() == b.is.data_type() && collide(
            a.is.bytes(),
            b.is.bytes(),
        ))),
        a.the == b.the && a.of == b.of && a.is == b.is ==> parts_of(a).key(kind) == parts_of(b).key(
            kind,
        ),
{
    if parts_of(a).key(kind) == parts_of(b).key(kind) {
        lemma_parts_in_key(parts_of(a), kind);
        lemma_parts_in_key(parts_of(b), kind);
        assert(parts_of(a) == parts_of(b));
        lemma_name_part_injective(a.the, b.the);
        lemma_name_part_injective(a.of, b.of);
        lemma_same_reference(a.is.bytes(), b.is.bytes());
        if a.is.bytes() == b.is.bytes() {
            law_bytes_tell_values_apart(a.is, b.is);
        }
    }
}

/// Artifacts that share their reference are the same, unless the bytes of their values
/// collide, or the bytes that they are referred to by.
pub proof fn law_reference_tells_artifacts_apart(a: ArtifactView, b: ArtifactView)
    requires
        a.valid(),
        b.valid(),
        cause_of(a) == cause_of(b),
    ensures
        a == b || collide(a.is.bytes(), b.is.bytes()) || collide(cause_bytes(a), cause_bytes(b)),
{
    lemma_same_reference(cause_bytes(a), cause_bytes(b));
    if cause_bytes(a) == cause_bytes(b) {
        let x = parts_of(a).key(KeyKind::Entity);
        let y = parts_of(b).key(KeyKind::Entity);
        lemma_parts_in_key(parts_of(a), KeyKind::Entity);
        lemma_parts_in_key(parts_of(b), KeyKind::Entity);
        assert(x =~= cause_bytes(a).take(162));
        assert(y =~= cause_bytes(b).take(162));
        law_keys_tell_artifacts_apart(a, b, KeyKind::Entity);
        assert(a.cause == b.cause) by {
            match (a.cause, b.cause) {
                (Some(c), Some(d)) => {
                    assert(c =~= cause_bytes(a).skip(162));
                    assert(d =~= cause_bytes(b).skip(162));
                },
                _ => {
                    assert(cause_bytes(a).len() == cause_bytes(b).len());
                },
            }
        }
    }
}

/// No byte of the UTF-8 of a character is zero, unless the character is.
proof fn lemma_scalar_bytes(c: u32)
    ensures
        c != 0 ==> forall|i: int|
            0 <= i < encode_scalar(c).len() ==> #[trigger] encode_scalar(c)[i] != 0,
        c == 0 ==> encode_scalar(c) == seq![0u8],
{
    assert(forall|x: u8| #[trigger] (0xC0u8 | x) != 0) by (bit_vector);
    assert(forall|x: u8| #[trigger] (0xE0u8 | x) != 0) by (bit_vector);
    assert(forall|x: u8| #[trigger] (0xF0u8 | x) != 0) by (bit_vector);
    assert(forall|x: u8| #[trigger] (0x80u8 | x) != 0) by (bit_vector);
    assert(0 < c <= 0x7F ==> (c & 0x7F) as u8 != 0) by (bit_vector);
    assert(c == 0 ==> (c & 0x7F) as u8 == 0) by (bit_vector);
}

proof fn lemma_zero_bytes(text: Seq<char>)
    ensures
        encode_utf8(text).contains(0) <==> text.contains('\0'),
    decreases text.len(),
{
    if text.len() > 0 {
        let first = encode_scalar(text[0] as u32);
        let rest = encode_utf8(text.drop_first());
        let all = encode_utf8(text);
        lemma_zero_bytes(text.drop_first());
        lemma_scalar_bytes(text[0] as u32);
        char_u32_cast(text[0], text[0] as u32);
        if all.contains(0) {
            let i = choose|i: int| 0 <= i < all.len() && all[i] == 0;
            if i < first.len() {
                assert(first[i] == 0);
                assert(text[0] as u32 == 0);
                assert(text[0] == '\0');
            } else {
                assert(rest[i - first.len()] == 0);
                let j = choose|j: int|
                    0 <= j < text.drop_first().len() && text.drop_first()[j] == '\0';
                assert(text[j + 1] == '\0');
            }
        }
        if text.contains('\0') {
            let i = choose|i: int| 0 <= i < text.len() && text[i] == '\0';
            if i == 0 {
                assert(all[0] == 0);
            } else {
                assert(text.drop_first()[i - 1] == '\0');
                let j = choose|j: int| 0 <= j < rest.len() && rest[j] == 0;
                assert(all[first.len() + j] == 0);
            }
        }
    }
}

/// Names are ordered in keys as their UTF-8 is: by the first byte in which they differ,
/// or the shorter one first.
pub proof fn law_names_are_ordered_by_utf8(a: Seq<char>, b: Seq<char>)
    requires
        fits(a),
        fits(b),
    ensures
        before(name_part(a), name_part(b)) <==> before(encode_utf8(a), encode_utf8(b)) || (
        encode_utf8(a).is_prefix_of(encode_utf8(b)) && encode_utf8(a) != encode_utf8(b)),
{
    let x = encode_utf8(a);
    let y = encode_utf8(b);
    let p = name_part(a);
    let q = name_part(b);
    if before(p, q) {
        let i = choose|i: int| first_less_at(p, q, i);
        assert(i < y.len());
        if i < x.len() {
            assert forall|j: int| 0 <= j < i implies x[j] == y[j] by {
                assert(p[j] == q[j]);
            }
            assert(first_less_at(x, y, i));
        } else {
            assert forall|j: int| 0 <= j < x.len() implies x[j] == y[j] by {
                assert(p[j] == q[j]);
            }
            assert(x =~= y.subrange(0, x.len() as int));
            assert(x.len() < y.len()) by {
                assert(q[i] != 0);
            }
        }
    }
    if before(x, y) {
        let i = choose|i: int| first_less_at(x, y, i);
        assert forall|j: int| 0 <= j < i implies p[j] == q[j] by {
            assert(x[j] == y[j]);
        }
        assert(first_less_at(p, q, i));
    }
    if x.is_prefix_of(y) && x != y {
        assert(x.len() < y.len()) by {
            if x.len() == y.len() {
                assert(x =~= y);
            }
        }
        let i = x.len() as int;
        assert forall|j: int| 0 <= j < i implies p[j] == q[j] by {
            assert(x[j] == y.subrange(0, i)[j]);
        }
        assert(p[i] == 0 && q[i] == y[i] && y[i] != 0);
        assert(first_less_at(p, q, i));
    }
}

/// A text is the name of an attribute or an entity exactly where it takes at most 64
/// bytes of UTF-8, and no character of it is zero.
pub proof fn law_name_is_short_and_without_zero(text: Seq<char>)
    ensures
        fits(text) <==> encode_utf8(text).len() <= 64 && !text.contains('\0'),
{
    lemma_zero_bytes(text);
    let bytes = encode_utf8(text);
    if !fits(text) && bytes.len() <= 64 {
        let i = choose|i: int| 0 <= i < bytes.len() && bytes[i] == 0;
        assert(bytes.contains(bytes[i]));
    }
}

} // verus!
