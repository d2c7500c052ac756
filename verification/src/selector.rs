//! Selectors, which say what artifacts are asked for.
use crate::artifact::ArtifactView;
use crate::key::{
    before, in_range, lemma_parts_in_key, lemma_pointwise_before, lemma_range_prefix, parts_of,
    Key, KeyKind, Parts, PartsView,
};
use crate::name::{
    fits, lemma_name_part_below_max, lemma_name_part_injective, name_part, part_of_text, Attribute,
    Entity,
};
use crate::reference::{make_reference, reference_of, same_bytes};
use crate::value::{Value, ValueView};
use vstd::prelude::*;

verus! {

/// A range of keys, from `start` up to, and not with, `end`.
#[derive(Clone, Copy, Debug)]
pub struct KeyRange {
    pub start: Key,
    pub end: Key,
}

/// What a range of keys spans.
pub struct RangeView {
    pub start: Seq<u8>,
    pub end: Seq<u8>,
}

impl View for KeyRange {
    type V = RangeView;

    open spec fn view(&self) -> RangeView {
        RangeView { start: self.start@, end: self.end@ }
    }
}

impl RangeView {
    /// Whether a key is in the range.
    pub open spec fn has_key(self, key: Seq<u8>) -> bool {
        in_range(self.start, self.end, key)
    }

    /// The range from the least to the greatest key of a kind.
    pub open spec fn all(kind: KeyKind) -> RangeView {
        RangeView {
            start: PartsView::uniform(0).key(kind),
            end: PartsView::uniform(255).key(kind),
        }
    }
}

impl KeyRange {
    /// The range from the least to the greatest key of a kind.
    pub fn all(kind: KeyKind) -> (range: KeyRange)
        ensures
            range@ == RangeView::all(kind),
    {
        KeyRange { start: Parts::min().key(kind), end: Parts::max().key(kind) }
    }
}

/// A selector that asks for nothing yet.
#[derive(Clone, Copy, Debug)]
pub struct UnconstrainedSelector;

/// What artifacts are asked for: those with the given attribute, entity and
/// value. At least one of the three is given.
#[derive(Debug, PartialEq, Eq)]
pub struct ArtifactSelector {
    attribute: Option<Attribute>,
    entity: Option<Entity>,
    value: Option<Value>,
}

/// What a selector asks for.
pub struct SelectorView {
    pub attribute: Option<Seq<char>>,
    pub entity: Option<Seq<char>>,
    pub value: Option<ValueView>,
}

impl View for ArtifactSelector {
    type V = SelectorView;

    closed spec fn view(&self) -> SelectorView {
        SelectorView {
            attribute: match self.attribute {
                Some(attribute) => Some(attribute@),
                None => None,
            },
            entity: match self.entity {
                Some(entity) => Some(entity@),
                None => None,
            },
            value: match self.value {
                Some(value) => Some(value@),
                None => None,
            },
        }
    }
}

impl SelectorView {
    /// Whether the names fit, and something is given.
    pub open spec fn valid(self) -> bool {
        &&& self.attribute matches Some(attribute) ==> fits(attribute)
        &&& self.entity matches Some(entity) ==> fits(entity)
        &&& self.attribute is Some || self.entity is Some || self.value is Some
    }

    /// Whether all three are given.
    pub open spec fn is_full(self) -> bool {
        self.attribute is Some && self.entity is Some && self.value is Some
    }

    /// Whether an artifact is asked for.
    pub open spec fn asks_for(self, artifact: ArtifactView) -> bool {
        &&& self.attribute matches Some(attribute) ==> artifact.the == attribute
        &&& self.entity matches Some(entity) ==> artifact.of == entity
        &&& self.value matches Some(value) ==> artifact.is == value
    }

    /// Whether a key with these parts is asked for. A key holds only the
    /// reference of a value: values that share it are not told apart.
    pub open spec fn matches_parts(self, parts: PartsView) -> bool {
        &&& self.attribute matches Some(attribute) ==> parts.attribute == name_part(attribute)
        &&& self.entity matches Some(entity) ==> parts.entity == name_part(entity)
        &&& self.value matches Some(value) ==> parts.value_type == value.data_type()
            && parts.value_reference == reference_of(value.bytes())
    }

    /// The parts, with those that are given in the place of the others.
    pub open spec fn applied_to(self, parts: PartsView) -> PartsView {
        PartsView {
            entity: match self.entity {
                Some(entity) => name_part(entity),
                None => parts.entity,
            },
            attribute: match self.attribute {
                Some(attribute) => name_part(attribute),
                None => parts.attribute,
            },
            value_type: match self.value {
                Some(value) => value.data_type(),
                None => parts.value_type,
            },
            value_reference: match self.value {
                Some(value) => reference_of(value.bytes()),
                None => parts.value_reference,
            },
        }
    }

    /// The kind of the keys to go through: the entity comes first, then the
    /// value, then the attribute.
    pub open spec fn kind(self) -> KeyKind {
        if self.entity is Some {
            KeyKind::Entity
        } else if self.value is Some {
            KeyKind::Value
        } else {
            KeyKind::Attribute
        }
    }

    /// The range of the keys to go through.
    pub open spec fn range(self) -> RangeView {
        RangeView {
            start: self.applied_to(PartsView::uniform(0)).key(self.kind()),
            end: self.applied_to(PartsView::uniform(255)).key(self.kind()),
        }
    }
}

impl UnconstrainedSelector {
    /// Asks for an attribute.
    pub fn the(self, attribute: Attribute) -> (selector: ArtifactSelector)
        ensures
            selector@ == (SelectorView { attribute: Some(attribute@), entity: None, value: None }),
    {
        ArtifactSelector { attribute: Some(attribute), entity: None, value: None }
    }

    /// Asks for an entity.
    pub fn of(self, entity: Entity) -> (selector: ArtifactSelector)
        ensures
            selector@ == (SelectorView { attribute: None, entity: Some(entity@), value: None }),
    {
        ArtifactSelector { attribute: None, entity: Some(entity), value: None }
    }

    /// Asks for a value.
    pub fn is(self, value: Value) -> (selector: ArtifactSelector)
        ensures
            selector@ == (SelectorView { attribute: None, entity: None, value: Some(value@) }),
    {
        ArtifactSelector { attribute: None, entity: None, value: Some(value) }
    }
}

impl ArtifactSelector {
    #[verifier::type_invariant]
    spec fn constrained(self) -> bool {
        self.attribute is Some || self.entity is Some || self.value is Some
    }

    /// A selector that asks for nothing yet.
    pub fn new() -> (selector: UnconstrainedSelector)
        ensures
            selector == UnconstrainedSelector,
    {
        UnconstrainedSelector
    }

    /// Asks for an attribute as well.
    pub fn the(self, attribute: Attribute) -> (selector: ArtifactSelector)
        ensures
            selector@ == (SelectorView { attribute: Some(attribute@), ..self@ }),
    {
        ArtifactSelector { attribute: Some(attribute), entity: self.entity, value: self.value }
    }

    /// Asks for an entity as well.
    pub fn of(self, entity: Entity) -> (selector: ArtifactSelector)
        ensures
            selector@ == (SelectorView { entity: Some(entity@), ..self@ }),
    {
        ArtifactSelector { attribute: self.attribute, entity: Some(entity), value: self.value }
    }

    /// Asks for a value as well.
    pub fn is(self, value: Value) -> (selector: ArtifactSelector)
        ensures
            selector@ == (SelectorView { value: Some(value@), ..self@ }),
    {
        ArtifactSelector { attribute: self.attribute, entity: self.entity, value: Some(value) }
    }

    /// The parts, with those that are given in the place of the others.
    pub fn apply_to(&self, parts: Parts) -> (applied: Parts)
        ensures
            applied@ == self@.applied_to(parts@),
            self@.valid(),
    {
        proof {
            use_type_invariant(self);
        }
        let mut applied = parts;
        if let Some(entity) = &self.entity {
            applied.entity = part_of_text(entity.as_str());
        }
        if let Some(attribute) = &self.attribute {
            applied.attribute = part_of_text(attribute.as_str());
        }
        if let Some(value) = &self.value {
            applied.value_type = value.data_type();
            applied.value_reference = make_reference(value.to_bytes().as_slice());
        }
        applied
    }

    /// The kind of the keys to go through.
    pub fn kind(&self) -> (kind: KeyKind)
        ensures
            kind == self@.kind(),
    {
        if self.entity.is_some() {
            KeyKind::Entity
        } else if self.value.is_some() {
            KeyKind::Value
        } else {
            KeyKind::Attribute
        }
    }

    /// The range of the keys to go through.
    pub fn range(&self) -> (range: KeyRange)
        ensures
            range@ == self@.range(),
            self@.valid(),
    {
        KeyRange {
            start: self.apply_to(Parts::min()).key(self.kind()),
            end: self.apply_to(Parts::max()).key(self.kind()),
        }
    }

    /// Whether a key with these parts is asked for.
    pub fn matches(&self, parts: &Parts) -> (matched: bool)
        ensures
            matched == self@.matches_parts(parts@),
    {
        if let Some(entity) = &self.entity {
            let part = part_of_text(entity.as_str());
            if !same_bytes(parts.entity.as_slice(), part.as_slice()) {
                return false;
            }
        }
        if let Some(attribute) = &self.attribute {
            let part = part_of_text(attribute.as_str());
            if !same_bytes(parts.attribute.as_slice(), part.as_slice()) {
                return false;
            }
        }
        if let Some(value) = &self.value {
            if parts.value_type != value.data_type() {
                return false;
            }
            let part = make_reference(value.to_bytes().as_slice());
            if !same_bytes(parts.value_reference.as_slice(), part.as_slice()) {
                return false;
            }
        }
        true
    }
}

/// The keys of an artifact that is asked for are asked for.
pub proof fn lemma_asked_for_matches(selector: SelectorView, artifact: ArtifactView)
    requires
        selector.asks_for(artifact),
    ensures
        selector.matches_parts(parts_of(artifact)),
{
}

/// An artifact whose keys are asked for has the entity and the attribute that
/// are asked for, and a value of the data type and with the reference of the
/// value that is asked for.
pub proof fn law_match_is_asked_for(selector: SelectorView, artifact: ArtifactView)
    requires
        selector.valid(),
        artifact.valid(),
        selector.matches_parts(parts_of(artifact)),
    ensures
        selector.attribute matches Some(attribute) ==> artifact.the == attribute,
        selector.entity matches Some(entity) ==> artifact.of == entity,
        selector.value matches Some(value) ==> artifact.is.data_type() == value.data_type()
            && reference_of(artifact.is.bytes()) == reference_of(value.bytes()),
{
    if let Some(attribute) = selector.attribute {
        lemma_name_part_injective(artifact.the, attribute);
    }
    if let Some(entity) = selector.entity {
        lemma_name_part_injective(artifact.of, entity);
    }
}

/// Where parts are nowhere greater, keys are nowhere greater.
pub proof fn lemma_parts_pointwise(a: PartsView, b: PartsView, kind: KeyKind)
    requires
        a.valid(),
        b.valid(),
        forall|i: int| 0 <= i < 64 ==> a.entity[i] <= b.entity[i],
        forall|i: int| 0 <= i < 64 ==> a.attribute[i] <= b.attribute[i],
        a.value_type <= b.value_type,
        forall|i: int| 0 <= i < 32 ==> a.value_reference[i] <= b.value_reference[i],
    ensures
        a.key(kind) == b.key(kind) || before(a.key(kind), b.key(kind)),
{
    lemma_parts_in_key(a, kind);
    lemma_parts_in_key(b, kind);
    assert forall|i: int| 0 <= i < a.key(kind).len() implies a.key(kind)[i] <= b.key(kind)[i] by {}
    lemma_pointwise_before(a.key(kind), b.key(kind));
}

/// The range of a selector holds the key of every artifact that matches, unless
/// the selector gives all three of attribute, entity and value: then the range
/// starts where it ends, and holds no key at all.
pub proof fn law_range_holds_what_matches(selector: SelectorView, artifact: ArtifactView)
    requires
        selector.valid(),
        selector.matches_parts(parts_of(artifact)),
    ensures
        selector.range().has_key(parts_of(artifact).key(selector.kind())) <==> !selector.is_full(),
{
    let kind = selector.kind();
    let parts = parts_of(artifact);
    let least = selector.applied_to(PartsView::uniform(0));
    let greatest = selector.applied_to(PartsView::uniform(255));
    lemma_parts_in_key(parts, kind);
    lemma_parts_in_key(least, kind);
    lemma_parts_in_key(greatest, kind);
    lemma_parts_pointwise(least, parts, kind);
    lemma_parts_pointwise(parts, greatest, kind);
    lemma_name_part_below_max(artifact.of);
    lemma_name_part_below_max(artifact.the);
    if selector.is_full() {
        assert(parts =~= greatest);
        if before(parts.key(kind), parts.key(kind)) {
            crate::key::lemma_before_asymmetric(parts.key(kind), parts.key(kind));
        }
    } else {
        assert(parts != greatest) by {
            assert(greatest.entity[0] == 255 || greatest.attribute[0] == 255
                || greatest.value_type == 255);
        }
    }
}

/// The keys in the range of a selector are of its kind.
pub proof fn lemma_range_kind(selector: SelectorView, key: Seq<u8>)
    requires
        selector.range().has_key(key),
    ensures
        key.len() == crate::key::KEY_LENGTH,
        key[0] == selector.kind().mark(),
{
    let kind = selector.kind();
    lemma_parts_in_key(selector.applied_to(PartsView::uniform(0)), kind);
    lemma_parts_in_key(selector.applied_to(PartsView::uniform(255)), kind);
    lemma_range_prefix(selector.range().start, selector.range().end, key, 1);
}

} // verus!
