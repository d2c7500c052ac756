//! Keys of the index.
//!
//! An artifact is stored under three keys, one of each kind. They hold the same
//! parts in different orders, so that artifacts which share the leading parts
//! of a kind stand next to each other in the index.
use crate::artifact::{Artifact, ArtifactView};
use crate::name::{name_part, part_of_text, NAME_LENGTH};
use crate::reference::{reference_of, make_reference, Blake3Hash};
use crate::value::Value;
use vstd::prelude::*;

verus! {

/// The length of a key: the mark of its kind, and the parts.
pub const KEY_LENGTH: usize = 162;

/// A key of the index.
pub type Key = [u8; 162];

/// The orders in which keys hold their parts.
#[derive(Clone, Copy, Debug, PartialEq, Eq, Structural)]
pub enum KeyKind {
    /// Entity, attribute, value.
    Entity,
    /// Attribute, entity, value.
    Attribute,
    /// Value, attribute, entity.
    Value,
}

impl KeyKind {
    /// The first byte of the keys of this kind.
    pub open spec fn mark(self) -> u8 {
        match self {
            KeyKind::Entity => 0,
            KeyKind::Attribute => 1,
            KeyKind::Value => 2,
        }
    }

    /// The first byte of the keys of this kind.
    fn mark_byte(self) -> (mark: u8)
        ensures
            mark == self.mark(),
    {
        match self {
            KeyKind::Entity => 0,
            KeyKind::Attribute => 1,
            KeyKind::Value => 2,
        }
    }

    /// Where the entity, the attribute, the data type and the reference of the
    /// value start.
    pub open spec fn offsets(self) -> (int, int, int, int) {
        match self {
            KeyKind::Entity => (1, 65, 129, 130),
            KeyKind::Attribute => (65, 1, 129, 130),
            KeyKind::Value => (98, 34, 1, 2),
        }
    }

    /// Where the entity, the attribute, the data type and the reference of the
    /// value start.
    fn part_offsets(self) -> (offsets: (usize, usize, usize, usize))
        ensures
            offsets.0 == self.offsets().0,
            offsets.1 == self.offsets().1,
            offsets.2 == self.offsets().2,
            offsets.3 == self.offsets().3,
    {
        match self {
            KeyKind::Entity => (1, 65, 129, 130),
            KeyKind::Attribute => (65, 1, 129, 130),
            KeyKind::Value => (98, 34, 1, 2),
        }
    }
}

/// The parts of a key.
#[derive(Clone, Copy)]
pub struct Parts {
    pub entity: [u8; 64],
    pub attribute: [u8; 64],
    pub value_type: u8,
    pub value_reference: Blake3Hash,
}

/// What the parts of a key hold.
#[verifier::ext_equal]
pub struct PartsView {
    pub entity: Seq<u8>,
    pub attribute: Seq<u8>,
    pub value_type: u8,
    pub value_reference: Seq<u8>,
}

impl View for Parts {
    type V = PartsView;

    open spec fn view(&self) -> PartsView {
        PartsView {
            entity: self.entity@,
            attribute: self.attribute@,
            value_type: self.value_type,
            value_reference: self.value_reference@,
        }
    }
}

/// `n` times the same byte.
pub open spec fn filled(n: nat, byte: u8) -> Seq<u8> {
    Seq::new(n, |i: int| byte)
}

impl PartsView {
    /// Whether each part has its length.
    pub open spec fn valid(self) -> bool {
        &&& self.entity.len() == NAME_LENGTH
        &&& self.attribute.len() == NAME_LENGTH
        &&& self.value_reference.len() == 32
    }

    /// The parts with the same byte throughout.
    pub open spec fn uniform(byte: u8) -> PartsView {
        PartsView {
            entity: filled(64, byte),
            attribute: filled(64, byte),
            value_type: byte,
            value_reference: filled(32, byte),
        }
    }

    /// The key of a kind that holds these parts.
    pub open spec fn key(self, kind: KeyKind) -> Seq<u8> {
        match kind {
            KeyKind::Entity => seq![kind.mark()] + self.entity + self.attribute
                + seq![self.value_type] + self.value_reference,
            KeyKind::Attribute => seq![kind.mark()] + self.attribute + self.entity
                + seq![self.value_type] + self.value_reference,
            KeyKind::Value => seq![kind.mark()] + seq![self.value_type] + self.value_reference
                + self.attribute + self.entity,
        }
    }
}

/// The parts of a key of the given kind.
pub open spec fn parts_in(kind: KeyKind, key: Seq<u8>) -> PartsView {
    let (entity, attribute, value_type, value_reference) = kind.offsets();
    PartsView {
        entity: key.subrange(entity, entity + 64),
        attribute: key.subrange(attribute, attribute + 64),
        value_type: key[value_type],
        value_reference: key.subrange(value_reference, value_reference + 32),
    }
}

/// The parts of the keys of an artifact.
pub open spec fn parts_of(artifact: ArtifactView) -> PartsView {
    PartsView {
        entity: name_part(artifact.of),
        attribute: name_part(artifact.the),
        value_type: artifact.is.data_type(),
        value_reference: reference_of(artifact.is.bytes()),
    }
}

/// A key holds the parts that it was made of, and nothing else.
pub proof fn lemma_parts_in_key(parts: PartsView, kind: KeyKind)
    requires
        parts.valid(),
    ensures
        parts.key(kind).len() == KEY_LENGTH,
        parts.key(kind)[0] == kind.mark(),
        parts_in(kind, parts.key(kind)) == parts,
{
    assert(parts_in(kind, parts.key(kind)) =~= parts);
}

/// A key is made of its parts.
pub proof fn lemma_key_of_parts_in(kind: KeyKind, key: Seq<u8>)
    requires
        key.len() == KEY_LENGTH,
        key[0] == kind.mark(),
    ensures
        parts_in(kind, key).valid(),
        parts_in(kind, key).key(kind) == key,
{
    assert(parts_in(kind, key).key(kind) =~= key);
}

/// Keys differ where their kinds or their parts differ.
pub proof fn law_keys_are_distinct(a: PartsView, b: PartsView, j: KeyKind, k: KeyKind)
    requires
        a.valid(),
        b.valid(),
        a.key(j) == b.key(k),
    ensures
        a == b,
        j == k,
{
    lemma_parts_in_key(a, j);
    lemma_parts_in_key(b, k);
}

/// Whether one key comes before another: it is less at the first byte in which
/// they differ.
pub open spec fn before(a: Seq<u8>, b: Seq<u8>) -> bool {
    exists|i: int| first_less_at(a, b, i)
}

/// Whether `a` agrees with `b` up to the byte at `i`, and is less there.
pub open spec fn first_less_at(a: Seq<u8>, b: Seq<u8>, i: int) -> bool {
    &&& 0 <= i < a.len()
    &&& i < b.len()
    &&& a[i] < b[i]
    &&& forall|j: int| 0 <= j < i ==> a[j] == b[j]
}

/// Whether a key is in the range from `start` up to, and not with, `end`.
pub open spec fn in_range(start: Seq<u8>, end: Seq<u8>, key: Seq<u8>) -> bool {
    &&& key.len() == KEY_LENGTH
    &&& key == start || before(start, key)
    &&& before(key, end)
}

/// Of two keys of one length, the one that is nowhere greater comes first.
pub proof fn lemma_pointwise_before(a: Seq<u8>, b: Seq<u8>)
    requires
        a.len() == b.len(),
        forall|i: int| 0 <= i < a.len() ==> a[i] <= b[i],
    ensures
        a == b || before(a, b),
{
    lemma_pointwise_before_from(a, b, 0);
}

proof fn lemma_pointwise_before_from(a: Seq<u8>, b: Seq<u8>, n: int)
    requires
        a.len() == b.len(),
        0 <= n <= a.len(),
        forall|i: int| 0 <= i < a.len() ==> a[i] <= b[i],
        forall|i: int| 0 <= i < n ==> a[i] == b[i],
    ensures
        a == b || before(a, b),
    decreases a.len() - n,
{
    if n == a.len() {
        assert(a =~= b);
    } else if a[n] < b[n] {
        assert(first_less_at(a, b, n));
    } else {
        lemma_pointwise_before_from(a, b, n + 1);
    }
}

/// No key comes before itself, and of two keys at most one comes first.
pub proof fn lemma_before_asymmetric(a: Seq<u8>, b: Seq<u8>)
    requires
        before(a, b),
    ensures
        a != b,
        !before(b, a),
{
    let i = choose|i: int| first_less_at(a, b, i);
    if before(b, a) {
        let j = choose|j: int| first_less_at(b, a, j);
        assert(i < j || j < i || i == j);
    }
}

/// Keys in a range share the bytes that its ends share in front.
pub proof fn lemma_range_prefix(start: Seq<u8>, end: Seq<u8>, key: Seq<u8>, n: int)
    requires
        start.len() == KEY_LENGTH,
        end.len() == KEY_LENGTH,
        0 <= n <= KEY_LENGTH,
        forall|i: int| 0 <= i < n ==> start[i] == end[i],
        in_range(start, end, key),
    ensures
        forall|i: int| 0 <= i < n ==> key[i] == start[i],
{
    let e = choose|i: int| first_less_at(key, end, i);
    if key != start {
        let s = choose|i: int| first_less_at(start, key, i);
        if s < n {
            if e < s {
                assert(key[e] == start[e]);
                assert(false);
            } else if e > s {
                assert(key[s] == end[s]);
                assert(false);
            } else {
                assert(false);
            }
        }
        assert forall|i: int| 0 <= i < n implies key[i] == start[i] by {}
    }
}

/// Writes bytes into a key.
fn write_part(key: &mut Key, at: usize, part: &[u8])
    requires
        at + part@.len() <= KEY_LENGTH,
    ensures
        forall|i: int|
            0 <= i < KEY_LENGTH ==> #[trigger] final(key)@[i] == if at <= i < at + part@.len() {
                part@[i - at]
            } else {
                old(key)@[i]
            },
{
    let mut i: usize = 0;
    while i < part.len()
        invariant
            i <= part@.len(),
            at + part@.len() <= KEY_LENGTH,
            forall|j: int|
                0 <= j < KEY_LENGTH ==> #[trigger] key@[j] == if at <= j < at + i {
                    part@[j - at]
                } else {
                    old(key)@[j]
                },
        decreases part@.len() - i,
    {
        key[at + i] = part[i];
        i = i + 1;
    }
}

/// The 64 bytes of a key from `at` on.
fn name_in(key: &Key, at: usize) -> (part: [u8; 64])
    requires
        at + 64 <= KEY_LENGTH,
    ensures
        part@ == key@.subrange(at as int, at + 64),
{
    let mut part: [u8; 64] = [0u8; 64];
    let mut i: usize = 0;
    while i < 64
        invariant
            i <= 64,
            at + 64 <= KEY_LENGTH,
            forall|j: int| 0 <= j < i ==> part@[j] == key@[at + j],
        decreases 64 - i,
    {
        part[i] = key[at + i];
        i = i + 1;
    }
    assert(part@ =~= key@.subrange(at as int, at + 64));
    part
}

/// The 32 bytes of a key from `at` on.
fn reference_in(key: &Key, at: usize) -> (part: Blake3Hash)
    requires
        at + 32 <= KEY_LENGTH,
    ensures
        part@ == key@.subrange(at as int, at + 32),
{
    let mut part: Blake3Hash = [0u8; 32];
    let mut i: usize = 0;
    while i < 32
        invariant
            i <= 32,
            at + 32 <= KEY_LENGTH,
            forall|j: int| 0 <= j < i ==> part@[j] == key@[at + j],
        decreases 32 - i,
    {
        part[i] = key[at + i];
        i = i + 1;
    }
    assert(part@ =~= key@.subrange(at as int, at + 32));
    part
}

impl Parts {
    /// The least parts.
    pub fn min() -> (parts: Parts)
        ensures
            parts@ == PartsView::uniform(0),
    {
        let parts = Parts {
            entity: [0u8; 64],
            attribute: [0u8; 64],
            value_type: 0,
            value_reference: [0u8; 32],
        };
        assert(parts@ =~= PartsView::uniform(0));
        parts
    }

    /// The greatest parts.
    pub fn max() -> (parts: Parts)
        ensures
            parts@ == PartsView::uniform(255),
    {
        let parts = Parts {
            entity: [255u8; 64],
            attribute: [255u8; 64],
            value_type: 255,
            value_reference: [255u8; 32],
        };
        assert(parts@ =~= PartsView::uniform(255));
        parts
    }

    /// The parts of the keys of an artifact.
    pub fn of_artifact(artifact: &Artifact) -> (parts: Parts)
        ensures
            parts@ == parts_of(artifact@),
            artifact@.valid(),
    {
        Parts {
            entity: part_of_text(artifact.of.as_str()),
            attribute: part_of_text(artifact.the.as_str()),
            value_type: artifact.is.data_type(),
            value_reference: make_reference(artifact.is.to_bytes().as_slice()),
        }
    }

    /// The key of a kind that holds these parts.
    pub fn key(&self, kind: KeyKind) -> (key: Key)
        ensures
            key@ == self@.key(kind),
    {
        let mut key: Key = [0u8; 162];
        let (entity, attribute, value_type, value_reference) = kind.part_offsets();
        key[0] = kind.mark_byte();
        write_part(&mut key, entity, self.entity.as_slice());
        write_part(&mut key, attribute, self.attribute.as_slice());
        key[value_type] = self.value_type;
        write_part(&mut key, value_reference, self.value_reference.as_slice());
        assert(key@ =~= self@.key(kind));
        key
    }

    /// The parts of a key of the given kind.
    pub fn in_key(kind: KeyKind, key: &Key) -> (parts: Parts)
        ensures
            parts@ == parts_in(kind, key@),
    {
        let (entity, attribute, value_type, value_reference) = kind.part_offsets();
        Parts {
            entity: name_in(key, entity),
            attribute: name_in(key, attribute),
            value_type: key[value_type],
            value_reference: reference_in(key, value_reference),
        }
    }
}

} // verus!
