//! The names of attributes and entities, which fit into a key.
use crate::error::{DialogArtifactsError, ErrorView};
use vstd::prelude::*;
use vstd::utf8::{encode_utf8, encode_utf8_decode_utf8, encode_utf8_valid_utf8};

verus! {

/// The length of the part of a key that an attribute or an entity takes.
pub const NAME_LENGTH: usize = 64;

/// Whether a text fits into its part of a key: at most `NAME_LENGTH` bytes of
/// UTF-8, none of them zero, as zeros fill the part up.
pub open spec fn fits(text: Seq<char>) -> bool {
    let bytes = encode_utf8(text);
    &&& bytes.len() <= NAME_LENGTH
    &&& forall|i: int| 0 <= i < bytes.len() ==> bytes[i] != 0
}

/// The part of a key that a text takes: its UTF-8, filled up with zeros.
pub open spec fn name_part(text: Seq<char>) -> Seq<u8> {
    let bytes = encode_utf8(text);
    Seq::new(NAME_LENGTH as nat, |i: int| if i < bytes.len() { bytes[i] } else { 0u8 })
}

/// Texts that fit differ in their parts where they differ.
pub proof fn lemma_name_part_injective(a: Seq<char>, b: Seq<char>)
    requires
        fits(a),
        fits(b),
        name_part(a) == name_part(b),
    ensures
        a == b,
{
    let x = encode_utf8(a);
    let y = encode_utf8(b);
    if x.len() < y.len() {
        assert(name_part(a)[x.len() as int] == 0);
        assert(name_part(b)[x.len() as int] == y[x.len() as int]);
    }
    if y.len() < x.len() {
        assert(name_part(b)[y.len() as int] == 0);
        assert(name_part(a)[y.len() as int] == x[y.len() as int]);
    }
    assert forall|i: int| 0 <= i < x.len() implies x[i] == y[i] by {
        assert(name_part(a)[i] == x[i]);
        assert(name_part(b)[i] == y[i]);
    }
    assert(x =~= y);
    encode_utf8_decode_utf8(a);
    encode_utf8_decode_utf8(b);
}

/// The part of a name starts with a byte below the greatest one.
pub proof fn lemma_name_part_below_max(text: Seq<char>)
    ensures
        name_part(text)[0] < 255,
{
    let bytes = encode_utf8(text);
    if bytes.len() > 0 {
        encode_utf8_valid_utf8(text);
        vstd::utf8::utf8_byte_ranges_bitwise(bytes[0]);
    }
}

/// Whether a text fits into its part of a key.
pub fn fits_text(text: &str) -> (ok: bool)
    ensures
        ok == fits(text@),
{
    let bytes = text.as_bytes();
    if bytes.len() > NAME_LENGTH {
        return false;
    }
    let mut i: usize = 0;
    while i < bytes.len()
        invariant
            bytes@ == encode_utf8(text@),
            i <= bytes@.len() <= NAME_LENGTH,
            forall|j: int| 0 <= j < i ==> bytes@[j] != 0,
        decreases bytes@.len() - i,
    {
        if bytes[i] == 0 {
            return false;
        }
        i = i + 1;
    }
    true
}

/// The part of a key that a text takes.
pub fn part_of_text(text: &str) -> (part: [u8; 64])
    requires
        fits(text@),
    ensures
        part@ == name_part(text@),
{
    let bytes = text.as_bytes();
    let mut part: [u8; 64] = [0u8; 64];
    let mut i: usize = 0;
    while i < bytes.len()
        invariant
            bytes@ == encode_utf8(text@),
            i <= bytes@.len() <= NAME_LENGTH,
            forall|j: int| 0 <= j < 64 ==> part@[j] == if j < i { bytes@[j] } else { 0u8 },
        decreases bytes@.len() - i,
    {
        part[i] = bytes[i];
        i = i + 1;
    }
    assert(part@ =~= name_part(text@));
    part
}

/// The name of an attribute.
#[derive(Debug, PartialEq, Eq)]
pub struct Attribute {
    text: String,
}

impl View for Attribute {
    type V = Seq<char>;

    closed spec fn view(&self) -> Seq<char> {
        self.text@
    }
}

impl Attribute {
    #[verifier::type_invariant]
    spec fn valid(self) -> bool {
        fits(self.text@)
    }

    /// The attribute with the given name, if the name fits.
    pub fn parse(text: &str) -> (attribute: Result<Attribute, DialogArtifactsError>)
        ensures
            match attribute {
                Ok(attribute) => fits(text@) && attribute@ == text@,
                Err(error) => !fits(text@) && error@ == ErrorView::InvalidAttribute(text@),
            },
    {
        if fits_text(text) {
            Ok(Attribute { text: text.to_owned() })
        } else {
            Err(DialogArtifactsError::InvalidAttribute(text.to_owned()))
        }
    }

    /// The name.
    pub fn as_str(&self) -> (text: &str)
        ensures
            text@ == self@,
            fits(text@),
    {
        proof {
            use_type_invariant(self);
        }
        self.text.as_str()
    }
}

impl Clone for Attribute {
    fn clone(&self) -> (copy: Self)
        ensures
            copy@ == self@,
    {
        proof {
            use_type_invariant(self);
        }
        Attribute { text: self.text.clone() }
    }
}

/// The name of an entity.
#[derive(Debug, PartialEq, Eq)]
pub struct Entity {
    text: String,
}

impl View for Entity {
    type V = Seq<char>;

    closed spec fn view(&self) -> Seq<char> {
        self.text@
    }
}

impl Entity {
    #[verifier::type_invariant]
    spec fn valid(self) -> bool {
        fits(self.text@)
    }

    /// The entity with the given name, if the name fits.
    pub fn parse(text: &str) -> (entity: Result<Entity, DialogArtifactsError>)
        ensures
            match entity {
                Ok(entity) => fits(text@) && entity@ == text@,
                Err(error) => !fits(text@) && error@ == ErrorView::InvalidEntity(text@),
            },
    {
        if fits_text(text) {
            Ok(Entity { text: text.to_owned() })
        } else {
            Err(DialogArtifactsError::InvalidEntity(text.to_owned()))
        }
    }

    /// The name.
    pub fn as_str(&self) -> (text: &str)
        ensures
            text@ == self@,
            fits(text@),
    {
        proof {
            use_type_invariant(self);
        }
        self.text.as_str()
    }
}

impl Clone for Entity {
    fn clone(&self) -> (copy: Self)
        ensures
            copy@ == self@,
    {
        proof {
            use_type_invariant(self);
        }
        Entity { text: self.text.clone() }
    }
}

} // verus!
