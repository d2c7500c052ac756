//! References: the 32-byte hashes under which blocks are stored.
use base58::ToBase58;
use vstd::prelude::*;

verus! {

/// The length of a reference, in bytes.
pub const HASH_SIZE: usize = 32;

/// A reference to a block.
pub type Blake3Hash = [u8; 32];

/// The revision of a store that holds nothing.
pub const NULL_REVISION_HASH: Blake3Hash = [
    0, 0, 0, 0, 0, 0, 0, 0, 0, 0, 0, 0, 0, 0, 0, 0,
    0, 0, 0, 0, 0, 0, 0, 0, 0, 0, 0, 0, 0, 0, 0, 0,
];

/// The Blake3 hash of a sequence of bytes.
pub uninterp spec fn blake3_hash(bytes: Seq<u8>) -> Seq<u8>;

/// `blake3::hash` returns a 32-byte hash that depends on the bytes alone:
/// `blake3_hash` is the name for it.
#[verifier::external_body]
fn blake3_of(bytes: &[u8]) -> (hash: Blake3Hash)
    ensures
        hash@ == blake3_hash(bytes@),
{
    blake3::hash(bytes).into()
}

/// The reference of some bytes: the 32 bytes of their hash.
pub open spec fn reference_of(bytes: Seq<u8>) -> Seq<u8> {
    Seq::new(HASH_SIZE as nat, |i: int| blake3_hash(bytes)[i])
}

/// The reference of some bytes.
pub fn make_reference(bytes: &[u8]) -> (reference: Blake3Hash)
    ensures
        reference@ == reference_of(bytes@),
        reference@ == blake3_hash(bytes@),
{
    let reference = blake3_of(bytes);
    assert(reference@ =~= reference_of(bytes@));
    reference
}

/// The number that bytes spell in base 256, most significant first.
pub open spec fn number(bytes: Seq<u8>) -> nat
    decreases bytes.len(),
{
    if bytes.len() == 0 {
        0
    } else {
        number(bytes.drop_last()) * 256 + bytes.last() as nat
    }
}

/// How many zero bytes there are in front.
pub open spec fn leading_zeros(bytes: Seq<u8>) -> nat
    decreases bytes.len(),
{
    if bytes.len() > 0 && bytes[0] == 0 {
        1 + leading_zeros(bytes.drop_first())
    } else {
        0
    }
}

/// The numeral of `n` in base 58, without leading zeros; nothing for zero.
pub open spec fn base58_numeral(n: nat) -> Seq<char>
    decreases n,
{
    if n == 0 {
        Seq::empty()
    } else {
        base58_numeral(n / 58).push(
            "123456789ABCDEFGHJKLMNPQRSTUVWXYZabcdefghijkmnopqrstuvwxyz"@[(n % 58) as int],
        )
    }
}

/// Bytes in base 58: a `1` for each zero byte in front, then the numeral of the
/// number that the bytes spell.
pub open spec fn base58_text(bytes: Seq<u8>) -> Seq<char> {
    Seq::new(leading_zeros(bytes), |i: int| '1') + base58_numeral(number(bytes))
}

/// `ToBase58::to_base58` writes a reference in base 58. Its contract covers
/// references only: the outside function is not meant for long inputs.
#[verifier::external_body]
pub(crate) fn reference_in_base58(reference: &Blake3Hash) -> (text: String)
    ensures
        text@ == base58_text(reference@),
{
    reference.to_base58()
}

/// Whether two byte strings are equal.
pub fn same_bytes(a: &[u8], b: &[u8]) -> (same: bool)
    ensures
        same == (a@ == b@),
{
    if a.len() != b.len() {
        return false;
    }
    let mut i: usize = 0;
    while i < a.len()
        invariant
            a@.len() == b@.len(),
            i <= a@.len(),
            forall|j: int| 0 <= j < i ==> a@[j] == b@[j],
        decreases a@.len() - i,
    {
        if a[i] != b[i] {
            assert(a@[i as int] != b@[i as int]);
            return false;
        }
        i = i + 1;
    }
    assert(a@ =~= b@);
    true
}

/// The reference that a block spells, if the block is as long as one.
pub fn reference_of_bytes(bytes: &[u8]) -> (reference: Option<Blake3Hash>)
    ensures
        reference is Some <==> bytes@.len() == HASH_SIZE,
        reference matches Some(reference) ==> reference@ == bytes@,
{
    if bytes.len() != HASH_SIZE {
        return None;
    }
    let mut reference: Blake3Hash = [0u8; 32];
    let mut i: usize = 0;
    while i < HASH_SIZE
        invariant
            i <= HASH_SIZE,
            bytes@.len() == HASH_SIZE,
            forall|j: int| 0 <= j < i ==> reference@[j] == bytes@[j],
        decreases HASH_SIZE - i,
    {
        reference[i] = bytes[i];
        i = i + 1;
    }
    assert(reference@ =~= bytes@);
    Some(reference)
}

} // verus!
