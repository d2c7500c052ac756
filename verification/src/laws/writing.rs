//! What is written of artifacts, and of what went wrong.
use crate::artifact::ArtifactView;
use crate::error::ErrorView;
use crate::name::fits;
use crate::record::{
    artifact_in, hex_digit, hex_text, hex_value, law_artifact_in_record_is_valid, record_of,
    reference_in_hex, text_of_value, value_of_text, RecordView,
};
use crate::reference::base58_text;
use crate::reset::{no_such_revision, revision_in_block};
use crate::text::{decimal, decimal_value, digit, lemma_decimal_value, number_of_digits};
use crate::value::ValueView;
use vstd::arithmetic::power::{lemma_pow0, lemma_pow1, lemma_pow_adds, pow};
use vstd::prelude::*;

verus! {

/// The number that a text spells where each character is worth its place among the
/// digits, times ten for each character that follows.
pub open spec fn spelled(text: Seq<char>) -> int
    decreases text.len(),
{
    if text.len() == 0 {
        0
    } else {
        (text[0] as int - '0' as int) * pow(10, (text.len() - 1) as nat) + spelled(
            text.drop_first(),
        )
    }
}

/// Whether a text is a decimal numeral.
pub open spec fn is_numeral(text: Seq<char>) -> bool {
    &&& text.len() > 0
    &&& forall|i: int| 0 <= i < text.len() ==> '0' <= #[trigger] text[i] <= '9'
}

/// A last digit adds itself to ten times what is spelled before it.
proof fn lemma_spelled_last(text: Seq<char>)
    requires
        text.len() > 0,
    ensures
        spelled(text) == spelled(text.drop_last()) * 10 + (text.last() as int - '0' as int),
    decreases text.len(),
{
    if text.len() == 1 {
        lemma_pow0(10);
        assert(text.drop_last().len() == 0);
        assert(text.drop_first().len() == 0);
        assert(spelled(text.drop_last()) == 0);
        assert(spelled(text.drop_first()) == 0);
    } else {
        let rest = text.drop_first();
        let front = text.drop_last();
        let n = (text.len() - 2) as nat;
        lemma_spelled_last(rest);
        assert(rest.drop_last() =~= front.drop_first());
        assert(rest.last() == text.last());
        lemma_pow_adds(10, n, 1);
        lemma_pow1(10);
        let d = text[0] as int - '0' as int;
        let p = pow(10, n);
        assert(pow(10, n + 1) == p * 10);
        assert(d * (p * 10) == d * p * 10) by (nonlinear_arith);
        assert((d * p + spelled(front.drop_first())) * 10 == d * p * 10 + spelled(
            front.drop_first(),
        ) * 10) by (nonlinear_arith);
        assert(spelled(front) == d * p + spelled(front.drop_first()));
    }
}

proof fn lemma_spelled(text: Seq<char>)
    requires
        forall|i: int| 0 <= i < text.len() ==> '0' <= #[trigger] text[i] <= '9',
    ensures
        spelled(text) == number_of_digits(text),
    decreases text.len(),
{
    if text.len() > 0 {
        lemma_spelled_last(text);
        let front = text.drop_last();
        assert forall|i: int| 0 <= i < front.len() implies '0' <= #[trigger] front[i] <= '9' by {
            assert(front[i] == text[i]);
        }
        lemma_spelled(front);
        assert('0' <= text[text.len() - 1] <= '9');
    }
}

/// A number is written as the decimal numeral that spells it, with no zero in front but
/// for zero itself.
pub proof fn law_numeral_spells_its_number(n: nat)
    ensures
        is_numeral(decimal(n)),
        spelled(decimal(n)) == n,
        decimal(n).len() > 1 ==> decimal(n)[0] != '0',
    decreases n,
{
    lemma_decimal_value(n);
    lemma_spelled(decimal(n));
    if n >= 10 {
        law_numeral_spells_its_number(n / 10);
        assert(decimal(n)[0] == decimal(n / 10)[0]);
        if n < 100 {
            assert(decimal(n / 10) == seq![digit(n / 10)]);
            assert(digit(n / 10) as int == 48 + n / 10);
        } else {
            lemma_decimal_value((n / 10) / 10);
            assert(decimal(n / 10).len() > 1);
        }
    }
}

/// Whether a text says a value: `true` or `false`, an apostrophe and the text, or a
/// decimal numeral.
pub open spec fn says_value(text: Seq<char>, value: ValueView) -> bool {
    match value {
        ValueView::Boolean(true) => text == "true"@,
        ValueView::Boolean(false) => text == "false"@,
        ValueView::String(inner) => text == seq!['\''] + inner,
        ValueView::UnsignedInt(number) => is_numeral(text) && spelled(text) == number,
    }
}

/// Whether a text says a reference: two hexadecimal digits for each byte.
pub open spec fn says_reference(text: Seq<char>, reference: Seq<u8>) -> bool {
    &&& text.len() == 2 * reference.len()
    &&& forall|i: int|
        0 <= i < reference.len() ==> text[2 * i] == "0123456789abcdef"@[#[trigger] reference[i] as int
            / 16] && text[2 * i + 1] == "0123456789abcdef"@[reference[i] as int % 16]
}

/// Whether a record says the same as an artifact: the attribute, the entity, the value
/// and the cause, each in its own column.
pub open spec fn says(record: RecordView, artifact: ArtifactView) -> bool {
    &&& record.the == artifact.the
    &&& record.of == artifact.of
    &&& says_value(record.is, artifact.is)
    &&& match (record.cause, artifact.cause) {
        (Some(text), Some(reference)) => says_reference(text, reference),
        (None, None) => true,
        _ => false,
    }
}

proof fn lemma_hex_digits(n: nat)
    requires
        n < 16,
    ensures
        "0123456789abcdef"@[n as int] == hex_digit(n),
        hex_value(hex_digit(n)) == Some(n),
{
    reveal_strlit("0123456789abcdef");
    assert(hex_digit(n) as int == if n < 10 {
        48 + n
    } else {
        87 + n
    });
}

/// A digit that has a value is the digit of that value.
proof fn lemma_hex_value(c: char)
    requires
        hex_value(c) is Some,
    ensures
        hex_value(c)->0 < 16,
        hex_digit(hex_value(c)->0) == c,
{
}

proof fn lemma_says_reference(text: Seq<char>, reference: Seq<u8>)
    ensures
        says_reference(text, reference) <==> text == hex_text(reference),
{
    let made = hex_text(reference);
    assert forall|i: int| 0 <= i < reference.len() implies made[2 * i]
        == "0123456789abcdef"@[#[trigger] reference[i] as int / 16] && made[2 * i + 1]
        == "0123456789abcdef"@[reference[i] as int % 16] by {
        lemma_hex_digits((reference[i] / 16) as nat);
        lemma_hex_digits((reference[i] % 16) as nat);
    }
    if says_reference(text, reference) {
        assert forall|j: int| 0 <= j < made.len() implies text[j] == made[j] by {
            let i = j / 2;
            assert(0 <= i < reference.len());
            assert(reference[i] == reference[i]);
            assert(j == 2 * i || j == 2 * i + 1);
        }
        assert(text =~= made);
    }
}

/// What is read of hexadecimal digits are the bytes that these write.
proof fn lemma_read_hex(text: Seq<char>)
    ensures
        reference_in_hex(text) matches Some(reference) ==> reference.len() == 32 && hex_text(
            reference,
        ) == text,
{
    if let Some(reference) = reference_in_hex(text) {
        assert forall|j: int| 0 <= j < text.len() implies hex_text(reference)[j] == text[j] by {
            let i = j / 2;
            assert(j == 2 * i || j == 2 * i + 1);
            lemma_hex_value(text[2 * i]);
            lemma_hex_value(text[2 * i + 1]);
            let high = hex_value(text[2 * i])->0;
            let low = hex_value(text[2 * i + 1])->0;
            assert(reference[i] == high * 16 + low);
            assert((high * 16 + low) / 16 == high && (high * 16 + low) % 16 == low);
        }
        assert(hex_text(reference) =~= text);
    }
}

/// The text of a value says it, and a text stands for the value that it says.
proof fn lemma_says_value(text: Seq<char>, value: ValueView)
    ensures
        says_value(text_of_value(value), value),
        says_value(text, value) <==> value_of_text(text) == Some(value),
{
    reveal_strlit("true");
    reveal_strlit("false");
    if let ValueView::UnsignedInt(number) = value {
        law_numeral_spells_its_number(number as nat);
    }
    if decimal_value(text) is Some {
        lemma_spelled(text);
        assert('0' <= text[0] <= '9');
    }
    if is_numeral(text) {
        assert('0' <= text[0] <= '9');
        assert(decimal_value(text) is Some);
    }
    if says_value(text, value) {
        if let ValueView::String(inner) = value {
            assert(text[0] == '\'');
            assert(text.drop_first() =~= inner);
        }
    }
    if let Some(ValueView::String(inner)) = value_of_text(text) {
        assert(text =~= seq!['\''] + inner);
    }
    assert("true"@.len() != "false"@.len());
}

/// The record of an artifact says what the artifact says, column by column, and a
/// number in it has no zero in front but for zero itself.
pub proof fn law_record_says_what_the_artifact_says(artifact: ArtifactView)
    requires
        artifact.valid(),
    ensures
        says(record_of(artifact), artifact),
        artifact.is is UnsignedInt && record_of(artifact).is.len() > 1 ==> record_of(artifact).is[0]
            != '0',
{
    lemma_says_value(record_of(artifact).is, artifact.is);
    if let Some(cause) = artifact.cause {
        lemma_says_reference(hex_text(cause), cause);
    }
    if let ValueView::UnsignedInt(number) = artifact.is {
        law_numeral_spells_its_number(number as nat);
    }
}

/// A record stands for the artifact that it says, column by column, and for no other;
/// where it says none, it is refused.
pub proof fn law_record_stands_for_what_it_says(record: RecordView, artifact: ArtifactView)
    ensures
        artifact_in(record) == Ok::<ArtifactView, Seq<char>>(artifact) <==> artifact.valid()
            && says(record, artifact),
{
    law_artifact_in_record_is_valid(record);
    lemma_says_value(record.is, artifact.is);
    if let (Some(text), Some(reference)) = (record.cause, artifact.cause) {
        lemma_says_reference(text, reference);
        lemma_read_hex(text);
        if artifact.valid() && says(record, artifact) {
            lemma_hex_of(reference);
        }
    }
}

/// A reference is read of its hexadecimal digits.
proof fn lemma_hex_of(reference: Seq<u8>)
    requires
        reference.len() == 32,
    ensures
        reference_in_hex(hex_text(reference)) == Some(reference),
{
    let text = hex_text(reference);
    assert forall|j: int| 0 <= j < text.len() implies hex_value(#[trigger] text[j]) is Some by {
        let i = j / 2;
        lemma_hex_digits((reference[i] / 16) as nat);
        lemma_hex_digits((reference[i] % 16) as nat);
    }
    assert forall|i: int| 0 <= i < 32 implies reference_in_hex(text)->0[i] == reference[i] by {
        lemma_hex_digits((reference[i] / 16) as nat);
        lemma_hex_digits((reference[i] % 16) as nat);
        assert(text[2 * i] == hex_digit((reference[i] / 16) as nat));
        assert(text[2 * i + 1] == hex_digit((reference[i] % 16) as nat));
    }
    assert(reference_in_hex(text)->0 =~= reference);
}

/// A record that is refused is refused for the first column that is wrong, which the
/// message shows.
pub proof fn law_refusal_shows_what_is_wrong(record: RecordView)
    ensures
        artifact_in(record) matches Err(message) ==> {
            ||| message == "invalid attribute: "@ + record.the && !fits(record.the)
            ||| message == "invalid entity: "@ + record.of && !fits(record.of)
                && fits(record.the)
            ||| message == "invalid value: "@ + record.is && fits(record.the)
                && fits(record.of) && forall|value: ValueView| !(#[trigger] says_value(
                record.is,
                value,
            ))
            ||| record.cause matches Some(cause) && message == "invalid cause: "@ + cause
                && fits(record.the) && fits(record.of)
                && forall|reference: Seq<u8>|
                reference.len() == 32 ==> !(#[trigger] says_reference(cause, reference))
        },
{
    if let Some(cause) = record.cause {
        assert forall|reference: Seq<u8>|
            reference.len() == 32 && reference_in_hex(cause) is None implies !(
        #[trigger] says_reference(cause, reference)) by {
            lemma_says_reference(cause, reference);
            lemma_hex_of(reference);
        }
    }
    if value_of_text(record.is) is None {
        assert forall|value: ValueView| !(#[trigger] says_value(record.is, value)) by {
            lemma_says_value(record.is, value);
        }
    }
}

/// A block names a revision exactly where it has 32 bytes, and then these are the
/// revision. Else the error says how many bytes it has.
pub proof fn law_block_names_a_revision(block: Seq<u8>)
    ensures
        match revision_in_block(block) {
            Ok(revision) => revision == block && block.len() == 32,
            Err(ErrorView::InvalidRevision(message)) => block.len() != 32 && exists|
                numeral: Seq<char>,
            | #[trigger]
                is_numeral(numeral) && spelled(numeral) == block.len() && message
                    == "Incorrect byte length (expected 32, received "@ + numeral + ")"@,
            Err(_) => false,
        },
{
    law_numeral_spells_its_number(block.len());
    assert(is_numeral(decimal(block.len())));
}

/// The error for a revision that is not stored shows its reference.
pub proof fn law_missing_revision_is_shown(reference: Seq<u8>)
    ensures
        no_such_revision(reference) == ErrorView::InvalidRevision(
            "Block ("@ + base58_text(reference) + ") not found in storage"@,
        ),
{
}

} // verus!
