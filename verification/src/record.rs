//! Artifacts as records of text, in the order of attribute, entity, value and
//! cause.
use crate::artifact::{Artifact, ArtifactView, Cause};
use crate::name::{fits, Attribute, Entity};
use crate::reference::{Blake3Hash, HASH_SIZE};
use crate::text::{
    chars_of, decimal, decimal_text, decimal_value, lemma_decimal_value, number_in,
};
use crate::value::{Value, ValueView};
use vstd::prelude::*;

verus! {

/// An artifact as a record of text.
#[derive(Debug, PartialEq, Eq)]
pub struct Record {
    pub the: String,
    pub of: String,
    pub is: String,
    pub cause: Option<String>,
}

/// What a record says.
pub struct RecordView {
    pub the: Seq<char>,
    pub of: Seq<char>,
    pub is: Seq<char>,
    pub cause: Option<Seq<char>>,
}

impl View for Record {
    type V = RecordView;

    open spec fn view(&self) -> RecordView {
        RecordView {
            the: self.the@,
            of: self.of@,
            is: self.is@,
            cause: match self.cause {
                Some(cause) => Some(cause@),
                None => None,
            },
        }
    }
}

/// The text of a value: `true` or `false`, a decimal numeral, or an apostrophe and
/// the text itself.
pub open spec fn text_of_value(value: ValueView) -> Seq<char> {
    match value {
        ValueView::Boolean(flag) => if flag {
            "true"@
        } else {
            "false"@
        },
        ValueView::String(text) => seq!['\''] + text,
        ValueView::UnsignedInt(number) => decimal(number as nat),
    }
}

/// The value that a text stands for, if there is one.
pub open spec fn value_of_text(text: Seq<char>) -> Option<ValueView> {
    if text == "true"@ {
        Some(ValueView::Boolean(true))
    } else if text == "false"@ {
        Some(ValueView::Boolean(false))
    } else if text.len() > 0 && text[0] == '\'' {
        Some(ValueView::String(text.drop_first()))
    } else {
        match decimal_value(text) {
            Some(number) => if number <= u128::MAX {
                Some(ValueView::UnsignedInt(number as u128))
            } else {
                None
            },
            None => None,
        }
    }
}

/// The text of a value stands for that value.
proof fn lemma_value_of_its_text(value: ValueView)
    ensures
        value_of_text(text_of_value(value)) == Some(value),
{
    reveal_strlit("true");
    reveal_strlit("false");
    let text = text_of_value(value);
    match value {
        ValueView::Boolean(flag) => {
            assert("true"@.len() != "false"@.len());
        },
        ValueView::String(inner) => {
            assert(text[0] == '\'');
            assert(text.drop_first() =~= inner);
        },
        ValueView::UnsignedInt(number) => {
            lemma_decimal_value(number as nat);
            assert('0' <= text[0] <= '9');
        },
    }
}

/// The hexadecimal digit of a number.
pub open spec fn hex_digit(n: nat) -> char
    recommends
        n < 16,
{
    if n < 10 {
        (48 + n) as char
    } else {
        (87 + n) as char
    }
}

/// The number that a hexadecimal digit stands for, if it is one.
pub open spec fn hex_value(c: char) -> Option<nat> {
    if '0' <= c <= '9' {
        Some((c as int - 48) as nat)
    } else if 'a' <= c <= 'f' {
        Some((c as int - 87) as nat)
    } else {
        None
    }
}

/// Bytes as hexadecimal digits, two for each.
pub open spec fn hex_text(bytes: Seq<u8>) -> Seq<char> {
    Seq::new(
        2 * bytes.len(),
        |i: int|
            hex_digit(
                if i % 2 == 0 {
                    (bytes[i / 2] / 16) as nat
                } else {
                    (bytes[i / 2] % 16) as nat
                },
            ),
    )
}

/// The reference that hexadecimal digits stand for, if there are as many as one has.
pub open spec fn reference_in_hex(text: Seq<char>) -> Option<Seq<u8>> {
    if text.len() == 2 * HASH_SIZE && forall|i: int|
        0 <= i < text.len() ==> hex_value(#[trigger] text[i]) is Some {
        Some(
            Seq::new(
                HASH_SIZE as nat,
                |i: int| (hex_value(text[2 * i])->0 * 16 + hex_value(text[2 * i + 1])->0) as u8,
            ),
        )
    } else {
        None
    }
}

proof fn lemma_reference_in_hex(reference: Seq<u8>)
    requires
        reference.len() == HASH_SIZE,
    ensures
        reference_in_hex(hex_text(reference)) == Some(reference),
{
    let text = hex_text(reference);
    assert forall|i: int| 0 <= i < text.len() implies hex_value(#[trigger] text[i]) == Some(
        if i % 2 == 0 {
            (reference[i / 2] / 16) as nat
        } else {
            (reference[i / 2] % 16) as nat
        },
    ) by {}
    assert forall|i: int| 0 <= i < reference.len() implies reference_in_hex(text)->0[i]
        == reference[i] by {
        assert(hex_value(text[2 * i]) == Some((reference[i] / 16) as nat));
        assert(hex_value(text[2 * i + 1]) == Some((reference[i] % 16) as nat));
    }
    assert(reference_in_hex(text)->0 =~= reference);
}

/// The record of an artifact.
pub open spec fn record_of(artifact: ArtifactView) -> RecordView {
    RecordView {
        the: artifact.the,
        of: artifact.of,
        is: text_of_value(artifact.is),
        cause: match artifact.cause {
            Some(cause) => Some(hex_text(cause)),
            None => None,
        },
    }
}

/// The artifact that a record stands for, or what is wrong with the record.
pub open spec fn artifact_in(record: RecordView) -> Result<ArtifactView, Seq<char>> {
    if !fits(record.the) {
        Err("invalid attribute: "@ + record.the)
    } else if !fits(record.of) {
        Err("invalid entity: "@ + record.of)
    } else {
        match (value_of_text(record.is), record.cause) {
            (None, _) => Err("invalid value: "@ + record.is),
            (Some(is), None) => Ok(
                ArtifactView { the: record.the, of: record.of, is, cause: None },
            ),
            (Some(is), Some(cause)) => match reference_in_hex(cause) {
                Some(reference) => Ok(
                    ArtifactView { the: record.the, of: record.of, is, cause: Some(reference) },
                ),
                None => Err("invalid cause: "@ + cause),
            },
        }
    }
}

/// What is read back of an artifact's record is that artifact.
pub proof fn law_artifact_of_its_record(artifact: ArtifactView)
    requires
        artifact.valid(),
    ensures
        artifact_in(record_of(artifact)) == Ok::<ArtifactView, Seq<char>>(artifact),
{
    lemma_value_of_its_text(artifact.is);
    if let Some(cause) = artifact.cause {
        lemma_reference_in_hex(cause);
    }
}

/// What is read of a record is an artifact that can be stored.
pub proof fn law_artifact_in_record_is_valid(record: RecordView)
    ensures
        artifact_in(record) matches Ok(artifact) ==> artifact.valid(),
{
}

/// The hexadecimal digit of a number.
fn make_hex_digit(n: u8) -> (c: char)
    requires
        n < 16,
    ensures
        c == hex_digit(n as nat),
{
    if n < 10 {
        (48 + n) as char
    } else {
        (87 + n) as char
    }
}

/// The number that a hexadecimal digit stands for, if it is one.
fn read_hex_digit(c: char) -> (value: Option<u8>)
    ensures
        match value {
            Some(value) => hex_value(c) == Some(value as nat) && value < 16,
            None => hex_value(c) is None,
        },
{
    if '0' <= c && c <= '9' {
        Some((c as u32 - 48) as u8)
    } else if 'a' <= c && c <= 'f' {
        Some((c as u32 - 87) as u8)
    } else {
        None
    }
}

/// A reference as hexadecimal digits.
fn make_hex_text(reference: &Blake3Hash) -> (text: String)
    ensures
        text@ == hex_text(reference@),
{
    let mut text = String::new();
    let mut i: usize = 0;
    while i < HASH_SIZE
        invariant
            i <= HASH_SIZE,
            reference@.len() == HASH_SIZE,
            text@ == hex_text(reference@).take(2 * i),
        decreases HASH_SIZE - i,
    {
        let byte: u8 = reference[i];
        text.push(make_hex_digit(byte / 16));
        text.push(make_hex_digit(byte % 16));
        i = i + 1;
        assert(text@ =~= hex_text(reference@).take(2 * i));
    }
    assert(text@ =~= hex_text(reference@));
    text
}

/// The reference that hexadecimal digits stand for, if there are as many as one has.
fn read_hex_text(text: &str) -> (reference: Option<Blake3Hash>)
    ensures
        match reference {
            Some(reference) => reference_in_hex(text@) == Some(reference@),
            None => reference_in_hex(text@) is None,
        },
{
    let chars = chars_of(text);
    if chars.len() != 2 * HASH_SIZE {
        return None;
    }
    let mut reference: Blake3Hash = [0u8; 32];
    let mut i: usize = 0;
    while i < HASH_SIZE
        invariant
            i <= HASH_SIZE,
            chars@ == text@,
            chars@.len() == 2 * HASH_SIZE,
            forall|j: int| 0 <= j < 2 * i ==> hex_value(#[trigger] chars@[j]) is Some,
            forall|j: int|
                0 <= j < i ==> reference@[j] == (hex_value(chars@[2 * j])->0 * 16 + hex_value(
                    chars@[2 * j + 1],
                )->0) as u8,
        decreases HASH_SIZE - i,
    {
        match (read_hex_digit(chars[2 * i]), read_hex_digit(chars[2 * i + 1])) {
            (Some(high), Some(low)) => {
                reference[i] = high * 16 + low;
            },
            _ => {
                assert(hex_value(text@[2 * i as int]) is None || hex_value(
                    text@[2 * i + 1],
                ) is None);
                return None;
            },
        }
        i = i + 1;
    }
    assert(reference@ =~= reference_in_hex(text@)->0);
    Some(reference)
}

/// The text of a value.
fn make_value_text(value: &Value) -> (text: String)
    ensures
        text@ == text_of_value(value@),
{
    match value {
        Value::Boolean(flag) => if *flag {
            "true".to_owned()
        } else {
            "false".to_owned()
        },
        Value::String(text) => {
            let mut shown = String::new();
            shown.push('\'');
            let shown = shown.concat(text.as_str());
            assert(shown@ =~= seq!['\''] + text@);
            shown
        },
        Value::UnsignedInt(number) => decimal_text(*number),
    }
}

/// The value that a text stands for, if there is one.
fn read_value_text(text: &str) -> (value: Option<Value>)
    ensures
        match value {
            Some(value) => value_of_text(text@) == Some(value@),
            None => value_of_text(text@) is None,
        },
{
    proof {
        reveal_strlit("true");
        reveal_strlit("false");
    }
    let chars = chars_of(text);
    let n: usize = chars.len();
    if n == 4 && chars[0] == 't' && chars[1] == 'r' && chars[2] == 'u' && chars[3] == 'e' {
        assert(text@ =~= "true"@);
        return Some(Value::Boolean(true));
    }
    assert(text@ != "true"@);
    if n == 5 && chars[0] == 'f' && chars[1] == 'a' && chars[2] == 'l' && chars[3] == 's'
        && chars[4] == 'e' {
        assert(text@ =~= "false"@);
        return Some(Value::Boolean(false));
    }
    assert(text@ != "false"@);
    if n > 0 && chars[0] == '\'' {
        let inner = text.substring_char(1, n).to_owned();
        assert(inner@ =~= text@.drop_first());
        return Some(Value::String(inner));
    }
    match number_in(&chars) {
        Some(number) => Some(Value::UnsignedInt(number)),
        None => None,
    }
}

impl Record {
    /// The record of an artifact.
    pub fn of_artifact(artifact: &Artifact) -> (record: Record)
        ensures
            record@ == record_of(artifact@),
    {
        Record {
            the: artifact.the.as_str().to_owned(),
            of: artifact.of.as_str().to_owned(),
            is: make_value_text(&artifact.is),
            cause: match &artifact.cause {
                Some(cause) => Some(make_hex_text(&cause.0)),
                None => None,
            },
        }
    }

    /// The artifact that the record stands for, or what is wrong with the record.
    pub fn artifact(&self) -> (artifact: Result<Artifact, String>)
        ensures
            match artifact {
                Ok(artifact) => artifact_in(self@) == Ok::<ArtifactView, Seq<char>>(artifact@),
                Err(message) => artifact_in(self@) == Err::<ArtifactView, Seq<char>>(message@),
            },
    {
        let the = match Attribute::parse(self.the.as_str()) {
            Ok(the) => the,
            Err(_) => {
                return Err(refusal("invalid attribute: ", self.the.as_str()));
            },
        };
        let of = match Entity::parse(self.of.as_str()) {
            Ok(of) => of,
            Err(_) => {
                return Err(refusal("invalid entity: ", self.of.as_str()));
            },
        };
        let is = match read_value_text(self.is.as_str()) {
            Some(is) => is,
            None => {
                return Err(refusal("invalid value: ", self.is.as_str()));
            },
        };
        let cause = match &self.cause {
            Some(text) => match read_hex_text(text.as_str()) {
                Some(reference) => Some(Cause(reference)),
                None => {
                    return Err(refusal("invalid cause: ", text.as_str()));
                },
            },
            None => None,
        };
        Ok(Artifact { the, of, is, cause })
    }
}

/// A message about a text.
fn refusal(message: &str, text: &str) -> (shown: String)
    ensures
        shown@ == message@ + text@,
{
    message.to_owned().concat(text)
}

} // verus!
