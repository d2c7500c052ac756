//! Text: decimal numerals, and the operations of `String` that the library
//! needs.
use vstd::prelude::*;
use vstd::utf8::{decode_utf8, valid_utf8};

verus! {

/// `String::push` appends its character to the end of the string.
pub assume_specification[ std::string::String::push ](text: &mut std::string::String, c: char)
    ensures
        final(text)@ == old(text)@.push(c),
;

/// `String::from_utf8` gives the text that the bytes encode, exactly when they
/// are well-formed UTF-8; here its error is dropped.
#[verifier::external_body]
pub(crate) fn text_of_utf8(bytes: Vec<u8>) -> (text: Option<String>)
    ensures
        text is Some <==> valid_utf8(bytes@),
        text matches Some(text) ==> text@ == decode_utf8(bytes@),
{
    String::from_utf8(bytes).ok()
}

/// The character of a decimal digit.
pub open spec fn digit(n: nat) -> char
    recommends
        n < 10,
{
    (48 + n) as char
}

/// The decimal numeral of `n`, without leading zeros.
pub open spec fn decimal(n: nat) -> Seq<char>
    decreases n,
{
    if n < 10 {
        seq![digit(n)]
    } else {
        decimal(n / 10).push(digit(n % 10))
    }
}

/// The decimal numeral of `n`.
pub fn decimal_text(n: u128) -> (text: String)
    ensures
        text@ == decimal(n as nat),
    decreases n,
{
    let mut text = if n < 10 {
        String::new()
    } else {
        decimal_text(n / 10)
    };
    let last: u8 = 48 + (n % 10) as u8;
    text.push(last as char);
    text
}

/// The number that decimal digits spell, most significant first.
pub open spec fn number_of_digits(digits: Seq<char>) -> nat
    decreases digits.len(),
{
    if digits.len() == 0 {
        0
    } else {
        (number_of_digits(digits.drop_last()) * 10 + (digits.last() as int - 48)) as nat
    }
}

/// The number that a text spells in decimal digits, if it does.
pub open spec fn decimal_value(text: Seq<char>) -> Option<nat> {
    if text.len() > 0 && forall|i: int| 0 <= i < text.len() ==> '0' <= #[trigger] text[i] <= '9' {
        Some(number_of_digits(text))
    } else {
        None
    }
}

/// A decimal numeral spells its number.
pub proof fn lemma_decimal_value(n: nat)
    ensures
        decimal_value(decimal(n)) == Some(n),
    decreases n,
{
    if n >= 10 {
        lemma_decimal_value(n / 10);
        assert(decimal(n).drop_last() =~= decimal(n / 10));
        assert(digit(n % 10) as int == 48 + n % 10);
    } else {
        assert(digit(n) as int == 48 + n);
        assert(decimal(n).drop_last().len() == 0);
        assert(number_of_digits(decimal(n).drop_last()) == 0);
    }
}

/// More digits spell no lesser number.
proof fn lemma_front_is_less(digits: Seq<char>, n: int)
    requires
        0 <= n <= digits.len(),
        forall|i: int| 0 <= i < digits.len() ==> '0' <= #[trigger] digits[i] <= '9',
    ensures
        number_of_digits(digits.take(n)) <= number_of_digits(digits),
    decreases digits.len(),
{
    if n == digits.len() {
        assert(digits.take(n) =~= digits);
    } else {
        lemma_front_is_less(digits.drop_last(), n);
        assert(digits.drop_last().take(n) =~= digits.take(n));
    }
}

/// The number that characters spell in decimal digits, if they do and it is not too
/// great.
pub fn number_in(chars: &Vec<char>) -> (number: Option<u128>)
    ensures
        match number {
            Some(number) => decimal_value(chars@) == Some(number as nat),
            None => !(decimal_value(chars@) matches Some(value) && value <= u128::MAX),
        },
{
    let mut number: u128 = 0;
    let mut i: usize = 0;
    while i < chars.len()
        invariant
            i <= chars@.len(),
            forall|j: int| 0 <= j < i ==> '0' <= #[trigger] chars@[j] <= '9',
            number == number_of_digits(chars@.take(i as int)),
        decreases chars@.len() - i,
    {
        let c = chars[i];
        if c < '0' || '9' < c {
            return None;
        }
        let last: u128 = (c as u32 - 48) as u128;
        let ghost front = chars@.take(i + 1);
        proof {
            assert(front.drop_last() =~= chars@.take(i as int));
            assert(number_of_digits(front) == number * 10 + last);
            if decimal_value(chars@) is Some {
                lemma_front_is_less(chars@, i + 1);
            }
        }
        if number > (u128::MAX - last) / 10 {
            return None;
        }
        number = number * 10 + last;
        i = i + 1;
    }
    assert(chars@.take(i as int) =~= chars@);
    if chars.len() == 0 {
        None
    } else {
        Some(number)
    }
}

/// The characters of a text.
pub fn chars_of(text: &str) -> (chars: Vec<char>)
    ensures
        chars@ == text@,
{
    let mut chars: Vec<char> = Vec::new();
    for c in iter: text.chars()
        invariant
            iter.seq() == text@,
            chars@ == text@.take(iter.index()),
    {
        chars.push(c);
        assert(chars@ =~= text@.take(iter.index() + 1));
    }
    assert(chars@ =~= text@);
    chars
}

/// The text `front`, then `middle`, then `back`.
pub fn joined(front: &str, middle: &str, back: &str) -> (text: String)
    ensures
        text@ == front@ + middle@ + back@,
{
    front.to_owned().concat(middle).concat(back)
}

} // verus!
