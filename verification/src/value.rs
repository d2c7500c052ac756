//! Values, and the bytes that stand for them.
use crate::text::text_of_utf8;
use vstd::bytes::{
    lemma_auto_spec_u128_to_from_le_bytes, spec_u128_from_le_bytes, spec_u128_to_le_bytes,
    u128_from_le_bytes, u128_to_le_bytes,
};
use vstd::prelude::*;
use vstd::slice::slice_to_vec;
use vstd::utf8::{
    decode_utf8, encode_utf8, encode_utf8_decode_utf8, encode_utf8_valid_utf8, valid_utf8,
};

verus! {

/// The data type of a boolean.
pub const BOOLEAN: u8 = 1;

/// The data type of a text.
pub const STRING: u8 = 2;

/// The data type of an unsigned integer.
pub const UNSIGNED_INT: u8 = 3;

/// What an attribute of an entity can be.
#[derive(Debug, PartialEq, Eq)]
pub enum Value {
    Boolean(bool),
    String(String),
    UnsignedInt(u128),
}

/// What a value says.
pub enum ValueView {
    Boolean(bool),
    String(Seq<char>),
    UnsignedInt(u128),
}

impl ValueView {
    /// The data type of the value.
    pub open spec fn data_type(self) -> u8 {
        match self {
            ValueView::Boolean(_) => BOOLEAN,
            ValueView::String(_) => STRING,
            ValueView::UnsignedInt(_) => UNSIGNED_INT,
        }
    }

    /// The bytes of the value: one byte for a boolean, UTF-8 for a text, and
    /// sixteen bytes, least significant first, for an unsigned integer.
    pub open spec fn bytes(self) -> Seq<u8> {
        match self {
            ValueView::Boolean(flag) => seq![if flag { 1u8 } else { 0u8 }],
            ValueView::String(text) => encode_utf8(text),
            ValueView::UnsignedInt(number) => spec_u128_to_le_bytes(number),
        }
    }
}

/// The value of a data type that bytes stand for, if there is one.
pub open spec fn value_of_bytes(data_type: u8, bytes: Seq<u8>) -> Option<ValueView> {
    if data_type == BOOLEAN {
        if bytes == seq![0u8] {
            Some(ValueView::Boolean(false))
        } else if bytes == seq![1u8] {
            Some(ValueView::Boolean(true))
        } else {
            None
        }
    } else if data_type == STRING {
        if valid_utf8(bytes) {
            Some(ValueView::String(decode_utf8(bytes)))
        } else {
            None
        }
    } else if data_type == UNSIGNED_INT {
        if bytes.len() == 16 {
            Some(ValueView::UnsignedInt(spec_u128_from_le_bytes(bytes)))
        } else {
            None
        }
    } else {
        None
    }
}

/// The bytes of a value stand for that value.
pub proof fn lemma_value_of_its_bytes(value: ValueView)
    ensures
        value_of_bytes(value.data_type(), value.bytes()) == Some(value),
{
    match value {
        ValueView::Boolean(flag) => {
            assert(seq![0u8][0] != seq![1u8][0]);
        },
        ValueView::String(text) => {
            encode_utf8_valid_utf8(text);
            encode_utf8_decode_utf8(text);
        },
        ValueView::UnsignedInt(number) => {
            lemma_auto_spec_u128_to_from_le_bytes();
        },
    }
}

impl View for Value {
    type V = ValueView;

    open spec fn view(&self) -> ValueView {
        match *self {
            Value::Boolean(flag) => ValueView::Boolean(flag),
            Value::String(text) => ValueView::String(text@),
            Value::UnsignedInt(number) => ValueView::UnsignedInt(number),
        }
    }
}

impl Value {
    /// The data type of the value.
    pub fn data_type(&self) -> (data_type: u8)
        ensures
            data_type == self@.data_type(),
    {
        match self {
            Value::Boolean(_) => BOOLEAN,
            Value::String(_) => STRING,
            Value::UnsignedInt(_) => UNSIGNED_INT,
        }
    }

    /// The bytes that stand for the value.
    pub fn to_bytes(&self) -> (bytes: Vec<u8>)
        ensures
            bytes@ == self@.bytes(),
    {
        match self {
            Value::Boolean(flag) => {
                let bytes: Vec<u8> = vec![if *flag { 1u8 } else { 0u8 }];
                assert(bytes@ =~= self@.bytes());
                bytes
            },
            Value::String(text) => slice_to_vec(text.as_str().as_bytes()),
            Value::UnsignedInt(number) => u128_to_le_bytes(*number),
        }
    }

    /// The value of a data type that bytes stand for, if there is one.
    pub fn from_bytes(data_type: u8, bytes: Vec<u8>) -> (value: Option<Value>)
        ensures
            match value {
                Some(value) => value_of_bytes(data_type, bytes@) == Some(value@),
                None => value_of_bytes(data_type, bytes@) is None,
            },
    {
        if data_type == BOOLEAN {
            if bytes.len() == 1 && bytes[0] <= 1 {
                assert(bytes@ =~= seq![bytes@[0]]);
                assert(seq![0u8][0] != seq![1u8][0]);
                Some(Value::Boolean(bytes[0] == 1))
            } else {
                None
            }
        } else if data_type == STRING {
            match text_of_utf8(bytes) {
                Some(text) => Some(Value::String(text)),
                None => None,
            }
        } else if data_type == UNSIGNED_INT {
            if bytes.len() == 16 {
                Some(Value::UnsignedInt(u128_from_le_bytes(bytes.as_slice())))
            } else {
                None
            }
        } else {
            None
        }
    }
}

impl Clone for Value {
    fn clone(&self) -> (copy: Self)
        ensures
            copy@ == self@,
    {
        match self {
            Value::Boolean(flag) => Value::Boolean(*flag),
            Value::String(text) => Value::String(text.clone()),
            Value::UnsignedInt(number) => Value::UnsignedInt(*number),
        }
    }
}

} // verus!
