//! String indices that may be absent, and the typed values of attributes.

use vstd::prelude::*;

verus! {

/// The word that stands where a string index is absent.
pub const NO_INDEX: u32 = 0xFFFF_FFFF;

/// Type code of a reference to a resource.
pub const TYPE_REFERENCE: u8 = 0x01;

/// Type code of a string, given by its index in the string pool.
pub const TYPE_STRING: u8 = 0x03;

/// Type code of a single precision floating point number.
pub const TYPE_FLOAT: u8 = 0x04;

/// Type code of a dimension: a number with a unit.
pub const TYPE_DIMENSION: u8 = 0x05;

/// Type code of an integer that was written in decimal.
pub const TYPE_INT_DEC: u8 = 0x10;

/// Type code of an integer that was written in hexadecimal.
pub const TYPE_INT_HEX: u8 = 0x11;

/// Type code of a boolean.
pub const TYPE_INT_BOOLEAN: u8 = 0x12;

/// The lowest of the four type codes of colors.
pub const TYPE_FIRST_COLOR: u8 = 0x1c;

/// The highest of the four type codes of colors.
pub const TYPE_LAST_COLOR: u8 = 0x1f;

/// The value of an attribute, told apart by its type code. Identifiers of
/// resources stay as they are: no resource table is consulted.
#[derive(Debug, Clone, Copy, PartialEq, Eq)]
pub enum TypedValue {
    /// A string, by its index in the string pool.
    StringRef(u32),
    /// An integer, whether written in decimal or in hexadecimal.
    Integer(i32),
    /// A boolean: false where the data word is 0.
    Boolean(bool),
    /// The identifier of a resource.
    Reference(u32),
    /// The bits of a single precision floating point number.
    Float(u32),
    /// A color, in the layout its type code gives.
    Color(u32),
    /// A dimension, with its unit in the low bits.
    Dimension(u32),
    /// A value of any other type, with its type code and its data word.
    Raw { type_code: u8, data: u32 },
}

/// The string index that a word holds, if it holds one.
pub open spec fn index_or_absent(word: u32) -> Option<u32> {
    if word == NO_INDEX {
        None
    } else {
        Some(word)
    }
}

/// The string index that a word holds, or `None` for the word that marks an
/// absent index. Every reader of such a word goes through this function.
pub fn lookup_index(word: u32) -> (index: Option<u32>)
    ensures
        index == index_or_absent(word),
{
    if word == NO_INDEX {
        None
    } else {
        Some(word)
    }
}

/// Whether a word holds the index of a string of a pool of `count` strings.
pub open spec fn index_ok(count: nat, word: u32) -> bool {
    word != NO_INDEX && word < count
}

/// Whether a word holds the index of a string of the pool, or marks an
/// absent index.
pub open spec fn optional_index_ok(count: nat, word: u32) -> bool {
    word == NO_INDEX || word < count
}

/// Whether a value that names a string names one of the pool.
pub open spec fn value_ok(count: nat, value: TypedValue) -> bool {
    value matches TypedValue::StringRef(index) ==> index_ok(count, index)
}

/// The type code of a typed value: the highest byte of its first word.
pub open spec fn type_code(type_word: u32) -> u8 {
    (type_word / 0x100_0000) as u8
}

/// A data word read as a signed number in two's complement.
pub open spec fn signed(data: u32) -> i32 {
    if data < 0x8000_0000 {
        data as i32
    } else {
        (data - 0x1_0000_0000) as i32
    }
}

/// The typed value that a type word and a data word stand for.
pub open spec fn typed_value(type_word: u32, data: u32) -> TypedValue {
    let code = type_code(type_word);
    if code == TYPE_STRING {
        TypedValue::StringRef(data)
    } else if code == TYPE_INT_DEC || code == TYPE_INT_HEX {
        TypedValue::Integer(signed(data))
    } else if code == TYPE_INT_BOOLEAN {
        TypedValue::Boolean(data != 0)
    } else if code == TYPE_REFERENCE {
        TypedValue::Reference(data)
    } else if code == TYPE_FLOAT {
        TypedValue::Float(data)
    } else if TYPE_FIRST_COLOR <= code <= TYPE_LAST_COLOR {
        TypedValue::Color(data)
    } else if code == TYPE_DIMENSION {
        TypedValue::Dimension(data)
    } else {
        TypedValue::Raw { type_code: code, data }
    }
}

/// Decodes a typed value from its type word and its data word.
pub fn decode_value(type_word: u32, data: u32) -> (value: TypedValue)
    ensures
        value == typed_value(type_word, data),
{
    let code = (type_word / 0x100_0000) as u8;
    if code == TYPE_STRING {
        TypedValue::StringRef(data)
    } else if code == TYPE_INT_DEC || code == TYPE_INT_HEX {
        if data < 0x8000_0000 {
            TypedValue::Integer(data as i32)
        } else {
            TypedValue::Integer(-((NO_INDEX - data) as i32) - 1)
        }
    } else if code == TYPE_INT_BOOLEAN {
        TypedValue::Boolean(data != 0)
    } else if code == TYPE_REFERENCE {
        TypedValue::Reference(data)
    } else if code == TYPE_FLOAT {
        TypedValue::Float(data)
    } else if TYPE_FIRST_COLOR <= code && code <= TYPE_LAST_COLOR {
        TypedValue::Color(data)
    } else if code == TYPE_DIMENSION {
        TypedValue::Dimension(data)
    } else {
        TypedValue::Raw { type_code: code, data }
    }
}

} // verus!
