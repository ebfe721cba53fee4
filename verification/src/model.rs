//! The kinds of BSON values.

use vstd::prelude::*;

verus! {

/// The kind of a BSON value.
#[derive(Clone, Copy, Debug, PartialEq, Eq, Hash, Structural)]
pub enum BsonType {
    /// 64-bit binary floating point
    Double,
    /// UTF-8 string
    String,
    /// Array
    Array,
    /// Embedded document
    Document,
    /// Boolean value
    Boolean,
    /// Null value
    Null,
    /// Regular expression
    RegularExpression,
    /// JavaScript code
    JavaScriptCode,
    /// JavaScript code with scope
    JavaScriptCodeWithScope,
    /// 32-bit signed integer
    Int32,
    /// 64-bit signed integer
    Int64,
    /// Timestamp
    Timestamp,
    /// Binary data
    Binary,
    /// Object id
    ObjectId,
    /// UTC datetime
    DateTime,
    /// Symbol (deprecated)
    Symbol,
    /// 128-bit decimal floating point
    Decimal128,
    /// Undefined value (deprecated)
    Undefined,
    /// Max key
    MaxKey,
    /// Min key
    MinKey,
    /// DBPointer (deprecated)
    DbPointer,
}

/// The kind that a BSON element tag stands for: the byte that precedes an
/// element in an encoded document. Bytes that are no element tag stand for
/// nothing.
pub open spec fn kind_of_tag(tag: u8) -> Option<BsonType> {
    if tag == 0x01 {
        Some(BsonType::Double)
    } else if tag == 0x02 {
        Some(BsonType::String)
    } else if tag == 0x03 {
        Some(BsonType::Document)
    } else if tag == 0x04 {
        Some(BsonType::Array)
    } else if tag == 0x05 {
        Some(BsonType::Binary)
    } else if tag == 0x06 {
        Some(BsonType::Undefined)
    } else if tag == 0x07 {
        Some(BsonType::ObjectId)
    } else if tag == 0x08 {
        Some(BsonType::Boolean)
    } else if tag == 0x09 {
        Some(BsonType::DateTime)
    } else if tag == 0x0A {
        Some(BsonType::Null)
    } else if tag == 0x0B {
        Some(BsonType::RegularExpression)
    } else if tag == 0x0C {
        Some(BsonType::DbPointer)
    } else if tag == 0x0D {
        Some(BsonType::JavaScriptCode)
    } else if tag == 0x0E {
        Some(BsonType::Symbol)
    } else if tag == 0x0F {
        Some(BsonType::JavaScriptCodeWithScope)
    } else if tag == 0x10 {
        Some(BsonType::Int32)
    } else if tag == 0x11 {
        Some(BsonType::Timestamp)
    } else if tag == 0x12 {
        Some(BsonType::Int64)
    } else if tag == 0x13 {
        Some(BsonType::Decimal128)
    } else if tag == 0x7F {
        Some(BsonType::MaxKey)
    } else if tag == 0xFF {
        Some(BsonType::MinKey)
    } else {
        None
    }
}

impl BsonType {
    /// The kind that the element tag `tag` stands for, if it is an element tag.
    pub fn from_element_tag(tag: u8) -> (kind: Option<BsonType>)
        ensures
            kind == kind_of_tag(tag),
    {
        match tag {
            0x01 => Some(BsonType::Double),
            0x02 => Some(BsonType::String),
            0x03 => Some(BsonType::Document),
            0x04 => Some(BsonType::Array),
            0x05 => Some(BsonType::Binary),
            0x06 => Some(BsonType::Undefined),
            0x07 => Some(BsonType::ObjectId),
            0x08 => Some(BsonType::Boolean),
            0x09 => Some(BsonType::DateTime),
            0x0A => Some(BsonType::Null),
            0x0B => Some(BsonType::RegularExpression),
            0x0C => Some(BsonType::DbPointer),
            0x0D => Some(BsonType::JavaScriptCode),
            0x0E => Some(BsonType::Symbol),
            0x0F => Some(BsonType::JavaScriptCodeWithScope),
            0x10 => Some(BsonType::Int32),
            0x11 => Some(BsonType::Timestamp),
            0x12 => Some(BsonType::Int64),
            0x13 => Some(BsonType::Decimal128),
            0x7F => Some(BsonType::MaxKey),
            0xFF => Some(BsonType::MinKey),
            _ => None,
        }
    }
}

} // verus!
