//! SQL data types of table columns.

use vstd::prelude::*;

verus! {

/// SQL column data type.
#[derive(Debug, Clone, Copy, PartialEq, Eq, Hash)]
pub enum DataType {
    Null,
    Integer,
    Float,
    Text,
    Boolean,
    Timestamp,
    Json,
    Vector,
    DeterministicFloat,
    Quant,
    Bigint,
    Decimal,
    Blob,
}

impl DataType {
    /// The byte that identifies this type.
    pub open spec fn tag(self) -> u8 {
        match self {
            DataType::Null => 0,
            DataType::Integer => 1,
            DataType::Float => 2,
            DataType::Text => 3,
            DataType::Boolean => 4,
            DataType::Timestamp => 5,
            DataType::Json => 6,
            DataType::Vector => 7,
            DataType::DeterministicFloat => 8,
            DataType::Quant => 9,
            DataType::Bigint => 10,
            DataType::Decimal => 11,
            DataType::Blob => 12,
        }
    }

    /// The byte that identifies this type.
    pub fn as_u8(self) -> (r: u8)
        ensures
            r == self.tag(),
    {
        match self {
            DataType::Null => 0,
            DataType::Integer => 1,
            DataType::Float => 2,
            DataType::Text => 3,
            DataType::Boolean => 4,
            DataType::Timestamp => 5,
            DataType::Json => 6,
            DataType::Vector => 7,
            DataType::DeterministicFloat => 8,
            DataType::Quant => 9,
            DataType::Bigint => 10,
            DataType::Decimal => 11,
            DataType::Blob => 12,
        }
    }
}

} // verus!
