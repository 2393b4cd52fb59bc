//! The supported column types.

use crate::error::Error;
use vstd::prelude::*;
use vstd::std_specs::convert::{FromSpecImpl, TryFromSpecImpl};

verus! {

/// Type of a column, as the table header names it.
#[derive(Debug, Copy, Clone, PartialEq, Eq, Structural)]
pub enum FieldType {
    // dBASE III
    Character,
    Date,
    Float,
    Numeric,
    Logical,
    // Visual FoxPro
    Currency,
    DateTime,
    Integer,
    // Unknown
    Double,
    Memo,
}

impl FieldType {
    /// The character that stands for this type in a table header.
    pub open spec fn tag(self) -> char {
        match self {
            FieldType::Character => 'C',
            FieldType::Date => 'D',
            FieldType::Float => 'F',
            FieldType::Numeric => 'N',
            FieldType::Logical => 'L',
            FieldType::Currency => 'Y',
            FieldType::DateTime => 'T',
            FieldType::Integer => 'I',
            FieldType::Double => 'B',
            FieldType::Memo => 'M',
        }
    }

    /// The type that `c` stands for, if any.
    pub open spec fn of_tag(c: char) -> Option<FieldType> {
        if c == 'C' {
            Some(FieldType::Character)
        } else if c == 'D' {
            Some(FieldType::Date)
        } else if c == 'F' {
            Some(FieldType::Float)
        } else if c == 'N' {
            Some(FieldType::Numeric)
        } else if c == 'L' {
            Some(FieldType::Logical)
        } else if c == 'Y' {
            Some(FieldType::Currency)
        } else if c == 'T' {
            Some(FieldType::DateTime)
        } else if c == 'I' {
            Some(FieldType::Integer)
        } else if c == 'B' {
            Some(FieldType::Double)
        } else if c == 'M' {
            Some(FieldType::Memo)
        } else {
            None
        }
    }

    /// Width in bytes of a value of this type, where the type fixes it.
    pub open spec fn fixed_size(self) -> Option<u8> {
        match self {
            FieldType::Logical => Some(1u8),
            FieldType::Date => Some(8u8),
            FieldType::Integer => Some(4u8),
            FieldType::Currency => Some(8u8),
            FieldType::DateTime => Some(8u8),
            FieldType::Double => Some(8u8),
            _ => None,
        }
    }

    /// Whether values of this type are stored as text.
    pub open spec fn is_text_backed(self) -> bool {
        self == FieldType::Character || self == FieldType::Numeric || self == FieldType::Float
            || self == FieldType::Logical
    }

    /// The type that the header character `c` stands for; `None` for any
    /// character but the ten in use.
    pub fn from(c: char) -> (r: Option<FieldType>)
        ensures
            r == Self::of_tag(c),
            r is Some ==> r->Some_0.tag() == c,
    {
        match c {
            'C' => Some(FieldType::Character),
            'D' => Some(FieldType::Date),
            'F' => Some(FieldType::Float),
            'N' => Some(FieldType::Numeric),
            'L' => Some(FieldType::Logical),
            'Y' => Some(FieldType::Currency),
            'T' => Some(FieldType::DateTime),
            'I' => Some(FieldType::Integer),
            'B' => Some(FieldType::Double),
            'M' => Some(FieldType::Memo),
            _ => None,
        }
    }

    /// Width in bytes of a value of this type on disk, for the types of
    /// fixed width.
    pub fn size(self) -> (r: Option<u8>)
        ensures
            r == self.fixed_size(),
    {
        match self {
            FieldType::Logical => Some(1),
            FieldType::Date => Some(8),
            FieldType::Integer => Some(4),
            FieldType::Currency => Some(8),
            FieldType::DateTime => Some(8),
            FieldType::Double => Some(8),
            _ => None,
        }
    }

    /// The byte that fills the unused part of a value: a space for the
    /// types stored as text, nothing for the others.
    pub fn pad_byte(&self) -> (r: Option<u8>)
        ensures
            r == if self.is_text_backed() {
                Some(0x20u8)
            } else {
                None
            },
    {
        match *self {
            FieldType::Character
            | FieldType::Numeric
            | FieldType::Float
            | FieldType::Logical => Some(0x20),
            _ => None,
        }
    }
}

impl TryFrom<char> for FieldType {
    type Error = Error;

    /// As `FieldType::from`, with the unknown character reported as
    /// `InvalidFieldType`.
    fn try_from(c: char) -> (r: Result<Self, Error>) {
        match Self::from(c) {
            Some(t) => Ok(t),
            None => Err(Error::InvalidFieldType(c)),
        }
    }
}

impl TryFromSpecImpl<char> for FieldType {
    open spec fn obeys_try_from_spec() -> bool {
        true
    }

    open spec fn try_from_spec(c: char) -> Result<Self, Error> {
        match Self::of_tag(c) {
            Some(t) => Ok(t),
            None => Err(Error::InvalidFieldType(c)),
        }
    }
}

impl From<FieldType> for u8 {
    /// The header byte of the type.
    fn from(t: FieldType) -> (r: u8) {
        let c = match t {
            FieldType::Character => 'C',
            FieldType::Date => 'D',
            FieldType::Float => 'F',
            FieldType::Numeric => 'N',
            FieldType::Logical => 'L',
            FieldType::Currency => 'Y',
            FieldType::DateTime => 'T',
            FieldType::Integer => 'I',
            FieldType::Double => 'B',
            FieldType::Memo => 'M',
        };
        c as u8
    }
}

impl FromSpecImpl<FieldType> for u8 {
    open spec fn obeys_from_spec() -> bool {
        true
    }

    open spec fn from_spec(t: FieldType) -> u8 {
        t.tag() as u8
    }
}

/// A header character read back from a type's tag gives the type again.
pub proof fn lemma_tag_round_trip(t: FieldType)
    ensures
        FieldType::of_tag(t.tag()) == Some(t),
{
}

} // verus!
