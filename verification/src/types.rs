//! Column type tags. Every stored value is a string; a column's tag only
//! gates which strings may be written to it and supplies the canonical
//! default used to backfill a newly added column.
use vstd::prelude::*;

use crate::text::str_eq;

verus! {

/// A column's declared type.
#[derive(Clone, Copy, Debug, PartialEq, Eq, Structural)]
pub enum DataType {
    Text,
    Integer,
    Boolean,
}

/// An ASCII decimal digit.
pub open spec fn is_digit(c: char) -> bool {
    ('0' as u32) <= (c as u32) && (c as u32) <= ('9' as u32)
}

/// An optional leading minus sign followed by at least one decimal digit.
pub open spec fn is_integer_chars(s: Seq<char>) -> bool {
    if s.len() == 0 {
        false
    } else if s[0] == '-' {
        s.len() > 1 && (forall|i: int| 1 <= i < s.len() ==> is_digit(s[i]))
    } else {
        forall|i: int| 0 <= i < s.len() ==> is_digit(s[i])
    }
}

/// Exactly the two canonical boolean spellings.
pub open spec fn is_boolean_chars(s: Seq<char>) -> bool {
    s == "true"@ || s == "false"@
}

/// Which strings a column of type `t` accepts.
pub open spec fn valid_for(t: DataType, s: Seq<char>) -> bool {
    match t {
        DataType::Text => true,
        DataType::Integer => is_integer_chars(s),
        DataType::Boolean => is_boolean_chars(s),
    }
}

/// The canonical default value stored when a new column is backfilled.
pub open spec fn default_for(t: DataType) -> Seq<char> {
    match t {
        DataType::Text => Seq::empty(),
        DataType::Integer => "0"@,
        DataType::Boolean => "false"@,
    }
}

impl DataType {
    /// Whether `value` may be stored in a column of this type.
    pub fn is_valid(&self, value: &str) -> (r: bool)
        ensures
            r == valid_for(*self, value@),
    {
        match self {
            DataType::Text => true,
            DataType::Integer => Self::is_integer(value),
            DataType::Boolean => str_eq(value, "true") || str_eq(value, "false"),
        }
    }

    fn is_integer(value: &str) -> (r: bool)
        ensures
            r == is_integer_chars(value@),
    {
        let len = value.unicode_len();
        if len == 0 {
            return false;
        }
        let neg = value.get_char(0) == '-';
        if neg && len == 1 {
            return false;
        }
        let start: usize = if neg {
            1
        } else {
            0
        };
        let mut i: usize = start;
        while i < len
            invariant
                start <= i <= len,
                len == value@.len(),
                len > 0,
                neg == (value@[0] == '-'),
                neg ==> len > 1 && start == 1,
                !neg ==> start == 0,
                forall|j: int| start <= j < i ==> is_digit(value@[j]),
            decreases len - i,
        {
            let c = value.get_char(i);
            if (c as u32) < ('0' as u32) || (c as u32) > ('9' as u32) {
                return false;
            }
            i += 1;
        }
        true
    }

    /// The canonical default value for this type.
    pub fn default_value(&self) -> (d: String)
        ensures
            d@ == default_for(*self),
            valid_for(*self, d@),
    {
        proof {
            reveal_strlit("0");
        }
        match self {
            DataType::Text => String::new(),
            DataType::Integer => "0".to_owned(),
            DataType::Boolean => "false".to_owned(),
        }
    }
}

} // verus!
