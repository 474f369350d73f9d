//! A table's persisted schema: an ordered sequence of column names paired
//! one to one with an ordered sequence of column types.
use vstd::prelude::*;

use crate::text::str_eq;
use crate::types::DataType;

verus! {

/// The first index at or after `i` where `names` holds `c`.
pub open spec fn index_of_from(names: Seq<Seq<char>>, c: Seq<char>, i: int) -> Option<int>
    decreases names.len() - i
        when 0 <= i <= names.len()
{
    if i >= names.len() {
        Option::None
    } else if names[i] == c {
        Option::Some(i)
    } else {
        index_of_from(names, c, i + 1)
    }
}

/// The first index where `names` holds `c`.
pub open spec fn index_of(names: Seq<Seq<char>>, c: Seq<char>) -> Option<int> {
    index_of_from(names, c, 0)
}

/// `index_of_from` finds an index exactly when a matching one exists, and
/// the index it finds is the first match.
pub proof fn lemma_index_of_from(names: Seq<Seq<char>>, c: Seq<char>, i: int)
    requires
        0 <= i <= names.len(),
    ensures
        (index_of_from(names, c, i) is Some) <==> (exists|j: int|
            i <= j < names.len() && names[j] == c),
        (match index_of_from(names, c, i) {
            Option::Some(p) => i <= p < names.len() && names[p] == c && (forall|j: int|
                i <= j < p ==> names[j] != c),
            Option::None => true,
        }),
    decreases names.len() - i,
{
    if i < names.len() {
        lemma_index_of_from(names, c, i + 1);
    }
}

/// A table's column definition.
pub struct Schema {
    pub cols: Vec<String>,
    pub types: Vec<DataType>,
}

impl Schema {
    /// Column names and types are paired one to one.
    pub open spec fn wf(&self) -> bool {
        self.cols@.len() == self.types@.len()
    }

    /// The schema's column names, as character sequences.
    pub open spec fn col_names(&self) -> Seq<Seq<char>> {
        self.cols.deep_view()
    }

    /// The position of `col_name` in the schema, if the column is present.
    pub fn col_pos(&self, col_name: &str) -> (r: Option<usize>)
        ensures
            (match r {
                Option::Some(p) => index_of(self.col_names(), col_name@) == Option::Some(p as int),
                Option::None => index_of(self.col_names(), col_name@) is None,
            }),
    {
        let mut i: usize = 0;
        while i < self.cols.len()
            invariant
                i <= self.cols@.len(),
                self.col_names().len() == self.cols@.len(),
                index_of(self.col_names(), col_name@) == index_of_from(
                    self.col_names(),
                    col_name@,
                    i as int,
                ),
            decreases self.cols@.len() - i,
        {
            proof {
                assert(self.col_names()[i as int] == self.cols@[i as int]@);
            }
            if str_eq(self.cols[i].as_str(), col_name) {
                return Option::Some(i);
            }
            i += 1;
        }
        Option::None
    }

    /// Whether `col_name` is one of the schema's columns.
    pub fn col_exist(&self, col_name: &str) -> (r: bool)
        ensures
            r == self.col_names().contains(col_name@),
    {
        proof {
            lemma_index_of_from(self.col_names(), col_name@, 0);
        }
        self.col_pos(col_name).is_some()
    }
}

} // verus!
