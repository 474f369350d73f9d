//! Query specification types: a single (column, operator, literal)
//! predicate and a column-projection selector. All comparisons operate on
//! the stored string form; the ordering operators use lexicographic order
//! even for columns whose declared type is numeric.
use vstd::prelude::*;

use crate::text::lex_lt;

verus! {

/// The comparison applied between an entry's stored value and a
/// condition's literal.
#[derive(Clone, Copy, Debug, PartialEq, Eq, Structural)]
pub enum Operator {
    Eq,
    NotEq,
    Gt,
    Lt,
    GtEq,
    LtEq,
}

/// One filter predicate: the entry's value under `key`, compared against
/// `value` with `operator`.
pub struct Condition {
    pub key: String,
    pub value: String,
    pub operator: Operator,
}

/// The mathematical image of a `Condition`.
pub struct CondView {
    pub key: Seq<char>,
    pub value: Seq<char>,
    pub operator: Operator,
}

impl View for Condition {
    type V = CondView;

    open spec fn view(&self) -> CondView {
        CondView { key: self.key@, value: self.value@, operator: self.operator }
    }
}

/// The view of an optional condition.
pub open spec fn opt_cond_view(c: Option<Condition>) -> Option<CondView> {
    match c {
        Option::None => Option::None,
        Option::Some(c) => Option::Some(c@),
    }
}

/// A projection selector: every column, or an explicit ordered list of
/// column names.
pub enum SelectCols {
    All,
    Cols(Vec<String>),
}

impl View for SelectCols {
    type V = Option<Seq<Seq<char>>>;

    open spec fn view(&self) -> Option<Seq<Seq<char>>> {
        match self {
            SelectCols::All => Option::None,
            SelectCols::Cols(cs) => Option::Some(cs.deep_view()),
        }
    }
}

/// How `operator` compares a stored value `v` against the literal `w`.
pub open spec fn op_matches(operator: Operator, v: Seq<char>, w: Seq<char>) -> bool {
    match operator {
        Operator::Eq => v == w,
        Operator::NotEq => v != w,
        Operator::Gt => lex_lt(w, v),
        Operator::Lt => lex_lt(v, w),
        Operator::GtEq => !lex_lt(v, w),
        Operator::LtEq => !lex_lt(w, v),
    }
}

/// Whether an entry satisfies a condition: the key must be present and its
/// value must compare as the operator demands.
pub open spec fn cond_matches(c: CondView, e: Map<Seq<char>, Seq<char>>) -> bool {
    e.contains_key(c.key) && op_matches(c.operator, e[c.key], c.value)
}

/// Whether an entry satisfies an optional condition; the absence of a
/// condition matches every entry.
pub open spec fn query_matches(c: Option<CondView>, e: Map<Seq<char>, Seq<char>>) -> bool {
    match c {
        Option::None => true,
        Option::Some(c) => cond_matches(c, e),
    }
}

} // verus!
