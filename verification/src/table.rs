//! The table subsystem: one table owns an ordered schema of typed columns
//! and an ordered sequence of row entries. Operations validate against the
//! schema, mutate the in-memory state, and leave persistence to the
//! caller. Insertion is all-or-nothing: every row of a batch is validated
//! before any row is appended.
use vstd::prelude::*;

use crate::database::DatabaseError;
use crate::entry::Entry;
use crate::query::{cond_matches, opt_cond_view, query_matches, CondView, Condition, Operator,
    SelectCols};
use crate::schema::{index_of, lemma_index_of_from, Schema};
use crate::text::{clone_strings, str_eq, str_lt};
use crate::types::{default_for, valid_for, DataType};

verus! {

/// Why a table operation was refused.
#[derive(Debug)]
pub enum TableError {
    /// A database-level failure.
    DBErr(DatabaseError),
    /// The table's backing files are missing.
    TableNotFound(String),
    /// The named column is not present where it was looked up.
    ColNotFound(String),
    /// A schema position lacks a type. Unreachable while the schema is
    /// well formed; kept as part of the error taxonomy.
    ColTypeNotFound(String),
    /// A row's length differs from the insert's column list; holds the
    /// offending row's index.
    NumberMismatch(usize),
    /// A value was refused by its column's type; holds the value.
    TypeErr(String),
    /// The column to add is already in the schema.
    ColAlreadyExist(String),
}

/// The views of a sequence of entries.
pub open spec fn entry_views_of(es: Seq<Entry>) -> Seq<Map<Seq<char>, Seq<char>>> {
    es.map_values(|e: Entry| e@)
}

/// The column list an insert resolves to: the whole schema for `All`, the
/// explicit list otherwise.
pub open spec fn resolved_cols(sel: Option<Seq<Seq<char>>>, schema_cols: Seq<Seq<char>>) -> Seq<
    Seq<char>,
> {
    match sel {
        Option::None => schema_cols,
        Option::Some(cs) => cs,
    }
}

/// The first column at or after index `i` of `cs` that the schema does not
/// hold.
pub open spec fn first_absent_from(sc: Seq<Seq<char>>, cs: Seq<Seq<char>>, i: int) -> Option<
    Seq<char>,
>
    decreases cs.len() - i
        when 0 <= i <= cs.len()
{
    if i >= cs.len() {
        Option::None
    } else if !sc.contains(cs[i]) {
        Option::Some(cs[i])
    } else {
        first_absent_from(sc, cs, i + 1)
    }
}

/// The type declared for column `c`: the type at the column's first
/// position in the schema.
pub open spec fn type_of_col(sc: Seq<Seq<char>>, st: Seq<DataType>, c: Seq<char>) -> DataType {
    match index_of(sc, c) {
        Option::Some(j) => st[j],
        Option::None => DataType::Text,
    }
}

/// The declared types of a resolved column list.
pub open spec fn types_of(sc: Seq<Seq<char>>, st: Seq<DataType>, cs: Seq<Seq<char>>) -> Seq<
    DataType,
> {
    Seq::new(cs.len(), |j: int| type_of_col(sc, st, cs[j]))
}

/// The first value at or after index `j` of `row` that its column's type
/// refuses.
pub open spec fn first_invalid_from(ts: Seq<DataType>, row: Seq<Seq<char>>, j: int) -> Option<
    Seq<char>,
>
    decreases row.len() - j
        when 0 <= j <= row.len()
{
    if j >= row.len() {
        Option::None
    } else if !valid_for(ts[j], row[j]) {
        Option::Some(row[j])
    } else {
        first_invalid_from(ts, row, j + 1)
    }
}

/// A row fits: it has one value per resolved column and every value is
/// accepted by its column's type.
pub open spec fn row_ok(ts: Seq<DataType>, arity: int, row: Seq<Seq<char>>) -> bool {
    row.len() == arity && first_invalid_from(ts, row, 0) is None
}

/// The index of the first row at or after `i` that does not fit.
pub open spec fn first_bad_row_from(
    ts: Seq<DataType>,
    arity: int,
    rows: Seq<Seq<Seq<char>>>,
    i: int,
) -> Option<int>
    decreases rows.len() - i
        when 0 <= i <= rows.len()
{
    if i >= rows.len() {
        Option::None
    } else if !row_ok(ts, arity, rows[i]) {
        Option::Some(i)
    } else {
        first_bad_row_from(ts, arity, rows, i + 1)
    }
}

/// The entry a row becomes: each resolved column mapped to the row's value
/// at the same position. With a repeated column the later value wins, as
/// repeated insertion would have it.
pub open spec fn row_entry(cols: Seq<Seq<char>>, row: Seq<Seq<char>>) -> Map<Seq<char>, Seq<char>>
    decreases cols.len(),
{
    if cols.len() == 0 {
        Map::empty()
    } else {
        row_entry(cols.drop_last(), row.drop_last()).insert(cols.last(), row.last())
    }
}

/// The entries a batch of rows becomes.
pub open spec fn row_entries(cols: Seq<Seq<char>>, rows: Seq<Seq<Seq<char>>>) -> Seq<
    Map<Seq<char>, Seq<char>>,
> {
    rows.map_values(|row: Seq<Seq<char>>| row_entry(cols, row))
}

/// The first requested column at or after index `j` that the entry lacks.
pub open spec fn first_missing_from(cs: Seq<Seq<char>>, e: Map<Seq<char>, Seq<char>>, j: int) -> Option<
    Seq<char>,
>
    decreases cs.len() - j
        when 0 <= j <= cs.len()
{
    if j >= cs.len() {
        Option::None
    } else if !e.contains_key(cs[j]) {
        Option::Some(cs[j])
    } else {
        first_missing_from(cs, e, j + 1)
    }
}

/// The projection of an entry onto a column list whose every column it
/// holds.
pub open spec fn projected(cs: Seq<Seq<char>>, e: Map<Seq<char>, Seq<char>>) -> Map<
    Seq<char>,
    Seq<char>,
>
    decreases cs.len(),
{
    if cs.len() == 0 {
        Map::empty()
    } else {
        projected(cs.drop_last(), e).insert(cs.last(), e[cs.last()])
    }
}

/// What selecting from the entries at or after index `i` yields: the
/// matching entries in order, projected onto the requested columns, or the
/// first requested column some matching entry lacks.
pub open spec fn select_from(
    proj: Option<Seq<Seq<char>>>,
    cond: Option<CondView>,
    es: Seq<Map<Seq<char>, Seq<char>>>,
    i: int,
) -> Result<Seq<Map<Seq<char>, Seq<char>>>, Seq<char>>
    decreases es.len() - i
        when 0 <= i <= es.len()
{
    if i >= es.len() {
        Result::Ok(Seq::empty())
    } else if !query_matches(cond, es[i]) {
        select_from(proj, cond, es, i + 1)
    } else {
        match proj {
            Option::None => match select_from(proj, cond, es, i + 1) {
                Result::Ok(s) => Result::Ok(seq![es[i]] + s),
                Result::Err(c) => Result::Err(c),
            },
            Option::Some(cs) => match first_missing_from(cs, es[i], 0) {
                Option::Some(c) => Result::Err(c),
                Option::None => match select_from(proj, cond, es, i + 1) {
                    Result::Ok(s) => Result::Ok(seq![projected(cs, es[i])] + s),
                    Result::Err(c) => Result::Err(c),
                },
            },
        }
    }
}

/// The entries at or after index `i` that do not match the condition, in
/// order: what a deletion retains.
pub open spec fn kept_from(c: CondView, es: Seq<Map<Seq<char>, Seq<char>>>, i: int) -> Seq<
    Map<Seq<char>, Seq<char>>,
>
    decreases es.len() - i
        when 0 <= i <= es.len()
{
    if i >= es.len() {
        Seq::empty()
    } else if cond_matches(c, es[i]) {
        kept_from(c, es, i + 1)
    } else {
        seq![es[i]] + kept_from(c, es, i + 1)
    }
}

/// Whether one entry satisfies one condition.
fn eval_cond(c: &Condition, entry: &Entry) -> (r: bool)
    requires
        entry.wf(),
    ensures
        r == cond_matches(c@, entry@),
{
    match entry.get(c.key.as_str()) {
        Option::None => false,
        Option::Some(v) => match c.operator {
            Operator::Eq => str_eq(v.as_str(), c.value.as_str()),
            Operator::NotEq => !str_eq(v.as_str(), c.value.as_str()),
            Operator::Gt => str_lt(c.value.as_str(), v.as_str()),
            Operator::Lt => str_lt(v.as_str(), c.value.as_str()),
            Operator::GtEq => !str_lt(v.as_str(), c.value.as_str()),
            Operator::LtEq => !str_lt(c.value.as_str(), v.as_str()),
        },
    }
}

/// A copy of the entries in which every entry also maps `col_name` to the
/// type's default value.
fn backfill(entries: &Vec<Entry>, col_name: &str, datatype: DataType) -> (out: Vec<Entry>)
    requires
        forall|i: int| 0 <= i < entries@.len() ==> entries@[i].wf(),
    ensures
        out@.len() == entries@.len(),
        forall|i: int|
            0 <= i < out@.len() ==> (#[trigger] out@[i]).wf() && out@[i]@ == entries@[i]@.insert(
                col_name@,
                default_for(datatype),
            ),
{
    let mut out: Vec<Entry> = Vec::new();
    let mut i: usize = 0;
    while i < entries.len()
        invariant
            i <= entries@.len(),
            out@.len() == i,
            forall|i: int| 0 <= i < entries@.len() ==> entries@[i].wf(),
            forall|j: int|
                0 <= j < i ==> (#[trigger] out@[j]).wf() && out@[j]@ == entries@[j]@.insert(
                    col_name@,
                    default_for(datatype),
                ),
        decreases entries@.len() - i,
    {
        let mut e = entries[i].duplicate();
        e.insert(col_name.to_owned(), datatype.default_value());
        out.push(e);
        i += 1;
    }
    out
}

/// The entries that do not match the condition, in order.
fn retained(entries: &Vec<Entry>, condition: &Condition) -> (out: Vec<Entry>)
    requires
        forall|i: int| 0 <= i < entries@.len() ==> entries@[i].wf(),
    ensures
        entry_views_of(out@) == kept_from(condition@, entry_views_of(entries@), 0),
        forall|i: int| 0 <= i < out@.len() ==> (#[trigger] out@[i]).wf(),
{
    let ghost evs = entry_views_of(entries@);
    let mut out: Vec<Entry> = Vec::new();
    proof {
        assert(entry_views_of(out@) + kept_from(condition@, evs, 0) =~= kept_from(
            condition@,
            evs,
            0,
        ));
    }
    let mut i: usize = 0;
    while i < entries.len()
        invariant
            i <= entries@.len(),
            evs == entry_views_of(entries@),
            evs.len() == entries@.len(),
            forall|i: int| 0 <= i < entries@.len() ==> entries@[i].wf(),
            forall|j: int| 0 <= j < out@.len() ==> (#[trigger] out@[j]).wf(),
            kept_from(condition@, evs, 0) == entry_views_of(out@) + kept_from(
                condition@,
                evs,
                i as int,
            ),
        decreases entries@.len() - i,
    {
        let ghost prev = entry_views_of(out@);
        let e = &entries[i];
        proof {
            assert(evs[i as int] == entries@[i as int]@);
        }
        if !eval_cond(condition, e) {
            out.push(e.duplicate());
            proof {
                assert(entry_views_of(out@) =~= prev.push(evs[i as int]));
                assert(prev + kept_from(condition@, evs, i as int) =~= entry_views_of(out@)
                    + kept_from(condition@, evs, i as int + 1));
            }
        }
        i += 1;
    }
    proof {
        assert(entry_views_of(out@) + kept_from(condition@, evs, entries@.len() as int)
            =~= entry_views_of(out@));
    }
    out
}

/// The declared type of each column of `cols`, in order, or the first
/// column the schema does not hold.
fn resolve_types(schema: &Schema, cols: &Vec<String>) -> (r: Result<Vec<DataType>, TableError>)
    requires
        schema.wf(),
    ensures
        (match r {
            Result::Ok(ts) => {
                &&& first_absent_from(schema.col_names(), cols.deep_view(), 0) is None
                &&& ts@ == types_of(schema.col_names(), schema.types@, cols.deep_view())
            },
            Result::Err(TableError::ColNotFound(c)) => first_absent_from(
                schema.col_names(),
                cols.deep_view(),
                0,
            ) == Option::Some(c@),
            Result::Err(_) => false,
        }),
{
    let ghost sc = schema.col_names();
    let ghost st = schema.types@;
    let ghost cs = cols.deep_view();
    let mut ts: Vec<DataType> = Vec::new();
    let mut i: usize = 0;
    while i < cols.len()
        invariant
            i <= cols@.len(),
            cs == cols.deep_view(),
            cs.len() == cols@.len(),
            sc == schema.col_names(),
            st == schema.types@,
            schema.wf(),
            sc.len() == st.len(),
            ts@.len() == i,
            first_absent_from(sc, cs, 0) == first_absent_from(sc, cs, i as int),
            forall|j: int| 0 <= j < i ==> ts@[j] == type_of_col(sc, st, cs[j]),
        decreases cols@.len() - i,
    {
        proof {
            assert(cs[i as int] == cols@[i as int]@);
        }
        match schema.col_pos(cols[i].as_str()) {
            Option::None => {
                proof {
                    lemma_index_of_from(sc, cs[i as int], 0);
                }
                return Result::Err(TableError::ColNotFound(cols[i].clone()));
            },
            Option::Some(p) => {
                proof {
                    lemma_index_of_from(sc, cs[i as int], 0);
                }
                ts.push(schema.types[p]);
            },
        }
        i += 1;
    }
    proof {
        assert(ts@ =~= types_of(sc, st, cs));
    }
    Result::Ok(ts)
}

/// The entries a validated batch becomes: every row is checked for arity
/// and for type validity before any entry is built up, or the first
/// offence is reported.
fn build_rows(cols: &Vec<String>, rtypes: &Vec<DataType>, values: &Vec<Vec<String>>) -> (r: Result<
    Vec<Entry>,
    TableError,
>)
    requires
        rtypes@.len() == cols@.len(),
    ensures
        (match r {
            Result::Ok(es) => {
                &&& first_bad_row_from(rtypes@, cols@.len() as int, values.deep_view(), 0) is None
                &&& es@.len() == values@.len()
                &&& forall|i: int|
                    0 <= i < es@.len() ==> (#[trigger] es@[i]).wf() && es@[i]@ == row_entry(
                        cols.deep_view(),
                        values.deep_view()[i],
                    )
            },
            Result::Err(TableError::NumberMismatch(i)) => {
                &&& first_bad_row_from(rtypes@, cols@.len() as int, values.deep_view(), 0)
                    == Option::Some(i as int)
                &&& values.deep_view()[i as int].len() != cols@.len()
            },
            Result::Err(TableError::TypeErr(v)) => {
                &&& first_bad_row_from(rtypes@, cols@.len() as int, values.deep_view(), 0) matches Option::Some(i)
                &&& values.deep_view()[i].len() == cols@.len()
                &&& first_invalid_from(rtypes@, values.deep_view()[i], 0) == Option::Some(v@)
            },
            Result::Err(_) => false,
        }),
{
    let ghost cs = cols.deep_view();
    let ghost ts = rtypes@;
    let ghost rows = values.deep_view();
    let ghost arity = cols@.len() as int;
    let mut es: Vec<Entry> = Vec::new();
    let mut i: usize = 0;
    while i < values.len()
        invariant
            i <= values@.len(),
            cs == cols.deep_view(),
            ts == rtypes@,
            rows == values.deep_view(),
            arity == cols@.len() as int,
            ts.len() == cs.len(),
            cs.len() == cols@.len(),
            rows.len() == values@.len(),
            es@.len() == i,
            first_bad_row_from(ts, arity, rows, 0) == first_bad_row_from(ts, arity, rows, i as int),
            forall|j: int|
                0 <= j < i ==> (#[trigger] es@[j]).wf() && es@[j]@ == row_entry(cs, rows[j]),
        decreases values@.len() - i,
    {
        let row = &values[i];
        proof {
            assert(rows[i as int] == values@[i as int].deep_view());
        }
        if row.len() != cols.len() {
            return Result::Err(TableError::NumberMismatch(i));
        }
        let ghost rv = rows[i as int];
        let mut e = Entry::new();
        proof {
            assert(cs.subrange(0, 0) =~= Seq::<Seq<char>>::empty());
            assert(rv.subrange(0, 0) =~= Seq::<Seq<char>>::empty());
            assert(e@ =~= row_entry(cs.subrange(0, 0), rv.subrange(0, 0)));
        }
        let mut j: usize = 0;
        while j < cols.len()
            invariant
                j <= cols@.len(),
                cs == cols.deep_view(),
                ts == rtypes@,
                ts.len() == cs.len(),
                cs.len() == cols@.len(),
                rv == values@[i as int].deep_view(),
                i < values@.len(),
                rows == values.deep_view(),
                rows.len() == values@.len(),
                rows[i as int] == rv,
                rv.len() == cs.len(),
                arity == cols@.len() as int,
                first_bad_row_from(ts, arity, rows, 0) == first_bad_row_from(
                    ts,
                    arity,
                    rows,
                    i as int,
                ),
                e.wf(),
                e@ == row_entry(cs.subrange(0, j as int), rv.subrange(0, j as int)),
                first_invalid_from(ts, rv, 0) == first_invalid_from(ts, rv, j as int),
            decreases cols@.len() - j,
        {
            proof {
                assert(cs[j as int] == cols@[j as int]@);
                assert(rv[j as int] == values@[i as int]@[j as int]@);
            }
            let value = &values[i][j];
            if !rtypes[j].is_valid(value.as_str()) {
                proof {
                    assert(first_invalid_from(ts, rv, j as int) == Option::Some(rv[j as int]));
                    assert(first_invalid_from(ts, rv, 0) == Option::Some(rv[j as int]));
                    assert(!row_ok(ts, arity, rows[i as int]));
                    assert(first_bad_row_from(ts, arity, rows, i as int) == Option::Some(i as int));
                }
                return Result::Err(TableError::TypeErr(value.clone()));
            }
            e.insert(cols[j].clone(), value.clone());
            proof {
                assert(cs.subrange(0, j as int + 1).drop_last() =~= cs.subrange(0, j as int));
                assert(rv.subrange(0, j as int + 1).drop_last() =~= rv.subrange(0, j as int));
                assert(e@ == row_entry(cs.subrange(0, j as int + 1), rv.subrange(0, j as int + 1)));
            }
            j += 1;
        }
        proof {
            assert(cs.subrange(0, cs.len() as int) =~= cs);
            assert(rv.subrange(0, rv.len() as int) =~= rv);
            assert(row_ok(ts, arity, rows[i as int]));
        }
        es.push(e);
        i += 1;
    }
    Result::Ok(es)
}

/// Not satisfying the condition, as a predicate on entry views.
pub open spec fn not_matching(c: CondView) -> spec_fn(Map<Seq<char>, Seq<char>>) -> bool {
    |e: Map<Seq<char>, Seq<char>>| !cond_matches(c, e)
}

proof fn lemma_kept_from_is_filter(c: CondView, es: Seq<Map<Seq<char>, Seq<char>>>, i: int)
    requires
        0 <= i <= es.len(),
    ensures
        kept_from(c, es, i) == es.skip(i).filter(not_matching(c)),
    decreases es.len() - i,
{
    let p = not_matching(c);
    if i >= es.len() {
        assert(es.skip(i) =~= Seq::<Map<Seq<char>, Seq<char>>>::empty());
        reveal(Seq::filter);
    } else {
        lemma_kept_from_is_filter(c, es, i + 1);
        let head = seq![es[i]];
        assert(es.skip(i) =~= head + es.skip(i + 1));
        Seq::filter_distributes_over_add(head, es.skip(i + 1), p);
        reveal_with_fuel(Seq::filter, 2);
        assert(head.drop_last() =~= Seq::<Map<Seq<char>, Seq<char>>>::empty());
        if p(es[i]) {
            assert(head.filter(p) =~= head);
            assert(head + kept_from(c, es, i + 1) =~= kept_from(c, es, i));
        } else {
            assert(head.filter(p) =~= Seq::<Map<Seq<char>, Seq<char>>>::empty());
            assert(Seq::<Map<Seq<char>, Seq<char>>>::empty() + kept_from(c, es, i + 1)
                =~= kept_from(c, es, i));
        }
    }
}

/// Law: a deletion retains exactly the entries that do not match the
/// condition, in their original order.
pub proof fn lemma_delete_keeps_non_matching(c: CondView, es: Seq<Map<Seq<char>, Seq<char>>>)
    ensures
        kept_from(c, es, 0) == es.filter(not_matching(c)),
{
    lemma_kept_from_is_filter(c, es, 0);
    assert(es.skip(0) =~= es);
}

proof fn lemma_select_all_from(es: Seq<Map<Seq<char>, Seq<char>>>, i: int)
    requires
        0 <= i <= es.len(),
    ensures
        select_from(Option::None, Option::None, es, i) == Result::<
            Seq<Map<Seq<char>, Seq<char>>>,
            Seq<char>,
        >::Ok(es.skip(i)),
    decreases es.len() - i,
{
    if i >= es.len() {
        assert(es.skip(i) =~= Seq::<Map<Seq<char>, Seq<char>>>::empty());
    } else {
        lemma_select_all_from(es, i + 1);
        assert(seq![es[i]] + es.skip(i + 1) =~= es.skip(i));
    }
}

/// Law: a selection of every column with no condition yields exactly the
/// stored entries, all of them, unchanged and in order.
pub proof fn lemma_select_all_no_condition(es: Seq<Map<Seq<char>, Seq<char>>>)
    ensures
        select_from(Option::None, Option::None, es, 0) == Result::<
            Seq<Map<Seq<char>, Seq<char>>>,
            Seq<char>,
        >::Ok(es),
{
    lemma_select_all_from(es, 0);
    assert(es.skip(0) =~= es);
}

/// One table: its owning database's name, its own name, its schema and its
/// entries, in insertion order.
pub struct Table {
    pub db: String,
    pub table_name: String,
    pub schema: Schema,
    pub entries: Vec<Entry>,
}

impl Table {
    /// The schema's two lists are paired one to one and every entry's keys
    /// are unique.
    pub open spec fn wf(&self) -> bool {
        &&& self.schema.wf()
        &&& forall|i: int| 0 <= i < self.entries@.len() ==> self.entries@[i].wf()
    }

    /// The views of this table's entries, in order.
    pub open spec fn entry_views(&self) -> Seq<Map<Seq<char>, Seq<char>>> {
        entry_views_of(self.entries@)
    }

    /// A handle on a table that has no schema and no entries yet. The
    /// caller checks that the owning database exists before constructing
    /// one.
    pub fn new(db: String, table_name: String) -> (t: Table)
        ensures
            t.db == db,
            t.table_name == table_name,
            t.schema.cols@.len() == 0,
            t.schema.types@.len() == 0,
            t.entries@.len() == 0,
            t.wf(),
    {
        Table {
            db,
            table_name,
            schema: Schema { cols: Vec::new(), types: Vec::new() },
            entries: Vec::new(),
        }
    }

    /// Defines the table: the given columns and types become its schema
    /// and its entries become empty. A table of the same name is silently
    /// overwritten.
    pub fn create(&mut self, cols: Vec<String>, types: Vec<DataType>)
        requires
            cols@.len() == types@.len(),
        ensures
            final(self).db == old(self).db,
            final(self).table_name == old(self).table_name,
            final(self).schema.cols == cols,
            final(self).schema.types == types,
            final(self).entries@.len() == 0,
            final(self).wf(),
    {
        self.schema = Schema { cols, types };
        self.entries = Vec::new();
    }

    /// Empties the table's entries and leaves its schema untouched.
    pub fn truncate(&mut self)
        requires
            old(self).wf(),
        ensures
            final(self).db == old(self).db,
            final(self).table_name == old(self).table_name,
            final(self).schema == old(self).schema,
            final(self).entries@.len() == 0,
            final(self).wf(),
    {
        self.entries = Vec::new();
    }

    /// Changes the declared type of `col_name` to `datatype`, touching
    /// nothing else: stored values are not revalidated against the new
    /// type.
    pub fn alter(&mut self, col_name: &str, datatype: DataType) -> (r: Result<(), TableError>)
        requires
            old(self).wf(),
        ensures
            final(self).wf(),
            final(self).db == old(self).db,
            final(self).table_name == old(self).table_name,
            final(self).schema.cols == old(self).schema.cols,
            final(self).entries == old(self).entries,
            (match r {
                Result::Ok(_) => index_of(old(self).schema.col_names(), col_name@) matches Option::Some(p)
                    && final(self).schema.types@ == old(self).schema.types@.update(p, datatype),
                Result::Err(TableError::ColNotFound(c)) => index_of(
                    old(self).schema.col_names(),
                    col_name@,
                ) is None && c@ == col_name@ && final(self).schema.types == old(self).schema.types,
                Result::Err(_) => false,
            }),
    {
        let pos = self.schema.col_pos(col_name);
        match pos {
            Option::None => Result::Err(TableError::ColNotFound(col_name.to_owned())),
            Option::Some(p) => {
                proof {
                    lemma_index_of_from(self.schema.col_names(), col_name@, 0);
                }
                self.schema.types.set(p, datatype);
                Result::Ok(())
            },
        }
    }

    /// Removes the column and its type from the schema. Entries are left
    /// untouched: rows that stored a value for the column keep it, as
    /// stale data the schema no longer names.
    pub fn remove_col(&mut self, col_name: &str) -> (r: Result<(), TableError>)
        requires
            old(self).wf(),
        ensures
            final(self).wf(),
            final(self).db == old(self).db,
            final(self).table_name == old(self).table_name,
            final(self).entries == old(self).entries,
            (match r {
                Result::Ok(_) => index_of(old(self).schema.col_names(), col_name@) matches Option::Some(p)
                    && final(self).schema.cols.deep_view() == old(self).schema.col_names().remove(p)
                    && final(self).schema.types@ == old(self).schema.types@.remove(p),
                Result::Err(TableError::ColNotFound(c)) => index_of(
                    old(self).schema.col_names(),
                    col_name@,
                ) is None && c@ == col_name@ && final(self).schema == old(self).schema,
                Result::Err(_) => false,
            }),
    {
        let pos = self.schema.col_pos(col_name);
        match pos {
            Option::None => Result::Err(TableError::ColNotFound(col_name.to_owned())),
            Option::Some(p) => {
                proof {
                    lemma_index_of_from(self.schema.col_names(), col_name@, 0);
                }
                self.schema.cols.remove(p);
                self.schema.types.remove(p);
                proof {
                    assert(self.schema.cols.deep_view() =~= old(self).schema.col_names().remove(
                        p as int,
                    ));
                }
                Result::Ok(())
            },
        }
    }

    /// Validates and appends a batch of rows. `cols` names the columns the
    /// rows' values fall under, in order; `All` stands for the whole
    /// schema. Every row of the batch is validated before any is appended,
    /// so a failure leaves the entries exactly as they were; on success
    /// the new entries follow the old ones in the order given.
    pub fn insert(&mut self, cols: SelectCols, values: Vec<Vec<String>>) -> (r: Result<
        (),
        TableError,
    >)
        requires
            old(self).wf(),
        ensures
            final(self).wf(),
            final(self).db == old(self).db,
            final(self).table_name == old(self).table_name,
            final(self).schema == old(self).schema,
            ({
                let sc = old(self).schema.col_names();
                let st = old(self).schema.types@;
                let rc = resolved_cols(cols@, sc);
                let ts = types_of(sc, st, rc);
                let rows = values.deep_view();
                match r {
                    Result::Ok(_) => {
                        &&& first_absent_from(sc, rc, 0) is None
                        &&& first_bad_row_from(ts, rc.len() as int, rows, 0) is None
                        &&& final(self).entry_views() == old(self).entry_views() + row_entries(
                            rc,
                            rows,
                        )
                    },
                    Result::Err(TableError::ColNotFound(c)) => {
                        &&& first_absent_from(sc, rc, 0) == Option::Some(c@)
                        &&& final(self).entries == old(self).entries
                    },
                    Result::Err(TableError::NumberMismatch(i)) => {
                        &&& first_absent_from(sc, rc, 0) is None
                        &&& first_bad_row_from(ts, rc.len() as int, rows, 0) == Option::Some(
                            i as int,
                        )
                        &&& rows[i as int].len() != rc.len()
                        &&& final(self).entries == old(self).entries
                    },
                    Result::Err(TableError::TypeErr(v)) => {
                        &&& first_absent_from(sc, rc, 0) is None
                        &&& first_bad_row_from(ts, rc.len() as int, rows, 0) matches Option::Some(i)
                        &&& rows[first_bad_row_from(ts, rc.len() as int, rows, 0)->Some_0].len()
                            == rc.len()
                        &&& first_invalid_from(
                            ts,
                            rows[first_bad_row_from(ts, rc.len() as int, rows, 0)->Some_0],
                            0,
                        ) == Option::Some(v@)
                        &&& final(self).entries == old(self).entries
                    },
                    Result::Err(_) => false,
                }
            }),
    {
        let ghost sc = self.schema.col_names();
        let ghost gsel = cols@;
        let resolved: Vec<String> = match cols {
            SelectCols::All => clone_strings(&self.schema.cols),
            SelectCols::Cols(cs) => cs,
        };
        proof {
            assert(resolved.deep_view() =~= resolved_cols(gsel, sc));
        }
        let rtypes = match resolve_types(&self.schema, &resolved) {
            Result::Ok(ts) => ts,
            Result::Err(e) => {
                return Result::Err(e);
            },
        };
        let mut built = match build_rows(&resolved, &rtypes, &values) {
            Result::Ok(es) => es,
            Result::Err(e) => {
                return Result::Err(e);
            },
        };
        let ghost new_views = entry_views_of(built@);
        self.entries.append(&mut built);
        proof {
            assert(new_views =~= row_entries(resolved.deep_view(), values.deep_view()));
            assert(self.entry_views() =~= entry_views_of(old(self).entries@) + new_views);
        }
        Result::Ok(())
    }

    /// Returns the entries that match the condition, in order, projected
    /// onto the requested columns. The absence of a condition matches
    /// every entry; `All` returns matching entries unchanged. A requested
    /// column that a matching entry lacks is a recoverable error, not a
    /// crash.
    pub fn select(&self, cols: SelectCols, condition: Option<Condition>) -> (r: Result<
        Vec<Entry>,
        TableError,
    >)
        requires
            self.wf(),
        ensures
            (match r {
                Result::Ok(out) => {
                    &&& select_from(cols@, opt_cond_view(condition), self.entry_views(), 0)
                        == Result::<Seq<Map<Seq<char>, Seq<char>>>, Seq<char>>::Ok(
                        entry_views_of(out@),
                    )
                    &&& forall|i: int| 0 <= i < out@.len() ==> (#[trigger] out@[i]).wf()
                },
                Result::Err(TableError::ColNotFound(c)) => select_from(
                    cols@,
                    opt_cond_view(condition),
                    self.entry_views(),
                    0,
                ) == Result::<Seq<Map<Seq<char>, Seq<char>>>, Seq<char>>::Err(c@),
                Result::Err(_) => false,
            }),
    {
        let ghost proj = cols@;
        let ghost cv = opt_cond_view(condition);
        let ghost evs = self.entry_views();
        let mut out: Vec<Entry> = Vec::new();
        proof {
            if select_from(proj, cv, evs, 0) is Ok {
                let s = select_from(proj, cv, evs, 0)->Ok_0;
                assert(entry_views_of(out@) + s =~= s);
            }
        }
        let mut i: usize = 0;
        while i < self.entries.len()
            invariant
                self.wf(),
                i <= self.entries@.len(),
                proj == cols@,
                cv == opt_cond_view(condition),
                evs == self.entry_views(),
                evs.len() == self.entries@.len(),
                forall|j: int| 0 <= j < out@.len() ==> (#[trigger] out@[j]).wf(),
                select_from(proj, cv, evs, 0) == (match select_from(proj, cv, evs, i as int) {
                    Result::Ok(s) => Result::<Seq<Map<Seq<char>, Seq<char>>>, Seq<char>>::Ok(
                        entry_views_of(out@) + s,
                    ),
                    Result::Err(c) => Result::<Seq<Map<Seq<char>, Seq<char>>>, Seq<char>>::Err(c),
                }),
            decreases self.entries@.len() - i,
        {
            let e = &self.entries[i];
            let ghost ev = evs[i as int];
            let ghost prev = entry_views_of(out@);
            proof {
                assert(ev == self.entries@[i as int]@);
            }
            if Table::match_query(&condition, e) {
                match &cols {
                    SelectCols::All => {
                        out.push(e.duplicate());
                        proof {
                            assert(entry_views_of(out@) =~= prev.push(ev));
                            let rest = select_from(proj, cv, evs, i as int + 1);
                            if rest is Ok {
                                let s = rest->Ok_0;
                                assert(prev + (seq![ev] + s) =~= entry_views_of(out@) + s);
                            }
                        }
                    },
                    SelectCols::Cols(pcols) => {
                        let ghost pcs = pcols.deep_view();
                        let mut ne = Entry::new();
                        proof {
                            assert(pcs.subrange(0, 0) =~= Seq::<Seq<char>>::empty());
                            assert(ne@ =~= projected(pcs.subrange(0, 0), ev));
                        }
                        let mut j: usize = 0;
                        while j < pcols.len()
                            invariant
                                j <= pcols@.len(),
                                self.wf(),
                                i < self.entries@.len(),
                                ev == self.entries@[i as int]@,
                                evs == self.entry_views(),
                                evs.len() == self.entries@.len(),
                                ev == evs[i as int],
                                e.wf(),
                                e@ == ev,
                                proj == cols@,
                                cv == opt_cond_view(condition),
                                proj == Option::Some(pcs),
                                pcs == pcols.deep_view(),
                                pcs.len() == pcols@.len(),
                                query_matches(cv, ev),
                                ne.wf(),
                                ne@ == projected(pcs.subrange(0, j as int), ev),
                                first_missing_from(pcs, ev, 0) == first_missing_from(
                                    pcs,
                                    ev,
                                    j as int,
                                ),
                                select_from(proj, cv, evs, 0) == (match select_from(
                                    proj,
                                    cv,
                                    evs,
                                    i as int,
                                ) {
                                    Result::Ok(s) => Result::<
                                        Seq<Map<Seq<char>, Seq<char>>>,
                                        Seq<char>,
                                    >::Ok(prev + s),
                                    Result::Err(c) => Result::<
                                        Seq<Map<Seq<char>, Seq<char>>>,
                                        Seq<char>,
                                    >::Err(c),
                                }),
                            decreases pcols@.len() - j,
                        {
                            proof {
                                assert(pcs[j as int] == pcols@[j as int]@);
                            }
                            let pc = &pcols[j];
                            match e.get(pc.as_str()) {
                                Option::None => {
                                    proof {
                                        assert(first_missing_from(pcs, ev, j as int)
                                            == Option::Some(pcs[j as int]));
                                        assert(select_from(proj, cv, evs, i as int)
                                            == Result::<
                                            Seq<Map<Seq<char>, Seq<char>>>,
                                            Seq<char>,
                                        >::Err(pcs[j as int]));
                                    }
                                    return Result::Err(TableError::ColNotFound(pc.clone()));
                                },
                                Option::Some(v) => {
                                    ne.insert(pc.clone(), v.clone());
                                    proof {
                                        assert(pcs.subrange(0, j as int + 1).drop_last()
                                            =~= pcs.subrange(0, j as int));
                                        assert(ne@ == projected(pcs.subrange(0, j as int + 1), ev));
                                    }
                                },
                            }
                            j += 1;
                        }
                        proof {
                            assert(pcs.subrange(0, pcs.len() as int) =~= pcs);
                        }
                        out.push(ne);
                        proof {
                            assert(entry_views_of(out@) =~= prev.push(projected(pcs, ev)));
                            let rest = select_from(proj, cv, evs, i as int + 1);
                            if rest is Ok {
                                let s = rest->Ok_0;
                                assert(prev + (seq![projected(pcs, ev)] + s) =~= entry_views_of(
                                    out@,
                                ) + s);
                            }
                        }
                    },
                }
            }
            i += 1;
        }
        proof {
            let rest = select_from(proj, cv, evs, self.entries@.len() as int);
            assert(rest == Result::<Seq<Map<Seq<char>, Seq<char>>>, Seq<char>>::Ok(
                Seq::<Map<Seq<char>, Seq<char>>>::empty(),
            ));
            assert(entry_views_of(out@) + Seq::<Map<Seq<char>, Seq<char>>>::empty()
                =~= entry_views_of(out@));
        }
        Result::Ok(out)
    }

    /// Retains exactly the entries that do not match the condition,
    /// preserving the survivors' relative order.
    pub fn delete(&mut self, condition: Condition)
        requires
            old(self).wf(),
        ensures
            final(self).wf(),
            final(self).db == old(self).db,
            final(self).table_name == old(self).table_name,
            final(self).schema == old(self).schema,
            final(self).entry_views() == kept_from(condition@, old(self).entry_views(), 0),
    {
        let kept = retained(&self.entries, &condition);
        self.entries = kept;
    }

    /// Appends the column and its type to the schema and gives every
    /// existing entry the type's default value under the new column.
    pub fn add_col(&mut self, col_name: &str, datatype: DataType) -> (r: Result<(), TableError>)
        requires
            old(self).wf(),
        ensures
            final(self).wf(),
            final(self).db == old(self).db,
            final(self).table_name == old(self).table_name,
            (match r {
                Result::Ok(_) => {
                    &&& !old(self).schema.col_names().contains(col_name@)
                    &&& final(self).schema.cols.deep_view() == old(self).schema.col_names().push(
                        col_name@,
                    )
                    &&& final(self).schema.types@ == old(self).schema.types@.push(datatype)
                    &&& final(self).entry_views().len() == old(self).entry_views().len()
                    &&& forall|i: int|
                        0 <= i < old(self).entry_views().len() ==> final(self).entry_views()[i]
                            == old(self).entry_views()[i].insert(col_name@, default_for(datatype))
                },
                Result::Err(TableError::ColAlreadyExist(c)) => {
                    &&& old(self).schema.col_names().contains(col_name@)
                    &&& c@ == col_name@
                    &&& *final(self) == *old(self)
                },
                Result::Err(_) => false,
            }),
    {
        if self.schema.col_exist(col_name) {
            return Result::Err(TableError::ColAlreadyExist(col_name.to_owned()));
        }
        let backfilled = backfill(&self.entries, col_name, datatype);
        self.schema.cols.push(col_name.to_owned());
        self.schema.types.push(datatype);
        self.entries = backfilled;
        proof {
            assert(self.schema.cols.deep_view() =~= old(self).schema.col_names().push(col_name@));
        }
        Result::Ok(())
    }

    /// Whether an entry satisfies an optional condition: a missing key
    /// never matches, equality operators compare the stored string
    /// exactly, and the ordering operators compare lexicographically.
    pub fn match_query(condition: &Option<Condition>, entry: &Entry) -> (r: bool)
        requires
            entry.wf(),
        ensures
            r == query_matches(opt_cond_view(*condition), entry@),
    {
        match condition {
            Option::None => true,
            Option::Some(c) => eval_cond(c, entry),
        }
    }

    /// The guard every reading or mutating operation runs first: the
    /// owning database must exist, then the table's two backing files
    /// must. The caller checks the filesystem and hands the outcomes in.
    pub fn exists_or_err(db_exists: bool, files_exist: bool, db: &str, table_name: &str) -> (r:
        Result<(), TableError>)
        ensures
            (match r {
                Result::Ok(_) => db_exists && files_exist,
                Result::Err(TableError::DBErr(DatabaseError::NotFound(n))) => !db_exists && n@
                    == db@,
                Result::Err(TableError::TableNotFound(n)) => db_exists && !files_exist && n@
                    == table_name@,
                Result::Err(_) => false,
            }),
    {
        if !db_exists {
            Result::Err(TableError::DBErr(DatabaseError::NotFound(db.to_owned())))
        } else if !files_exist {
            Result::Err(TableError::TableNotFound(table_name.to_owned()))
        } else {
            Result::Ok(())
        }
    }
}

} // verus!
