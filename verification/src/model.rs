//! The problem that a document describes, and its assembly from records.

use vstd::prelude::*;
use vstd::string::*;
use crate::number::Number;
use crate::records::{
    BoundSpec, ColumnSpec, EntrySpec, QuadSpec, Records, RecordsSpec, RhsSpec, RowSpec,
};
use crate::table::{map_of, pairs_of, Table};
use crate::types::{BoundType, ColumnType, RowType};

verus! {

/// A problem as contracts speak of it: its name and six maps.
pub ghost struct Problem {
    /// The name of the problem.
    pub name: Seq<char>,
    /// The kind of each row, by the row's name.
    pub rows: Map<Seq<char>, RowType>,
    /// The kind of each column, by the column's name.
    pub cols: Map<Seq<char>, ColumnType>,
    /// The coefficients of the matrix, by row and column.
    pub entries: Map<(Seq<char>, Seq<char>), Seq<char>>,
    /// The right-hand sides, by row.
    pub rhs: Map<Seq<char>, Seq<char>>,
    /// The bounds, by column.
    pub bounds: Map<Seq<char>, (BoundType, Seq<char>)>,
    /// The coefficients of the quadratic objective, by the two columns in
    /// the order in which the document names them.
    pub quadratic: Map<(Seq<char>, Seq<char>), Seq<char>>,
}

impl Problem {
    /// Whether every name that the problem uses is the name of a row or
    /// column that the problem defines.
    pub open spec fn resolved(self) -> bool {
        &&& forall|k: (Seq<char>, Seq<char>)| #[trigger]
            self.entries.contains_key(k) ==> self.rows.contains_key(k.0)
                && self.cols.contains_key(k.1)
        &&& forall|k: Seq<char>| #[trigger] self.rhs.contains_key(k) ==> self.rows.contains_key(k)
        &&& forall|k: Seq<char>| #[trigger]
            self.bounds.contains_key(k) ==> self.cols.contains_key(k)
        &&& forall|k: (Seq<char>, Seq<char>)| #[trigger]
            self.quadratic.contains_key(k) ==> self.cols.contains_key(k.0)
                && self.cols.contains_key(k.1)
    }
}

/// Each row as a pair of its name and its kind.
pub open spec fn row_pairs(rows: Seq<RowSpec>) -> Seq<(Seq<char>, RowType)> {
    Seq::new(rows.len(), |i: int| (rows[i].name, rows[i].kind))
}

/// Each column as a pair of its name and its kind.
pub open spec fn column_pairs(cols: Seq<ColumnSpec>) -> Seq<(Seq<char>, ColumnType)> {
    Seq::new(cols.len(), |i: int| (cols[i].name, cols[i].kind))
}

/// Each matrix entry as a pair of its row and column and its coefficient.
pub open spec fn entry_pairs(entries: Seq<EntrySpec>) -> Seq<((Seq<char>, Seq<char>), Seq<char>)> {
    Seq::new(entries.len(), |i: int| ((entries[i].row, entries[i].col), entries[i].value))
}

/// Each right-hand side as a pair of its row and its value; the label of
/// the set is dropped.
pub open spec fn rhs_pairs(rhs: Seq<RhsSpec>) -> Seq<(Seq<char>, Seq<char>)> {
    Seq::new(rhs.len(), |i: int| (rhs[i].row, rhs[i].value))
}

/// Each bound as a pair of its column and its kind and value; the label of
/// the set is dropped.
pub open spec fn bound_pairs(bounds: Seq<BoundSpec>) -> Seq<(Seq<char>, (BoundType, Seq<char>))> {
    Seq::new(bounds.len(), |i: int| (bounds[i].col, (bounds[i].kind, bounds[i].value)))
}

/// Each quadratic term as a pair of its two columns, in the order of the
/// document, and its coefficient.
pub open spec fn quad_pairs(quadratic: Seq<QuadSpec>) -> Seq<((Seq<char>, Seq<char>), Seq<char>)> {
    Seq::new(
        quadratic.len(),
        |i: int| ((quadratic[i].first, quadratic[i].second), quadratic[i].value),
    )
}

/// The rows that the entries name, each a free row.
pub open spec fn free_row_pairs(entries: Seq<EntrySpec>) -> Seq<(Seq<char>, RowType)> {
    Seq::new(entries.len(), |i: int| (entries[i].row, RowType::N))
}

/// The columns that the entries name, each a continuous column.
pub open spec fn continuous_column_pairs(entries: Seq<EntrySpec>) -> Seq<
    (Seq<char>, ColumnType),
> {
    Seq::new(entries.len(), |i: int| (entries[i].col, ColumnType::__))
}

/// The problem named `name` that the records describe. Of two records with
/// the same key the later one counts. Where no row is defined, the rows are
/// those that the entries name, all free; where no column is defined, the
/// columns are those that the entries name, all continuous.
pub open spec fn problem_of(name: Seq<char>, r: RecordsSpec) -> Problem {
    Problem {
        name,
        rows: if r.rows.len() > 0 {
            map_of(row_pairs(r.rows))
        } else {
            map_of(free_row_pairs(r.entries))
        },
        cols: if r.cols.len() > 0 {
            map_of(column_pairs(r.cols))
        } else {
            map_of(continuous_column_pairs(r.entries))
        },
        entries: map_of(entry_pairs(r.entries)),
        rhs: map_of(rhs_pairs(r.rhs)),
        bounds: map_of(bound_pairs(r.bounds)),
        quadratic: map_of(quad_pairs(r.quadratic)),
    }
}

/// A parsed problem.
///
/// Sections that the document lacks are empty tables. Each table is walked
/// in the order of its keys.
#[derive(Debug, PartialEq, Eq)]
pub struct SIF {
    name: String,
    rows: Table<String, RowType>,
    cols: Table<String, ColumnType>,
    entries: Table<(String, String), Number>,
    rhs: Table<String, Number>,
    bounds: Table<String, (BoundType, Number)>,
    quadratic: Table<(String, String), Number>,
}

impl View for SIF {
    type V = Problem;

    closed spec fn view(&self) -> Problem {
        Problem {
            name: self.name@,
            rows: self.rows@,
            cols: self.cols@,
            entries: self.entries@,
            rhs: self.rhs@,
            bounds: self.bounds@,
            quadratic: self.quadratic@,
        }
    }
}

impl SIF {
    /// The problem without a name, rows, columns or anything else.
    pub fn new() -> (p: SIF)
        ensures
            p@ == problem_of(Seq::empty(), crate::records::no_records()),
    {
        let p = SIF {
            name: String::new(),
            rows: Table::new(),
            cols: Table::new(),
            entries: Table::new(),
            rhs: Table::new(),
            bounds: Table::new(),
            quadratic: Table::new(),
        };
        proof {
            let r = crate::records::no_records();
            assert(row_pairs(r.rows) =~= Seq::empty());
            assert(free_row_pairs(r.entries) =~= Seq::empty());
            assert(continuous_column_pairs(r.entries) =~= Seq::empty());
            assert(entry_pairs(r.entries) =~= Seq::empty());
            assert(rhs_pairs(r.rhs) =~= Seq::empty());
            assert(bound_pairs(r.bounds) =~= Seq::empty());
            assert(quad_pairs(r.quadratic) =~= Seq::empty());
        }
        p
    }

    /// The name of the problem.
    pub fn get_name(&self) -> (r: &str)
        ensures
            r@ == self@.name,
    {
        self.name.as_str()
    }

    /// The rows, by name.
    pub fn get_rows(&self) -> (r: &Table<String, RowType>)
        ensures
            r@ == self@.rows,
    {
        &self.rows
    }

    /// The columns, by name.
    pub fn get_cols(&self) -> (r: &Table<String, ColumnType>)
        ensures
            r@ == self@.cols,
    {
        &self.cols
    }

    /// The coefficients of the matrix, by row and column.
    pub fn get_entries(&self) -> (r: &Table<(String, String), Number>)
        ensures
            r@ == self@.entries,
    {
        &self.entries
    }

    /// The right-hand sides, by row.
    pub fn get_rhs(&self) -> (r: &Table<String, Number>)
        ensures
            r@ == self@.rhs,
    {
        &self.rhs
    }

    /// The bounds, by column.
    pub fn get_bounds(&self) -> (r: &Table<String, (BoundType, Number)>)
        ensures
            r@ == self@.bounds,
    {
        &self.bounds
    }

    /// The coefficients of the quadratic objective, by the two columns.
    pub fn get_quadratic(&self) -> (r: &Table<(String, String), Number>)
        ensures
            r@ == self@.quadratic,
    {
        &self.quadratic
    }
}

/// Assembles the problem named `name` from the records.
///
/// Of two records with the same key the later one counts. Where the records
/// define no row, the rows are those that the entries name, all free; where
/// they define no column, the columns are those that the entries name, all
/// continuous.
pub fn assemble(name: String, records: &Records) -> (p: SIF)
    ensures
        p@ == problem_of(name@, records@),
{
    let ghost r = records@;
    let mut row_list: Vec<(String, RowType)> = Vec::new();
    let mut col_list: Vec<(String, ColumnType)> = Vec::new();
    let mut entry_list: Vec<((String, String), Number)> = Vec::new();
    let mut rhs_list: Vec<(String, Number)> = Vec::new();
    let mut bound_list: Vec<(String, (BoundType, Number))> = Vec::new();
    let mut quad_list: Vec<((String, String), Number)> = Vec::new();

    let mut i: usize = 0;
    while i < records.rows.len()
        invariant
            i <= records.rows.len(),
            r == records@,
            row_list.len() == i,
            forall|k: int|
                0 <= k < i ==> ((#[trigger] row_list@[k]).0@, row_list@[k].1@) == row_pairs(
                    r.rows,
                )[k],
        decreases records.rows.len() - i,
    {
        let x = &records.rows[i];
        row_list.push((x.name.clone(), x.kind));
        i = i + 1;
    }
    assert(pairs_of(row_list@) =~= row_pairs(r.rows));

    let mut i: usize = 0;
    while i < records.cols.len()
        invariant
            i <= records.cols.len(),
            r == records@,
            col_list.len() == i,
            forall|k: int|
                0 <= k < i ==> ((#[trigger] col_list@[k]).0@, col_list@[k].1@) == column_pairs(
                    r.cols,
                )[k],
        decreases records.cols.len() - i,
    {
        let x = &records.cols[i];
        col_list.push((x.name.clone(), x.kind));
        i = i + 1;
    }
    assert(pairs_of(col_list@) =~= column_pairs(r.cols));

    let mut i: usize = 0;
    while i < records.entries.len()
        invariant
            i <= records.entries.len(),
            r == records@,
            entry_list.len() == i,
            forall|k: int|
                0 <= k < i ==> ((#[trigger] entry_list@[k]).0@, entry_list@[k].1@) == entry_pairs(
                    r.entries,
                )[k],
        decreases records.entries.len() - i,
    {
        let x = &records.entries[i];
        entry_list.push(((x.row.clone(), x.col.clone()), x.value.clone()));
        i = i + 1;
    }
    assert(pairs_of(entry_list@) =~= entry_pairs(r.entries));

    let mut i: usize = 0;
    while i < records.rhs.len()
        invariant
            i <= records.rhs.len(),
            r == records@,
            rhs_list.len() == i,
            forall|k: int|
                0 <= k < i ==> ((#[trigger] rhs_list@[k]).0@, rhs_list@[k].1@) == rhs_pairs(
                    r.rhs,
                )[k],
        decreases records.rhs.len() - i,
    {
        let x = &records.rhs[i];
        rhs_list.push((x.row.clone(), x.value.clone()));
        i = i + 1;
    }
    assert(pairs_of(rhs_list@) =~= rhs_pairs(r.rhs));

    let mut i: usize = 0;
    while i < records.bounds.len()
        invariant
            i <= records.bounds.len(),
            r == records@,
            bound_list.len() == i,
            forall|k: int|
                0 <= k < i ==> ((#[trigger] bound_list@[k]).0@, bound_list@[k].1@) == bound_pairs(
                    r.bounds,
                )[k],
        decreases records.bounds.len() - i,
    {
        let x = &records.bounds[i];
        bound_list.push((x.col.clone(), (x.kind, x.value.clone())));
        i = i + 1;
    }
    assert(pairs_of(bound_list@) =~= bound_pairs(r.bounds));

    let mut i: usize = 0;
    while i < records.quadratic.len()
        invariant
            i <= records.quadratic.len(),
            r == records@,
            quad_list.len() == i,
            forall|k: int|
                0 <= k < i ==> ((#[trigger] quad_list@[k]).0@, quad_list@[k].1@) == quad_pairs(
                    r.quadratic,
                )[k],
        decreases records.quadratic.len() - i,
    {
        let x = &records.quadratic[i];
        quad_list.push(((x.first.clone(), x.second.clone()), x.value.clone()));
        i = i + 1;
    }
    assert(pairs_of(quad_list@) =~= quad_pairs(r.quadratic));

    if records.rows.len() == 0 {
        let mut i: usize = 0;
        while i < records.entries.len()
            invariant
                i <= records.entries.len(),
                r == records@,
                row_list.len() == i,
                forall|k: int|
                    0 <= k < i ==> ((#[trigger] row_list@[k]).0@, row_list@[k].1@)
                        == free_row_pairs(r.entries)[k],
            decreases records.entries.len() - i,
        {
            let x = &records.entries[i];
            row_list.push((x.row.clone(), RowType::N));
            i = i + 1;
        }
        assert(pairs_of(row_list@) =~= free_row_pairs(r.entries));
    }
    if records.cols.len() == 0 {
        let mut i: usize = 0;
        while i < records.entries.len()
            invariant
                i <= records.entries.len(),
                r == records@,
                col_list.len() == i,
                forall|k: int|
                    0 <= k < i ==> ((#[trigger] col_list@[k]).0@, col_list@[k].1@)
                        == continuous_column_pairs(r.entries)[k],
            decreases records.entries.len() - i,
        {
            let x = &records.entries[i];
            col_list.push((x.col.clone(), ColumnType::__));
            i = i + 1;
        }
        assert(pairs_of(col_list@) =~= continuous_column_pairs(r.entries));
    }
    SIF {
        name,
        rows: Table::from_pairs(row_list),
        cols: Table::from_pairs(col_list),
        entries: Table::from_pairs(entry_list),
        rhs: Table::from_pairs(rhs_list),
        bounds: Table::from_pairs(bound_list),
        quadratic: Table::from_pairs(quad_list),
    }
}

} // verus!
