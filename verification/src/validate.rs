//! The check of the records against each other, made once all sections are
//! read and before the problem is assembled.
//!
//! The checks run in a fixed order and the first that fails gives the
//! error: no two rows share a name; no two columns share a name; every
//! matrix entry names a known row and a known column; every right-hand side
//! names a known row; every bound names a known column; every quadratic
//! term names two known columns.

use vstd::prelude::*;
use vstd::string::*;
use crate::error::{failure, ErrorKind, Failure, ParseError};
use crate::records::{
    BoundSpec, ColumnDef, ColumnSpec, EntrySpec, QuadSpec, Records, RecordsSpec, RhsSpec, RowDef,
    RowSpec,
};
use crate::table::Table;
use crate::text::views_of;

verus! {

/// The names of the rows, in order.
pub open spec fn row_names(rows: Seq<RowSpec>) -> Seq<Seq<char>> {
    Seq::new(rows.len(), |i: int| rows[i].name)
}

/// The names of the columns, in order.
pub open spec fn column_names(cols: Seq<ColumnSpec>) -> Seq<Seq<char>> {
    Seq::new(cols.len(), |i: int| cols[i].name)
}

/// The first position at or after `j` whose name also stands at an earlier
/// position, or the length of `names` where there is none.
pub open spec fn repeat_from(names: Seq<Seq<char>>, j: int) -> int
    decreases names.len() - j,
{
    if 0 <= j < names.len() && !names.take(j).contains(names[j]) {
        repeat_from(names, j + 1)
    } else {
        j
    }
}

/// The first position whose name also stands at an earlier position, or the
/// length of `names` where all names differ.
pub open spec fn first_repeat(names: Seq<Seq<char>>) -> int {
    repeat_from(names, 0)
}

/// Whether the entry names a known row and a known column.
pub open spec fn entry_resolves(e: EntrySpec, rows: Set<Seq<char>>, cols: Set<Seq<char>>) -> bool {
    rows.contains(e.row) && cols.contains(e.col)
}

/// The first entry at or after `i` that does not resolve.
pub open spec fn bad_entry_from(
    entries: Seq<EntrySpec>,
    rows: Set<Seq<char>>,
    cols: Set<Seq<char>>,
    i: int,
) -> int
    decreases entries.len() - i,
{
    if 0 <= i < entries.len() && entry_resolves(entries[i], rows, cols) {
        bad_entry_from(entries, rows, cols, i + 1)
    } else {
        i
    }
}

/// The first right-hand side at or after `i` whose row is unknown.
pub open spec fn bad_rhs_from(rhs: Seq<RhsSpec>, rows: Set<Seq<char>>, i: int) -> int
    decreases rhs.len() - i,
{
    if 0 <= i < rhs.len() && rows.contains(rhs[i].row) {
        bad_rhs_from(rhs, rows, i + 1)
    } else {
        i
    }
}

/// The first bound at or after `i` whose column is unknown.
pub open spec fn bad_bound_from(bounds: Seq<BoundSpec>, cols: Set<Seq<char>>, i: int) -> int
    decreases bounds.len() - i,
{
    if 0 <= i < bounds.len() && cols.contains(bounds[i].col) {
        bad_bound_from(bounds, cols, i + 1)
    } else {
        i
    }
}

/// Whether the quadratic term names two known columns.
pub open spec fn quad_resolves(q: QuadSpec, cols: Set<Seq<char>>) -> bool {
    cols.contains(q.first) && cols.contains(q.second)
}

/// The first quadratic term at or after `i` that does not resolve.
pub open spec fn bad_quad_from(quadratic: Seq<QuadSpec>, cols: Set<Seq<char>>, i: int) -> int
    decreases quadratic.len() - i,
{
    if 0 <= i < quadratic.len() && quad_resolves(quadratic[i], cols) {
        bad_quad_from(quadratic, cols, i + 1)
    } else {
        i
    }
}

/// The failure of the first check that the records do not pass, with the
/// name that the check stumbles on; `None` where they pass all checks.
pub open spec fn fault_of(r: RecordsSpec) -> Option<Failure> {
    let rn = row_names(r.rows);
    let cn = column_names(r.cols);
    let rows = rn.to_set();
    let cols = cn.to_set();
    let e = bad_entry_from(r.entries, rows, cols, 0);
    let h = bad_rhs_from(r.rhs, rows, 0);
    let b = bad_bound_from(r.bounds, cols, 0);
    let q = bad_quad_from(r.quadratic, cols, 0);
    if first_repeat(rn) < rn.len() {
        Some(failure(ErrorKind::DuplicateRow, rn[first_repeat(rn)]))
    } else if first_repeat(cn) < cn.len() {
        Some(failure(ErrorKind::DuplicateColumn, cn[first_repeat(cn)]))
    } else if e < r.entries.len() {
        if !rows.contains(r.entries[e].row) {
            Some(failure(ErrorKind::EntryUndefinedRow, r.entries[e].row))
        } else {
            Some(failure(ErrorKind::EntryUndefinedColumn, r.entries[e].col))
        }
    } else if h < r.rhs.len() {
        Some(failure(ErrorKind::RhsUndefinedRow, r.rhs[h].row))
    } else if b < r.bounds.len() {
        Some(failure(ErrorKind::BoundUndefinedColumn, r.bounds[b].col))
    } else if q < r.quadratic.len() {
        if !cols.contains(r.quadratic[q].first) {
            Some(failure(ErrorKind::QuadraticUndefinedColumn, r.quadratic[q].first))
        } else {
            Some(failure(ErrorKind::QuadraticUndefinedColumn, r.quadratic[q].second))
        }
    } else {
        None
    }
}

/// What it is for records to fit together: the names of the rows differ,
/// the names of the columns differ, and every name that is used is defined.
pub open spec fn consistent(r: RecordsSpec) -> bool {
    let rows = row_names(r.rows).to_set();
    let cols = column_names(r.cols).to_set();
    &&& row_names(r.rows).no_duplicates()
    &&& column_names(r.cols).no_duplicates()
    &&& forall|i: int|
        0 <= i < r.entries.len() ==> rows.contains(#[trigger] r.entries[i].row) && cols.contains(
            r.entries[i].col,
        )
    &&& forall|i: int| 0 <= i < r.rhs.len() ==> rows.contains(#[trigger] r.rhs[i].row)
    &&& forall|i: int| 0 <= i < r.bounds.len() ==> cols.contains(#[trigger] r.bounds[i].col)
    &&& forall|i: int|
        0 <= i < r.quadratic.len() ==> cols.contains(#[trigger] r.quadratic[i].first)
            && cols.contains(r.quadratic[i].second)
}

/// Where `repeat_from` stops: the names before that position all differ,
/// and the name at it, if there is one, stands before it too.
pub proof fn lemma_repeat_from(names: Seq<Seq<char>>, j: int)
    requires
        0 <= j <= names.len(),
        names.take(j).no_duplicates(),
    ensures
        j <= repeat_from(names, j) <= names.len(),
        names.take(repeat_from(names, j)).no_duplicates(),
        repeat_from(names, j) < names.len() ==> names.take(repeat_from(names, j)).contains(
            names[repeat_from(names, j)],
        ),
    decreases names.len() - j,
{
    if j < names.len() && !names.take(j).contains(names[j]) {
        let t = names.take(j + 1);
        assert forall|a: int, b: int| 0 <= a < t.len() && 0 <= b < t.len() && a != b implies t[a]
            != t[b] by {
            if a < j && b < j {
                assert(names.take(j)[a] != names.take(j)[b]);
            } else if a == j {
                assert(names.take(j)[b] == t[b]);
            } else {
                assert(names.take(j)[a] == t[a]);
            }
        }
        lemma_repeat_from(names, j + 1);
    }
}

/// Where `bad_entry_from` stops: the entries before that position
/// resolve, and the entry at it, if there is one, does not.
pub proof fn lemma_bad_entry_from(
    entries: Seq<EntrySpec>,
    rows: Set<Seq<char>>,
    cols: Set<Seq<char>>,
    i: int,
)
    requires
        0 <= i <= entries.len(),
    ensures
        i <= bad_entry_from(entries, rows, cols, i) <= entries.len(),
        forall|k: int|
            i <= k < bad_entry_from(entries, rows, cols, i) ==> entry_resolves(
                #[trigger] entries[k],
                rows,
                cols,
            ),
        bad_entry_from(entries, rows, cols, i) < entries.len() ==> !entry_resolves(
            entries[bad_entry_from(entries, rows, cols, i)],
            rows,
            cols,
        ),
    decreases entries.len() - i,
{
    if i < entries.len() && entry_resolves(entries[i], rows, cols) {
        lemma_bad_entry_from(entries, rows, cols, i + 1);
    }
}

/// Where `bad_rhs_from` stops: the right-hand sides before that position
/// name known rows, and the one at it, if there is one, does not.
pub proof fn lemma_bad_rhs_from(rhs: Seq<RhsSpec>, rows: Set<Seq<char>>, i: int)
    requires
        0 <= i <= rhs.len(),
    ensures
        i <= bad_rhs_from(rhs, rows, i) <= rhs.len(),
        forall|k: int| i <= k < bad_rhs_from(rhs, rows, i) ==> rows.contains(#[trigger] rhs[k].row),
        bad_rhs_from(rhs, rows, i) < rhs.len() ==> !rows.contains(
            rhs[bad_rhs_from(rhs, rows, i)].row,
        ),
    decreases rhs.len() - i,
{
    if i < rhs.len() && rows.contains(rhs[i].row) {
        lemma_bad_rhs_from(rhs, rows, i + 1);
    }
}

/// Where `bad_bound_from` stops: the bounds before that position name
/// known columns, and the one at it, if there is one, does not.
pub proof fn lemma_bad_bound_from(bounds: Seq<BoundSpec>, cols: Set<Seq<char>>, i: int)
    requires
        0 <= i <= bounds.len(),
    ensures
        i <= bad_bound_from(bounds, cols, i) <= bounds.len(),
        forall|k: int|
            i <= k < bad_bound_from(bounds, cols, i) ==> cols.contains(#[trigger] bounds[k].col),
        bad_bound_from(bounds, cols, i) < bounds.len() ==> !cols.contains(
            bounds[bad_bound_from(bounds, cols, i)].col,
        ),
    decreases bounds.len() - i,
{
    if i < bounds.len() && cols.contains(bounds[i].col) {
        lemma_bad_bound_from(bounds, cols, i + 1);
    }
}

/// Where `bad_quad_from` stops: the terms before that position resolve,
/// and the term at it, if there is one, does not.
pub proof fn lemma_bad_quad_from(quadratic: Seq<QuadSpec>, cols: Set<Seq<char>>, i: int)
    requires
        0 <= i <= quadratic.len(),
    ensures
        i <= bad_quad_from(quadratic, cols, i) <= quadratic.len(),
        forall|k: int|
            i <= k < bad_quad_from(quadratic, cols, i) ==> quad_resolves(
                #[trigger] quadratic[k],
                cols,
            ),
        bad_quad_from(quadratic, cols, i) < quadratic.len() ==> !quad_resolves(
            quadratic[bad_quad_from(quadratic, cols, i)],
            cols,
        ),
    decreases quadratic.len() - i,
{
    if i < quadratic.len() && quad_resolves(quadratic[i], cols) {
        lemma_bad_quad_from(quadratic, cols, i + 1);
    }
}

/// Records pass every check exactly where they fit together.
pub proof fn lemma_no_fault_iff_consistent(r: RecordsSpec)
    ensures
        fault_of(r) is None <==> consistent(r),
{
    let rn = row_names(r.rows);
    let cn = column_names(r.cols);
    let rows = rn.to_set();
    let cols = cn.to_set();
    assert(rn.take(0).no_duplicates());
    assert(cn.take(0).no_duplicates());
    lemma_repeat_from(rn, 0);
    lemma_repeat_from(cn, 0);
    lemma_bad_entry_from(r.entries, rows, cols, 0);
    lemma_bad_rhs_from(r.rhs, rows, 0);
    lemma_bad_bound_from(r.bounds, cols, 0);
    lemma_bad_quad_from(r.quadratic, cols, 0);
    let a = first_repeat(rn);
    let b = first_repeat(cn);
    if a < rn.len() {
        let k = rn.take(a).index_of(rn[a]);
        assert(rn.take(a)[k] == rn[k]);
        assert(rn[k] == rn[a] && k != a);
    } else {
        assert(rn.take(a) =~= rn);
    }
    if b < cn.len() {
        let k = cn.take(b).index_of(cn[b]);
        assert(cn.take(b)[k] == cn[k]);
        assert(cn[k] == cn[b] && k != b);
    } else {
        assert(cn.take(b) =~= cn);
    }
    let e = bad_entry_from(r.entries, rows, cols, 0);
    if e < r.entries.len() {
        assert(!entry_resolves(r.entries[e], rows, cols));
    } else {
        assert forall|i: int| 0 <= i < r.entries.len() implies rows.contains(
            #[trigger] r.entries[i].row,
        ) && cols.contains(r.entries[i].col) by {
            assert(entry_resolves(r.entries[i], rows, cols));
        }
    }
    let q = bad_quad_from(r.quadratic, cols, 0);
    if q < r.quadratic.len() {
        assert(!quad_resolves(r.quadratic[q], cols));
    } else {
        assert forall|i: int| 0 <= i < r.quadratic.len() implies cols.contains(
            #[trigger] r.quadratic[i].first,
        ) && cols.contains(r.quadratic[i].second) by {
            assert(quad_resolves(r.quadratic[i], cols));
        }
    }
}

/// The names of the rows, in order.
fn names_of_rows(rows: &Vec<RowDef>) -> (names: Vec<String>)
    ensures
        views_of(names@) == row_names(rows.deep_view()),
{
    let mut names: Vec<String> = Vec::new();
    let mut i: usize = 0;
    while i < rows.len()
        invariant
            i <= rows.len(),
            names.len() == i,
            forall|k: int| 0 <= k < i ==> (#[trigger] names@[k])@ == rows@[k].name@,
        decreases rows.len() - i,
    {
        names.push(rows[i].name.clone());
        i = i + 1;
    }
    assert(views_of(names@) =~= row_names(rows.deep_view()));
    names
}

/// The names of the columns, in order.
fn names_of_columns(cols: &Vec<ColumnDef>) -> (names: Vec<String>)
    ensures
        views_of(names@) == column_names(cols.deep_view()),
{
    let mut names: Vec<String> = Vec::new();
    let mut i: usize = 0;
    while i < cols.len()
        invariant
            i <= cols.len(),
            names.len() == i,
            forall|k: int| 0 <= k < i ==> (#[trigger] names@[k])@ == cols@[k].name@,
        decreases cols.len() - i,
    {
        names.push(cols[i].name.clone());
        i = i + 1;
    }
    assert(views_of(names@) =~= column_names(cols.deep_view()));
    names
}

/// The set of `names` as a table, or the error of the given kind about the
/// first name that stands at two positions.
fn index_names(names: &Vec<String>, kind: ErrorKind) -> (r: Result<Table<String, ()>, ParseError>)
    ensures
        match r {
            Ok(t) => first_repeat(views_of(names@)) == names.len() && t@.dom() == views_of(
                names@,
            ).to_set(),
            Err(e) => first_repeat(views_of(names@)) < names.len() && e@ == failure(
                kind,
                views_of(names@)[first_repeat(views_of(names@))],
            ),
        },
{
    let ghost ns = views_of(names@);
    let mut t: Table<String, ()> = Table::new();
    let mut i: usize = 0;
    assert(t@.dom() =~= ns.take(0).to_set());
    while i < names.len()
        invariant
            i <= names.len(),
            ns == views_of(names@),
            t@.dom() == ns.take(i as int).to_set(),
            repeat_from(ns, i as int) == first_repeat(ns),
        decreases names.len() - i,
    {
        assert(ns[i as int] == names@[i as int]@);
        if t.contains_key(&names[i]) {
            return Err(ParseError::new(kind, names[i].as_str()));
        }
        t.insert(names[i].clone(), ());
        proof {
            assert(ns.take(i + 1) =~= ns.take(i as int).push(ns[i as int]));
            ns.take(i as int).lemma_push_to_set_commute(ns[i as int]);
        }
        i = i + 1;
    }
    assert(ns.take(i as int) =~= ns);
    Ok(t)
}

/// Checks the records against each other.
///
/// Returns `Ok` exactly where the records fit together; otherwise the error
/// of the first check that fails, about the name it stumbles on.
pub fn validate(records: &Records) -> (r: Result<(), ParseError>)
    ensures
        match r {
            Ok(()) => fault_of(records@) is None && consistent(records@),
            Err(e) => fault_of(records@) == Some(e@) && !consistent(records@),
        },
{
    proof {
        lemma_no_fault_iff_consistent(records@);
    }
    let ghost spec = records@;
    let ghost row_set = row_names(spec.rows).to_set();
    let ghost col_set = column_names(spec.cols).to_set();
    let rn = names_of_rows(&records.rows);
    let rows = match index_names(&rn, ErrorKind::DuplicateRow) {
        Ok(t) => t,
        Err(e) => {
            return Err(e);
        },
    };
    let cn = names_of_columns(&records.cols);
    let cols = match index_names(&cn, ErrorKind::DuplicateColumn) {
        Ok(t) => t,
        Err(e) => {
            return Err(e);
        },
    };
    let mut i: usize = 0;
    while i < records.entries.len()
        invariant
            i <= records.entries.len(),
            spec == records@,
            rows@.dom() == row_set,
            cols@.dom() == col_set,
            bad_entry_from(spec.entries, row_set, col_set, i as int) == bad_entry_from(
                spec.entries,
                row_set,
                col_set,
                0,
            ),
            first_repeat(row_names(spec.rows)) == row_names(spec.rows).len(),
            first_repeat(column_names(spec.cols)) == column_names(spec.cols).len(),
            row_set == row_names(spec.rows).to_set(),
            col_set == column_names(spec.cols).to_set(),
        decreases records.entries.len() - i,
    {
        let e = &records.entries[i];
        assert(spec.entries[i as int] == e@);
        if !rows.contains_key(&e.row) {
            return Err(ParseError::new(ErrorKind::EntryUndefinedRow, e.row.as_str()));
        }
        if !cols.contains_key(&e.col) {
            return Err(ParseError::new(ErrorKind::EntryUndefinedColumn, e.col.as_str()));
        }
        i = i + 1;
    }
    let mut i: usize = 0;
    while i < records.rhs.len()
        invariant
            i <= records.rhs.len(),
            spec == records@,
            rows@.dom() == row_set,
            bad_rhs_from(spec.rhs, row_set, i as int) == bad_rhs_from(spec.rhs, row_set, 0),
            bad_entry_from(spec.entries, row_set, col_set, 0) == spec.entries.len(),
            first_repeat(row_names(spec.rows)) == row_names(spec.rows).len(),
            first_repeat(column_names(spec.cols)) == column_names(spec.cols).len(),
            row_set == row_names(spec.rows).to_set(),
            col_set == column_names(spec.cols).to_set(),
        decreases records.rhs.len() - i,
    {
        let h = &records.rhs[i];
        assert(spec.rhs[i as int] == h@);
        if !rows.contains_key(&h.row) {
            return Err(ParseError::new(ErrorKind::RhsUndefinedRow, h.row.as_str()));
        }
        i = i + 1;
    }
    let mut i: usize = 0;
    while i < records.bounds.len()
        invariant
            i <= records.bounds.len(),
            spec == records@,
            cols@.dom() == col_set,
            bad_bound_from(spec.bounds, col_set, i as int) == bad_bound_from(
                spec.bounds,
                col_set,
                0,
            ),
            bad_rhs_from(spec.rhs, row_set, 0) == spec.rhs.len(),
            bad_entry_from(spec.entries, row_set, col_set, 0) == spec.entries.len(),
            first_repeat(row_names(spec.rows)) == row_names(spec.rows).len(),
            first_repeat(column_names(spec.cols)) == column_names(spec.cols).len(),
            row_set == row_names(spec.rows).to_set(),
            col_set == column_names(spec.cols).to_set(),
        decreases records.bounds.len() - i,
    {
        let b = &records.bounds[i];
        assert(spec.bounds[i as int] == b@);
        if !cols.contains_key(&b.col) {
            return Err(ParseError::new(ErrorKind::BoundUndefinedColumn, b.col.as_str()));
        }
        i = i + 1;
    }
    let mut i: usize = 0;
    while i < records.quadratic.len()
        invariant
            i <= records.quadratic.len(),
            spec == records@,
            cols@.dom() == col_set,
            bad_quad_from(spec.quadratic, col_set, i as int) == bad_quad_from(
                spec.quadratic,
                col_set,
                0,
            ),
            bad_bound_from(spec.bounds, col_set, 0) == spec.bounds.len(),
            bad_rhs_from(spec.rhs, row_set, 0) == spec.rhs.len(),
            bad_entry_from(spec.entries, row_set, col_set, 0) == spec.entries.len(),
            first_repeat(row_names(spec.rows)) == row_names(spec.rows).len(),
            first_repeat(column_names(spec.cols)) == column_names(spec.cols).len(),
            row_set == row_names(spec.rows).to_set(),
            col_set == column_names(spec.cols).to_set(),
        decreases records.quadratic.len() - i,
    {
        let q = &records.quadratic[i];
        assert(spec.quadratic[i as int] == q@);
        if !cols.contains_key(&q.first) {
            return Err(ParseError::new(ErrorKind::QuadraticUndefinedColumn, q.first.as_str()));
        }
        if !cols.contains_key(&q.second) {
            return Err(ParseError::new(ErrorKind::QuadraticUndefinedColumn, q.second.as_str()));
        }
        i = i + 1;
    }
    Ok(())
}

} // verus!
