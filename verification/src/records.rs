//! The records that the sections of a document yield, before they are
//! checked against each other.

use vstd::prelude::*;
use vstd::string::*;
use crate::number::Number;
use crate::types::{BoundType, ColumnType, RowType};

verus! {

/// A row and its kind.
#[derive(Debug, PartialEq, Eq)]
pub struct RowDef {
    /// The name of the row.
    pub name: String,
    /// The kind of the row.
    pub kind: RowType,
}

/// A [`RowDef`] as contracts speak of it.
pub ghost struct RowSpec {
    pub name: Seq<char>,
    pub kind: RowType,
}

/// A column and its kind.
#[derive(Debug, PartialEq, Eq)]
pub struct ColumnDef {
    /// The name of the column.
    pub name: String,
    /// The kind of the column.
    pub kind: ColumnType,
}

/// A [`ColumnDef`] as contracts speak of it.
pub ghost struct ColumnSpec {
    pub name: Seq<char>,
    pub kind: ColumnType,
}

/// A coefficient of the matrix.
#[derive(Debug, PartialEq, Eq)]
pub struct Entry {
    /// The name of the row.
    pub row: String,
    /// The name of the column.
    pub col: String,
    /// The coefficient.
    pub value: Number,
}

/// An [`Entry`] as contracts speak of it.
pub ghost struct EntrySpec {
    pub row: Seq<char>,
    pub col: Seq<char>,
    pub value: Seq<char>,
}

/// A right-hand side of a row, with the label of the set it belongs to.
#[derive(Debug, PartialEq, Eq)]
pub struct RhsValue {
    /// The label of the set of right-hand sides.
    pub set: String,
    /// The name of the row.
    pub row: String,
    /// The value.
    pub value: Number,
}

/// An [`RhsValue`] as contracts speak of it.
pub ghost struct RhsSpec {
    pub set: Seq<char>,
    pub row: Seq<char>,
    pub value: Seq<char>,
}

/// A bound on a column, with the label of the set it belongs to.
#[derive(Debug, PartialEq, Eq)]
pub struct Bound {
    /// The label of the set of bounds.
    pub set: String,
    /// The kind of the bound.
    pub kind: BoundType,
    /// The name of the column.
    pub col: String,
    /// The value of the bound.
    pub value: Number,
}

/// A [`Bound`] as contracts speak of it.
pub ghost struct BoundSpec {
    pub set: Seq<char>,
    pub kind: BoundType,
    pub col: Seq<char>,
    pub value: Seq<char>,
}

/// A term of the quadratic objective. The two columns are kept in the order
/// in which the document gives them.
#[derive(Debug, PartialEq, Eq)]
pub struct QuadTerm {
    /// The column that the document names first.
    pub first: String,
    /// The column that the document names second.
    pub second: String,
    /// The coefficient.
    pub value: Number,
}

/// A [`QuadTerm`] as contracts speak of it.
pub ghost struct QuadSpec {
    pub first: Seq<char>,
    pub second: Seq<char>,
    pub value: Seq<char>,
}

impl View for RowDef {
    type V = RowSpec;

    open spec fn view(&self) -> RowSpec {
        RowSpec { name: self.name@, kind: self.kind }
    }
}

impl DeepView for RowDef {
    type V = RowSpec;

    open spec fn deep_view(&self) -> RowSpec {
        self@
    }
}

impl View for ColumnDef {
    type V = ColumnSpec;

    open spec fn view(&self) -> ColumnSpec {
        ColumnSpec { name: self.name@, kind: self.kind }
    }
}

impl DeepView for ColumnDef {
    type V = ColumnSpec;

    open spec fn deep_view(&self) -> ColumnSpec {
        self@
    }
}

impl View for Entry {
    type V = EntrySpec;

    open spec fn view(&self) -> EntrySpec {
        EntrySpec { row: self.row@, col: self.col@, value: self.value@ }
    }
}

impl DeepView for Entry {
    type V = EntrySpec;

    open spec fn deep_view(&self) -> EntrySpec {
        self@
    }
}

impl View for RhsValue {
    type V = RhsSpec;

    open spec fn view(&self) -> RhsSpec {
        RhsSpec { set: self.set@, row: self.row@, value: self.value@ }
    }
}

impl DeepView for RhsValue {
    type V = RhsSpec;

    open spec fn deep_view(&self) -> RhsSpec {
        self@
    }
}

impl View for Bound {
    type V = BoundSpec;

    open spec fn view(&self) -> BoundSpec {
        BoundSpec { set: self.set@, kind: self.kind, col: self.col@, value: self.value@ }
    }
}

impl DeepView for Bound {
    type V = BoundSpec;

    open spec fn deep_view(&self) -> BoundSpec {
        self@
    }
}

impl View for QuadTerm {
    type V = QuadSpec;

    open spec fn view(&self) -> QuadSpec {
        QuadSpec { first: self.first@, second: self.second@, value: self.value@ }
    }
}

impl DeepView for QuadTerm {
    type V = QuadSpec;

    open spec fn deep_view(&self) -> QuadSpec {
        self@
    }
}

/// All that the sections of one document have yielded.
#[derive(Debug, PartialEq, Eq)]
pub struct Records {
    /// The rows, in the order of the document.
    pub rows: Vec<RowDef>,
    /// The columns, in the order in which they became known.
    pub cols: Vec<ColumnDef>,
    /// The matrix entries, in the order of the document.
    pub entries: Vec<Entry>,
    /// The right-hand sides, in the order of the document.
    pub rhs: Vec<RhsValue>,
    /// The bounds, in the order of the document.
    pub bounds: Vec<Bound>,
    /// The quadratic terms, in the order of the document.
    pub quadratic: Vec<QuadTerm>,
}

/// [`Records`] as contracts speak of them.
pub ghost struct RecordsSpec {
    pub rows: Seq<RowSpec>,
    pub cols: Seq<ColumnSpec>,
    pub entries: Seq<EntrySpec>,
    pub rhs: Seq<RhsSpec>,
    pub bounds: Seq<BoundSpec>,
    pub quadratic: Seq<QuadSpec>,
}

impl View for Records {
    type V = RecordsSpec;

    open spec fn view(&self) -> RecordsSpec {
        RecordsSpec {
            rows: self.rows.deep_view(),
            cols: self.cols.deep_view(),
            entries: self.entries.deep_view(),
            rhs: self.rhs.deep_view(),
            bounds: self.bounds.deep_view(),
            quadratic: self.quadratic.deep_view(),
        }
    }
}

/// No records at all.
pub open spec fn no_records() -> RecordsSpec {
    RecordsSpec {
        rows: Seq::empty(),
        cols: Seq::empty(),
        entries: Seq::empty(),
        rhs: Seq::empty(),
        bounds: Seq::empty(),
        quadratic: Seq::empty(),
    }
}

impl Records {
    /// No records at all.
    pub fn new() -> (r: Records)
        ensures
            r@ == no_records(),
    {
        let r = Records {
            rows: Vec::new(),
            cols: Vec::new(),
            entries: Vec::new(),
            rhs: Vec::new(),
            bounds: Vec::new(),
            quadratic: Vec::new(),
        };
        assert(r.rows.deep_view() =~= Seq::empty());
        assert(r.cols.deep_view() =~= Seq::empty());
        assert(r.entries.deep_view() =~= Seq::empty());
        assert(r.rhs.deep_view() =~= Seq::empty());
        assert(r.bounds.deep_view() =~= Seq::empty());
        assert(r.quadratic.deep_view() =~= Seq::empty());
        r
    }
}

} // verus!
