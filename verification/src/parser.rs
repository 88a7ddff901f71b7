//! The walk over the sections of a document.
//!
//! The parser starts without an orientation. The first section that defines
//! rows makes the document row-major and is read as the row section; the
//! first section that defines columns makes it column-major. Once the
//! orientation is fixed it stays, and every later section of either of the
//! two kinds is read as a section of matrix entries. In a row-major
//! document the entries make the columns known: a column is added to the
//! records by the first entry that names it.

use vstd::prelude::*;
use vstd::string::*;
use crate::document::{name_of, parse_name, sections_of, split_sections};
use crate::error::{failure, ErrorKind, Failure, ParseError};
use crate::laws::lemma_consistent_records_resolve;
use crate::model::{assemble, problem_of, Problem, SIF};
use crate::records::{ColumnDef, ColumnSpec, Entry, EntrySpec, Records, RecordsSpec};
use crate::sections::{
    bounds_of, entries_of, parse_bounds, parse_entries, parse_quadratic, parse_rhs, parse_rows,
    quadratic_of, rhs_of, rows_of,
};
use crate::table::Table;
use crate::text::{trim, trim_of};
use crate::types::{ColumnType, Indicator, Major};
use crate::validate::{column_names, fault_of, validate};

verus! {

/// The columns that the entries of one section make known, given the names
/// of the columns known before: for each column that the entries name and
/// that was not known, at the place of its first entry, a continuous
/// column.
pub open spec fn found_columns(known: Seq<Seq<char>>, entries: Seq<EntrySpec>) -> Seq<ColumnSpec>
    decreases entries.len(),
{
    if entries.len() == 0 {
        Seq::empty()
    } else {
        let before = found_columns(known, entries.drop_last());
        let name = entries.last().col;
        if known.contains(name) || column_names(before).contains(name) {
            before
        } else {
            before.push(ColumnSpec { name, kind: ColumnType::__ })
        }
    }
}

/// The columns that the entries of one section make known, given the
/// columns known before.
pub fn find_columns(known: &Vec<ColumnDef>, entries: &Vec<Entry>) -> (cols: Vec<ColumnDef>)
    ensures
        cols.deep_view() == found_columns(column_names(known.deep_view()), entries.deep_view()),
{
    let ghost es = entries.deep_view();
    let ghost ks = column_names(known.deep_view());
    let mut seen: Table<String, ()> = Table::new();
    let mut j: usize = 0;
    assert(seen@.dom() =~= ks.take(0).to_set());
    while j < known.len()
        invariant
            j <= known.len(),
            ks == column_names(known.deep_view()),
            seen@.dom() == ks.take(j as int).to_set(),
        decreases known.len() - j,
    {
        seen.insert(known[j].name.clone(), ());
        proof {
            assert(ks[j as int] == known@[j as int].name@);
            assert(ks.take(j + 1) =~= ks.take(j as int).push(ks[j as int]));
            ks.take(j as int).lemma_push_to_set_commute(ks[j as int]);
        }
        j = j + 1;
    }
    assert(ks.take(j as int) =~= ks);
    let mut cols: Vec<ColumnDef> = Vec::new();
    let mut i: usize = 0;
    assert(es.take(0) =~= Seq::empty());
    assert(cols.deep_view() =~= Seq::empty());
    assert(seen@.dom() =~= ks.to_set() + column_names(cols.deep_view()).to_set());
    while i < entries.len()
        invariant
            i <= entries.len(),
            es == entries.deep_view(),
            cols.deep_view() == found_columns(ks, es.take(i as int)),
            seen@.dom() == ks.to_set() + column_names(cols.deep_view()).to_set(),
        decreases entries.len() - i,
    {
        let e = &entries[i];
        let ghost before = cols.deep_view();
        proof {
            assert(es.take(i + 1).drop_last() =~= es.take(i as int));
            assert(es.take(i + 1).last().col == e.col@);
        }
        if !seen.contains_key(&e.col) {
            seen.insert(e.col.clone(), ());
            cols.push(ColumnDef { name: e.col.clone(), kind: ColumnType::__ });
            proof {
                let added = ColumnSpec { name: e.col@, kind: ColumnType::__ };
                assert(cols.deep_view() =~= before.push(added));
                let old_names = column_names(before);
                let new_names = column_names(cols.deep_view());
                assert(new_names =~= old_names.push(e.col@));
                old_names.lemma_push_to_set_commute(e.col@);
                assert(seen@.dom() =~= ks.to_set() + new_names.to_set());
            }
        }
        i = i + 1;
    }
    assert(es.take(i as int) =~= es);
    cols
}

/// The state of the walk as contracts speak of it.
pub ghost struct ParserSpec {
    /// The orientation, once a section has fixed it.
    pub major: Option<Major>,
    /// The row width, once the row section has fixed it.
    pub width: Option<int>,
    /// The records read so far.
    pub records: RecordsSpec,
}

/// The state before the first section.
pub open spec fn start() -> ParserSpec {
    ParserSpec { major: None, width: None, records: crate::records::no_records() }
}

/// The state after a section of matrix entries with the given body.
pub open spec fn with_entries(st: ParserSpec, indicator: Seq<char>, body: Seq<char>) -> Result<
    ParserSpec,
    Failure,
> {
    match st.width {
        None => Err(failure(ErrorKind::WidthUnset, indicator)),
        Some(w) => match entries_of(body, w) {
            Err(f) => Err(f),
            Ok(es) => Ok(
                ParserSpec {
                    records: RecordsSpec {
                        entries: st.records.entries + es,
                        cols: if st.major == Some(Major::Row) {
                            st.records.cols + found_columns(column_names(st.records.cols), es)
                        } else {
                            st.records.cols
                        },
                        ..st.records
                    },
                    ..st
                },
            ),
        },
    }
}

/// The state after the section with the given indicator and body, or the
/// failure that the section ends the walk with.
pub open spec fn step(st: ParserSpec, indicator: Seq<char>, body: Seq<char>) -> Result<
    ParserSpec,
    Failure,
> {
    let word = trim_of(indicator);
    match Indicator::parse_of(word) {
        None => Err(failure(ErrorKind::UnknownIndicator, word)),
        Some(Indicator::Groups) | Some(Indicator::Rows) | Some(Indicator::Constraints) => {
            if st.major is None {
                match rows_of(body) {
                    Err(f) => Err(f),
                    Ok(p) => Ok(
                        ParserSpec {
                            major: Some(Major::Row),
                            width: Some(p.0),
                            records: RecordsSpec { rows: p.1, ..st.records },
                        },
                    ),
                }
            } else {
                with_entries(st, word, body)
            }
        },
        Some(Indicator::Columns) | Some(Indicator::Variables) => {
            if st.major is None {
                Ok(ParserSpec { major: Some(Major::Column), ..st })
            } else {
                with_entries(st, word, body)
            }
        },
        Some(Indicator::Constants) | Some(Indicator::Rhs) | Some(Indicator::RhsPrime) => {
            match st.width {
                None => Err(failure(ErrorKind::WidthUnset, word)),
                Some(w) => match rhs_of(body, w) {
                    Err(f) => Err(f),
                    Ok(more) => Ok(
                        ParserSpec {
                            records: RecordsSpec { rhs: st.records.rhs + more, ..st.records },
                            ..st
                        },
                    ),
                },
            }
        },
        Some(Indicator::Bounds) => {
            match st.width {
                None => Err(failure(ErrorKind::WidthUnset, word)),
                Some(w) => match bounds_of(body, w) {
                    Err(f) => Err(f),
                    Ok(more) => Ok(
                        ParserSpec {
                            records: RecordsSpec {
                                bounds: st.records.bounds + more,
                                ..st.records
                            },
                            ..st
                        },
                    ),
                },
            }
        },
        Some(Indicator::Quadratic)
        | Some(Indicator::Hessian)
        | Some(Indicator::Quads)
        | Some(Indicator::QuadObjective)
        | Some(Indicator::QSection) => {
            match st.width {
                None => Err(failure(ErrorKind::WidthUnset, word)),
                Some(w) => match quadratic_of(body, w) {
                    Err(f) => Err(f),
                    Ok(more) => Ok(
                        ParserSpec {
                            records: RecordsSpec {
                                quadratic: st.records.quadratic + more,
                                ..st.records
                            },
                            ..st
                        },
                    ),
                },
            }
        },
        Some(Indicator::Ranges)
        | Some(Indicator::StartPoint)
        | Some(Indicator::ElementType)
        | Some(Indicator::ElementUses)
        | Some(Indicator::GroupType)
        | Some(Indicator::GroupUses)
        | Some(Indicator::ObjectBounds) => Err(failure(ErrorKind::UnsupportedSection, word)),
        Some(Indicator::Name) | Some(Indicator::Endata) => Ok(st),
    }
}

/// The state after the given sections, one after the other, or the failure
/// of the first section that fails.
pub open spec fn run(st: ParserSpec, sections: Seq<(Seq<char>, Seq<char>)>) -> Result<
    ParserSpec,
    Failure,
>
    decreases sections.len(),
{
    if sections.len() == 0 {
        Ok(st)
    } else {
        match run(st, sections.drop_last()) {
            Err(f) => Err(f),
            Ok(mid) => step(mid, sections.last().0, sections.last().1),
        }
    }
}

/// Once a section has failed, the sections after it change nothing.
pub proof fn lemma_run_failed(st: ParserSpec, sections: Seq<(Seq<char>, Seq<char>)>, i: int)
    requires
        0 <= i <= sections.len(),
        run(st, sections.take(i)) is Err,
    ensures
        run(st, sections) == run(st, sections.take(i)),
    decreases sections.len() - i,
{
    if i == sections.len() {
        assert(sections.take(i) =~= sections);
    } else {
        assert(sections.take(i + 1).drop_last() =~= sections.take(i));
        lemma_run_failed(st, sections, i + 1);
    }
}

/// What reading `text` gives: the problem, or the first failure.
///
/// The name is read first. Then the sections are walked in the order of the
/// text. Then the records are checked against each other. Only then is the
/// problem assembled.
pub open spec fn parse_outcome(text: Seq<char>) -> Result<Problem, Failure> {
    match name_of(text) {
        Err(f) => Err(f),
        Ok(name) => match run(start(), sections_of(text)) {
            Err(f) => Err(f),
            Ok(st) => match fault_of(st.records) {
                Some(f) => Err(f),
                None => Ok(problem_of(name, st.records)),
            },
        },
    }
}

/// The walk over the sections: the orientation, the row width and the
/// records read so far.
#[derive(Debug, PartialEq, Eq)]
pub struct SifParser {
    major: Option<Major>,
    width: Option<usize>,
    records: Records,
}

impl View for SifParser {
    type V = ParserSpec;

    closed spec fn view(&self) -> ParserSpec {
        ParserSpec {
            major: self.major,
            width: match self.width {
                Some(w) => Some(w as int),
                None => None,
            },
            records: self.records@,
        }
    }
}

impl SifParser {
    /// The parser before the first section.
    pub fn new() -> (p: SifParser)
        ensures
            p@ == start(),
    {
        SifParser { major: None, width: None, records: Records::new() }
    }

    /// The orientation, once a section has fixed it.
    pub fn major(&self) -> (m: Option<Major>)
        ensures
            m == self@.major,
    {
        self.major
    }

    /// The row width, once the row section has fixed it.
    pub fn width(&self) -> (w: Option<usize>)
        ensures
            self@.width == match w {
                Some(n) => Some(n as int),
                None => None::<int>,
            },
    {
        self.width
    }

    /// The records read so far.
    pub fn records(&self) -> (r: &Records)
        ensures
            r@ == self@.records,
    {
        &self.records
    }

    /// Reads a section of matrix entries.
    fn feed_entries(self, word: &str, body: &str) -> (r: Result<SifParser, ParseError>)
        ensures
            match r {
                Ok(p) => with_entries(self@, word@, body@) == Ok::<ParserSpec, Failure>(p@),
                Err(e) => with_entries(self@, word@, body@) == Err::<ParserSpec, Failure>(e@),
            },
    {
        let ghost st = self@;
        let SifParser { major, width, mut records } = self;
        let w = match width {
            Some(w) => w,
            None => {
                return Err(ParseError::new(ErrorKind::WidthUnset, word));
            },
        };
        let mut es = match parse_entries(body, w) {
            Ok(es) => es,
            Err(e) => {
                return Err(e);
            },
        };
        let ghost added = es.deep_view();
        if major == Some(Major::Row) {
            let mut cols = find_columns(&records.cols, &es);
            let ghost found = cols.deep_view();
            records.cols.append(&mut cols);
            assert(records.cols.deep_view() =~= st.records.cols + found);
        }
        records.entries.append(&mut es);
        assert(records.entries.deep_view() =~= st.records.entries + added);
        Ok(SifParser { major, width, records })
    }

    /// Reads one section: takes the step that its indicator asks for.
    ///
    /// Returns the parser after the section, or the error that ends the
    /// walk: the indicator is unknown, the section is known and not
    /// provided for, a section of data lines comes before the row width is
    /// fixed, or a line of the body cannot be read.
    pub fn feed(self, indicator: &str, body: &str) -> (r: Result<SifParser, ParseError>)
        ensures
            match r {
                Ok(p) => step(self@, indicator@, body@) == Ok::<ParserSpec, Failure>(p@),
                Err(e) => step(self@, indicator@, body@) == Err::<ParserSpec, Failure>(e@),
            },
    {
        let ghost st = self@;
        let word = trim(indicator);
        let which = match Indicator::from_str(indicator) {
            Ok(i) => i,
            Err(e) => {
                return Err(e);
            },
        };
        match which {
            Indicator::Groups | Indicator::Rows | Indicator::Constraints => {
                if self.major.is_none() {
                    let SifParser { major, width, mut records } = self;
                    match parse_rows(body) {
                        Ok((w, rows)) => {
                            records.rows = rows;
                            Ok(SifParser { major: Some(Major::Row), width: Some(w), records })
                        },
                        Err(e) => Err(e),
                    }
                } else {
                    self.feed_entries(word.as_str(), body)
                }
            },
            Indicator::Columns | Indicator::Variables => {
                if self.major.is_none() {
                    let SifParser { major, width, records } = self;
                    Ok(SifParser { major: Some(Major::Column), width, records })
                } else {
                    self.feed_entries(word.as_str(), body)
                }
            },
            Indicator::Constants | Indicator::Rhs | Indicator::RhsPrime => {
                let SifParser { major, width, mut records } = self;
                let w = match width {
                    Some(w) => w,
                    None => {
                        return Err(ParseError::new(ErrorKind::WidthUnset, word.as_str()));
                    },
                };
                match parse_rhs(body, w) {
                    Ok(mut more) => {
                        let ghost added = more.deep_view();
                        records.rhs.append(&mut more);
                        assert(records.rhs.deep_view() =~= st.records.rhs + added);
                        Ok(SifParser { major, width, records })
                    },
                    Err(e) => Err(e),
                }
            },
            Indicator::Bounds => {
                let SifParser { major, width, mut records } = self;
                let w = match width {
                    Some(w) => w,
                    None => {
                        return Err(ParseError::new(ErrorKind::WidthUnset, word.as_str()));
                    },
                };
                match parse_bounds(body, w) {
                    Ok(mut more) => {
                        let ghost added = more.deep_view();
                        records.bounds.append(&mut more);
                        assert(records.bounds.deep_view() =~= st.records.bounds + added);
                        Ok(SifParser { major, width, records })
                    },
                    Err(e) => Err(e),
                }
            },
            Indicator::Quadratic
            | Indicator::Hessian
            | Indicator::Quads
            | Indicator::QuadObjective
            | Indicator::QSection => {
                let SifParser { major, width, mut records } = self;
                let w = match width {
                    Some(w) => w,
                    None => {
                        return Err(ParseError::new(ErrorKind::WidthUnset, word.as_str()));
                    },
                };
                match parse_quadratic(body, w) {
                    Ok(mut more) => {
                        let ghost added = more.deep_view();
                        records.quadratic.append(&mut more);
                        assert(records.quadratic.deep_view() =~= st.records.quadratic + added);
                        Ok(SifParser { major, width, records })
                    },
                    Err(e) => Err(e),
                }
            },
            Indicator::Ranges
            | Indicator::StartPoint
            | Indicator::ElementType
            | Indicator::ElementUses
            | Indicator::GroupType
            | Indicator::GroupUses
            | Indicator::ObjectBounds => Err(
                ParseError::new(ErrorKind::UnsupportedSection, word.as_str()),
            ),
            Indicator::Name | Indicator::Endata => Ok(self),
        }
    }

    /// Reads a whole document.
    ///
    /// The name is read first. Then the sections are walked in the order of
    /// the text, each fed to the parser. Then the records are checked
    /// against each other, and only then is the problem assembled. Any
    /// error ends the reading: there is no partial problem.
    pub fn parse(input: &str) -> (r: Result<SIF, ParseError>)
        ensures
            match r {
                Ok(p) => parse_outcome(input@) == Ok::<Problem, Failure>(p@) && p@.resolved(),
                Err(e) => parse_outcome(input@) == Err::<Problem, Failure>(e@),
            },
    {
        let name = match parse_name(input) {
            Ok(n) => n,
            Err(e) => {
                return Err(e);
            },
        };
        let sections = split_sections(input);
        let ghost all = sections.deep_view();
        let mut parser = SifParser::new();
        let mut i: usize = 0;
        assert(all.take(0) =~= Seq::empty());
        while i < sections.len()
            invariant
                i <= sections.len(),
                all == sections.deep_view(),
                all == sections_of(input@),
                name_of(input@) == Ok::<Seq<char>, Failure>(name@),
                run(start(), all.take(i as int)) == Ok::<ParserSpec, Failure>(parser@),
            decreases sections.len() - i,
        {
            let s = &sections[i];
            proof {
                assert(all.take(i + 1).drop_last() =~= all.take(i as int));
                assert(all.take(i + 1).last() == (s.0@, s.1@));
            }
            parser = match parser.feed(s.0.as_str(), s.1.as_str()) {
                Ok(p) => p,
                Err(e) => {
                    proof {
                        lemma_run_failed(start(), all, i + 1);
                    }
                    return Err(e);
                },
            };
            i = i + 1;
        }
        assert(all.take(i as int) =~= all);
        let records = parser.into_records();
        match validate(&records) {
            Ok(()) => {
                proof {
                    lemma_consistent_records_resolve(name@, records@);
                }
                Ok(assemble(name, &records))
            },
            Err(e) => Err(e),
        }
    }

    /// Gives the records up.
    pub fn into_records(self) -> (r: Records)
        ensures
            r@ == self@.records,
    {
        self.records
    }
}

} // verus!
