//! The section builders: each turns the body of one section into records.
//!
//! A body is read line by line. Every line is cut at the row width: what
//! stands before the cut is the line's code, what stands after it holds the
//! fields. The first line that cannot be read ends the reading of the body
//! with its error.

use vstd::prelude::*;
use vstd::string::*;
use crate::error::{failure, ErrorKind, Failure, ParseError};
use crate::number::is_zero_text;
use crate::pattern::{capture_first, regex_captures};
use crate::records::{
    Bound, BoundSpec, Entry, EntrySpec, QuadSpec, QuadTerm, RhsSpec, RhsValue, RowDef, RowSpec,
};
use crate::row::{fields_of, parse_sif_row};
use crate::text::{from_chars, lines, lines_of, to_chars, trim_of, views_of};
use crate::types::{BoundType, RowType};

verus! {

/// The records of a body whose lines give `items`: all of them in the order
/// of the lines, or the failure of the first line that fails.
pub open spec fn gather<T>(items: Seq<Result<Seq<T>, Failure>>) -> Result<Seq<T>, Failure>
    decreases items.len(),
{
    if items.len() == 0 {
        Ok(Seq::empty())
    } else {
        match gather(items.drop_last()) {
            Err(f) => Err(f),
            Ok(before) => match items.last() {
                Err(f) => Err(f),
                Ok(more) => Ok(before + more),
            },
        }
    }
}

/// Once a line has failed, the lines after it change nothing.
pub proof fn lemma_gather_failed<T>(items: Seq<Result<Seq<T>, Failure>>, i: int)
    requires
        0 <= i <= items.len(),
        gather(items.take(i)) is Err,
    ensures
        gather(items) == gather(items.take(i)),
    decreases items.len() - i,
{
    if i == items.len() {
        assert(items.take(i) =~= items);
    } else {
        assert(items.take(i + 1).drop_last() =~= items.take(i));
        lemma_gather_failed(items, i + 1);
    }
}

/// What line `i` adds to the records of the lines before it.
pub proof fn lemma_gather_next<T>(items: Seq<Result<Seq<T>, Failure>>, i: int, before: Seq<T>)
    requires
        0 <= i < items.len(),
        gather(items.take(i)) == Ok::<Seq<T>, Failure>(before),
    ensures
        match items[i] {
            Ok(more) => gather(items.take(i + 1)) == Ok::<Seq<T>, Failure>(before + more),
            Err(f) => gather(items) == Err::<Seq<T>, Failure>(f),
        },
{
    assert(items.take(i + 1).drop_last() =~= items.take(i));
    assert(items.take(i + 1).last() == items[i]);
    if items[i] is Err {
        lemma_gather_failed(items, i + 1);
    }
}

/// The pattern that the first line of the row section has to start with:
/// white space, an optional extension letter, a type code and white space
/// (the first group), and then the row's name.
pub open spec fn width_pattern() -> Seq<char> {
    "^(\\s+[XZD]?[NGLE]\\s+)[a-zA-Z-_0-9]*"@
}

/// The row width that `first_line` fixes: the number of characters of the
/// first group of the width pattern.
pub open spec fn width_of(first_line: Seq<char>) -> Result<int, Failure> {
    width_from(first_line, regex_captures(width_pattern(), first_line))
}

/// The row width, given the groups that the width pattern captured in
/// `first_line`.
pub open spec fn width_from(
    first_line: Seq<char>,
    groups: Option<Seq<Option<Seq<char>>>>,
) -> Result<int, Failure> {
    match groups {
        Some(g) => if g.len() > 1 && g[1] is Some {
            Ok(g[1]->0.len() as int)
        } else {
            Err(failure(ErrorKind::NoRowWidth, first_line))
        },
        None => Err(failure(ErrorKind::NoRowWidth, first_line)),
    }
}

/// The row width from the groups that the width pattern captured in
/// `first_line`: the length of the first group, counted in characters. It is
/// an error if the pattern did not match or the group took no part.
pub fn row_width_from(first_line: &str, groups: &Option<Vec<Option<String>>>) -> (r: Result<
    usize,
    ParseError,
>)
    ensures
        match r {
            Ok(w) => width_from(first_line@, groups.deep_view()) == Ok::<int, Failure>(w as int),
            Err(e) => width_from(first_line@, groups.deep_view()) == Err::<int, Failure>(e@),
        },
{
    match groups {
        Some(g) => {
            if g.len() > 1 {
                match &g[1] {
                    Some(t) => {
                        assert(g.deep_view()[1] == Some(t@));
                        return Ok(t.as_str().unicode_len());
                    },
                    None => {
                        assert(g.deep_view()[1] is None);
                    },
                }
            }
            Err(ParseError::new(ErrorKind::NoRowWidth, first_line))
        },
        None => Err(ParseError::new(ErrorKind::NoRowWidth, first_line)),
    }
}

/// The row width that `first_line` fixes.
pub fn row_width(first_line: &str) -> (r: Result<usize, ParseError>)
    ensures
        match r {
            Ok(w) => width_of(first_line@) == Ok::<int, Failure>(w as int),
            Err(e) => width_of(first_line@) == Err::<int, Failure>(e@),
        },
{
    let groups = capture_first("^(\\s+[XZD]?[NGLE]\\s+)[a-zA-Z-_0-9]*", first_line);
    row_width_from(first_line, &groups)
}

/// Cuts `line` at the row width: the code and the fields. `None` where the
/// line has fewer than `w` characters.
pub fn split_line(line: &str, w: usize) -> (r: Option<(String, String)>)
    ensures
        r is Some <==> w <= line@.len(),
        r matches Some(p) ==> p.0@ == line@.take(w as int) && p.1@ == line@.skip(w as int),
{
    let v = to_chars(line);
    if v.len() < w {
        return None;
    }
    let code = from_chars(&v, 0, w);
    let rest = from_chars(&v, w, v.len());
    assert(v@.subrange(0, w as int) =~= v@.take(w as int));
    assert(v@.subrange(w as int, v.len() as int) =~= v@.skip(w as int));
    Some((code, rest))
}

/// The row that `line` defines: its name is the first field, its kind is
/// given by the code.
pub open spec fn row_of_line(line: Seq<char>, w: int) -> Result<Seq<RowSpec>, Failure> {
    if line.len() < w {
        Err(failure(ErrorKind::ShortLine, line))
    } else {
        match fields_of(line.skip(w)) {
            Err(f) => Err(f),
            Ok(x) => match RowType::parse_of(trim_of(line.take(w))) {
                None => Err(failure(ErrorKind::UnknownRowType, trim_of(line.take(w)))),
                Some(kind) => Ok(seq![RowSpec { name: x.f1, kind }]),
            },
        }
    }
}

/// What each line of the body of a row section yields.
pub open spec fn row_items(ls: Seq<Seq<char>>, w: int) -> Seq<Result<Seq<RowSpec>, Failure>> {
    Seq::new(ls.len(), |k: int| row_of_line(ls[k], w))
}

/// What the body of a row section yields: the row width, fixed by its first
/// line, and a row for each line.
pub open spec fn rows_of(body: Seq<char>) -> Result<(int, Seq<RowSpec>), Failure> {
    let ls = lines_of(body);
    if ls.len() == 0 {
        Err(failure(ErrorKind::EmptyRows, Seq::empty()))
    } else {
        match width_of(ls[0]) {
            Err(f) => Err(f),
            Ok(w) => match gather(row_items(ls, w)) {
                Err(f) => Err(f),
                Ok(rows) => Ok((w, rows)),
            },
        }
    }
}

/// Reads one line of a row section.
pub fn row_line(line: &str, w: usize) -> (r: Result<RowDef, ParseError>)
    ensures
        match r {
            Ok(d) => row_of_line(line@, w as int) == Ok::<Seq<RowSpec>, Failure>(seq![d@]),
            Err(e) => row_of_line(line@, w as int) == Err::<Seq<RowSpec>, Failure>(e@),
        },
{
    let (code, rest) = match split_line(line, w) {
        Some(p) => p,
        None => {
            return Err(ParseError::new(ErrorKind::ShortLine, line));
        },
    };
    let x = match parse_sif_row(rest.as_str()) {
        Ok(x) => x,
        Err(e) => {
            return Err(e);
        },
    };
    let kind = match RowType::from_str(code.as_str()) {
        Ok(k) => k,
        Err(e) => {
            return Err(e);
        },
    };
    Ok(RowDef { name: x.f1, kind })
}

/// Reads the body of a row section: fixes the row width from the first
/// line, then reads a row from each line.
pub fn parse_rows(body: &str) -> (r: Result<(usize, Vec<RowDef>), ParseError>)
    ensures
        match r {
            Ok(p) => rows_of(body@) == Ok::<(int, Seq<RowSpec>), Failure>(
                (p.0 as int, p.1.deep_view()),
            ),
            Err(e) => rows_of(body@) == Err::<(int, Seq<RowSpec>), Failure>(e@),
        },
{
    let ls = lines(body);
    if ls.len() == 0 {
        return Err(ParseError::bare(ErrorKind::EmptyRows));
    }
    assert(views_of(ls@)[0] == ls@[0]@);
    let w = match row_width(ls[0].as_str()) {
        Ok(w) => w,
        Err(e) => {
            return Err(e);
        },
    };
    let ghost items = row_items(views_of(ls@), w as int);
    let mut out: Vec<RowDef> = Vec::new();
    let mut i: usize = 0;
    assert(items.take(0) =~= Seq::empty());
    assert(out.deep_view() =~= Seq::empty());
    while i < ls.len()
        invariant
            i <= ls.len(),
            0 < ls.len(),
            views_of(ls@) == lines_of(body@),
            width_of(views_of(ls@)[0]) == Ok::<int, Failure>(w as int),
            items == row_items(views_of(ls@), w as int),
            gather(items.take(i as int)) == Ok::<Seq<RowSpec>, Failure>(out.deep_view()),
        decreases ls.len() - i,
    {
        let ghost before = out.deep_view();
        proof {
            lemma_gather_next(items, i as int, before);
            assert(items[i as int] == row_of_line(ls@[i as int]@, w as int));
        }
        match row_line(ls[i].as_str(), w) {
            Ok(d) => {
                out.push(d);
                assert(out.deep_view() =~= before + seq![d@]);
            },
            Err(e) => {
                return Err(e);
            },
        }
        i = i + 1;
    }
    assert(items.take(i as int) =~= items);
    Ok((w, out))
}

/// The matrix entries that `line` gives: the coefficient of the column named
/// by the first field in the row named by the second, and a second
/// coefficient of the same column, in the row named by the fourth field,
/// unless that coefficient is zero. Zero is what `is_zero_text` says: a
/// mantissa of zeros. A second coefficient that is written with another
/// digit is kept, also where it is too small to be told from zero once it
/// is decoded, as `1e-400` is.
pub open spec fn entries_of_line(line: Seq<char>, w: int) -> Result<Seq<EntrySpec>, Failure> {
    if line.len() < w {
        Err(failure(ErrorKind::ShortLine, line))
    } else {
        match fields_of(line.skip(w)) {
            Err(f) => Err(f),
            Ok(x) => {
                let one = EntrySpec { row: x.f2, col: x.f1, value: x.v3 };
                let two = EntrySpec { row: x.f4, col: x.f1, value: x.v5 };
                if is_zero_text(x.v5) {
                    Ok(seq![one])
                } else {
                    Ok(seq![one, two])
                }
            },
        }
    }
}

/// What each line of the body of an entries section yields.
pub open spec fn entry_items(ls: Seq<Seq<char>>, w: int) -> Seq<Result<Seq<EntrySpec>, Failure>> {
    Seq::new(ls.len(), |k: int| entries_of_line(ls[k], w))
}

/// What the body of an entries section yields.
pub open spec fn entries_of(body: Seq<char>, w: int) -> Result<Seq<EntrySpec>, Failure> {
    gather(entry_items(lines_of(body), w))
}

/// Reads one line of an entries section.
pub fn entry_line(line: &str, w: usize) -> (r: Result<Vec<Entry>, ParseError>)
    ensures
        match r {
            Ok(v) => entries_of_line(line@, w as int) == Ok::<Seq<EntrySpec>, Failure>(
                v.deep_view(),
            ),
            Err(e) => entries_of_line(line@, w as int) == Err::<Seq<EntrySpec>, Failure>(e@),
        },
{
    let (_, rest) = match split_line(line, w) {
        Some(p) => p,
        None => {
            return Err(ParseError::new(ErrorKind::ShortLine, line));
        },
    };
    let x = match parse_sif_row(rest.as_str()) {
        Ok(x) => x,
        Err(e) => {
            return Err(e);
        },
    };
    let ghost fields = x@;
    let mut out: Vec<Entry> = Vec::new();
    let second = !x.v5.is_zero();
    let col = x.f1.clone();
    out.push(Entry { row: x.f2, col: x.f1, value: x.v3 });
    if second {
        out.push(Entry { row: x.f4, col, value: x.v5 });
        assert(out.deep_view() =~= seq![
            EntrySpec { row: fields.f2, col: fields.f1, value: fields.v3 },
            EntrySpec { row: fields.f4, col: fields.f1, value: fields.v5 },
        ]);
    } else {
        assert(out.deep_view() =~= seq![
            EntrySpec { row: fields.f2, col: fields.f1, value: fields.v3 },
        ]);
    }
    Ok(out)
}

/// Reads the body of an entries section, cut at the row width `w`.
pub fn parse_entries(body: &str, w: usize) -> (r: Result<Vec<Entry>, ParseError>)
    ensures
        match r {
            Ok(v) => entries_of(body@, w as int) == Ok::<Seq<EntrySpec>, Failure>(v.deep_view()),
            Err(e) => entries_of(body@, w as int) == Err::<Seq<EntrySpec>, Failure>(e@),
        },
{
    let ls = lines(body);
    let ghost items = entry_items(views_of(ls@), w as int);
    let mut out: Vec<Entry> = Vec::new();
    let mut i: usize = 0;
    assert(items.take(0) =~= Seq::empty());
    assert(out.deep_view() =~= Seq::empty());
    while i < ls.len()
        invariant
            i <= ls.len(),
            views_of(ls@) == lines_of(body@),
            items == entry_items(views_of(ls@), w as int),
            gather(items.take(i as int)) == Ok::<Seq<EntrySpec>, Failure>(out.deep_view()),
        decreases ls.len() - i,
    {
        let ghost before = out.deep_view();
        proof {
            lemma_gather_next(items, i as int, before);
            assert(items[i as int] == entries_of_line(ls@[i as int]@, w as int));
        }
        match entry_line(ls[i].as_str(), w) {
            Ok(mut more) => {
                let ghost added = more.deep_view();
                out.append(&mut more);
                assert(out.deep_view() =~= before + added);
            },
            Err(e) => {
                return Err(e);
            },
        }
        i = i + 1;
    }
    assert(items.take(i as int) =~= items);
    Ok(out)
}

/// The right-hand sides that `line` gives: the value of the row named by the
/// second field, and a second value, of the row named by the fourth field,
/// unless that value is zero, which is decided as for matrix entries: on
/// the digits of the text. The first field labels the set.
pub open spec fn rhs_of_line(line: Seq<char>, w: int) -> Result<Seq<RhsSpec>, Failure> {
    if line.len() < w {
        Err(failure(ErrorKind::ShortLine, line))
    } else {
        match fields_of(line.skip(w)) {
            Err(f) => Err(f),
            Ok(x) => {
                let one = RhsSpec { set: x.f1, row: x.f2, value: x.v3 };
                let two = RhsSpec { set: x.f1, row: x.f4, value: x.v5 };
                if is_zero_text(x.v5) {
                    Ok(seq![one])
                } else {
                    Ok(seq![one, two])
                }
            },
        }
    }
}

/// What each line of the body of a right-hand-side section yields.
pub open spec fn rhs_items(ls: Seq<Seq<char>>, w: int) -> Seq<Result<Seq<RhsSpec>, Failure>> {
    Seq::new(ls.len(), |k: int| rhs_of_line(ls[k], w))
}

/// What the body of a right-hand-side section yields.
pub open spec fn rhs_of(body: Seq<char>, w: int) -> Result<Seq<RhsSpec>, Failure> {
    gather(rhs_items(lines_of(body), w))
}

/// Reads one line of a right-hand-side section.
pub fn rhs_line(line: &str, w: usize) -> (r: Result<Vec<RhsValue>, ParseError>)
    ensures
        match r {
            Ok(v) => rhs_of_line(line@, w as int) == Ok::<Seq<RhsSpec>, Failure>(v.deep_view()),
            Err(e) => rhs_of_line(line@, w as int) == Err::<Seq<RhsSpec>, Failure>(e@),
        },
{
    let (_, rest) = match split_line(line, w) {
        Some(p) => p,
        None => {
            return Err(ParseError::new(ErrorKind::ShortLine, line));
        },
    };
    let x = match parse_sif_row(rest.as_str()) {
        Ok(x) => x,
        Err(e) => {
            return Err(e);
        },
    };
    let ghost fields = x@;
    let mut out: Vec<RhsValue> = Vec::new();
    let second = !x.v5.is_zero();
    let set = x.f1.clone();
    out.push(RhsValue { set: x.f1, row: x.f2, value: x.v3 });
    if second {
        out.push(RhsValue { set, row: x.f4, value: x.v5 });
        assert(out.deep_view() =~= seq![
            RhsSpec { set: fields.f1, row: fields.f2, value: fields.v3 },
            RhsSpec { set: fields.f1, row: fields.f4, value: fields.v5 },
        ]);
    } else {
        assert(out.deep_view() =~= seq![
            RhsSpec { set: fields.f1, row: fields.f2, value: fields.v3 },
        ]);
    }
    Ok(out)
}

/// Reads the body of a right-hand-side section, cut at the row width `w`.
pub fn parse_rhs(body: &str, w: usize) -> (r: Result<Vec<RhsValue>, ParseError>)
    ensures
        match r {
            Ok(v) => rhs_of(body@, w as int) == Ok::<Seq<RhsSpec>, Failure>(v.deep_view()),
            Err(e) => rhs_of(body@, w as int) == Err::<Seq<RhsSpec>, Failure>(e@),
        },
{
    let ls = lines(body);
    let ghost items = rhs_items(views_of(ls@), w as int);
    let mut out: Vec<RhsValue> = Vec::new();
    let mut i: usize = 0;
    assert(items.take(0) =~= Seq::empty());
    assert(out.deep_view() =~= Seq::empty());
    while i < ls.len()
        invariant
            i <= ls.len(),
            views_of(ls@) == lines_of(body@),
            items == rhs_items(views_of(ls@), w as int),
            gather(items.take(i as int)) == Ok::<Seq<RhsSpec>, Failure>(out.deep_view()),
        decreases ls.len() - i,
    {
        let ghost before = out.deep_view();
        proof {
            lemma_gather_next(items, i as int, before);
            assert(items[i as int] == rhs_of_line(ls@[i as int]@, w as int));
        }
        match rhs_line(ls[i].as_str(), w) {
            Ok(mut more) => {
                let ghost added = more.deep_view();
                out.append(&mut more);
                assert(out.deep_view() =~= before + added);
            },
            Err(e) => {
                return Err(e);
            },
        }
        i = i + 1;
    }
    assert(items.take(i as int) =~= items);
    Ok(out)
}

/// The bound that `line` gives: its kind is given by the code, its column
/// by the second field and its value by the third. The first field labels
/// the set.
pub open spec fn bound_of_line(line: Seq<char>, w: int) -> Result<Seq<BoundSpec>, Failure> {
    if line.len() < w {
        Err(failure(ErrorKind::ShortLine, line))
    } else {
        match fields_of(line.skip(w)) {
            Err(f) => Err(f),
            Ok(x) => match BoundType::parse_of(trim_of(line.take(w))) {
                None => Err(failure(ErrorKind::UnknownBoundType, trim_of(line.take(w)))),
                Some(kind) => Ok(seq![BoundSpec { set: x.f1, kind, col: x.f2, value: x.v3 }]),
            },
        }
    }
}

/// What each line of the body of a bounds section yields.
pub open spec fn bound_items(ls: Seq<Seq<char>>, w: int) -> Seq<Result<Seq<BoundSpec>, Failure>> {
    Seq::new(ls.len(), |k: int| bound_of_line(ls[k], w))
}

/// What the body of a bounds section yields.
pub open spec fn bounds_of(body: Seq<char>, w: int) -> Result<Seq<BoundSpec>, Failure> {
    gather(bound_items(lines_of(body), w))
}

/// Reads one line of a bounds section.
pub fn bound_line(line: &str, w: usize) -> (r: Result<Bound, ParseError>)
    ensures
        match r {
            Ok(b) => bound_of_line(line@, w as int) == Ok::<Seq<BoundSpec>, Failure>(seq![b@]),
            Err(e) => bound_of_line(line@, w as int) == Err::<Seq<BoundSpec>, Failure>(e@),
        },
{
    let (code, rest) = match split_line(line, w) {
        Some(p) => p,
        None => {
            return Err(ParseError::new(ErrorKind::ShortLine, line));
        },
    };
    let x = match parse_sif_row(rest.as_str()) {
        Ok(x) => x,
        Err(e) => {
            return Err(e);
        },
    };
    let kind = match BoundType::from_str(code.as_str()) {
        Ok(k) => k,
        Err(e) => {
            return Err(e);
        },
    };
    Ok(Bound { set: x.f1, kind, col: x.f2, value: x.v3 })
}

/// Reads the body of a bounds section, cut at the row width `w`.
pub fn parse_bounds(body: &str, w: usize) -> (r: Result<Vec<Bound>, ParseError>)
    ensures
        match r {
            Ok(v) => bounds_of(body@, w as int) == Ok::<Seq<BoundSpec>, Failure>(v.deep_view()),
            Err(e) => bounds_of(body@, w as int) == Err::<Seq<BoundSpec>, Failure>(e@),
        },
{
    let ls = lines(body);
    let ghost items = bound_items(views_of(ls@), w as int);
    let mut out: Vec<Bound> = Vec::new();
    let mut i: usize = 0;
    assert(items.take(0) =~= Seq::empty());
    assert(out.deep_view() =~= Seq::empty());
    while i < ls.len()
        invariant
            i <= ls.len(),
            views_of(ls@) == lines_of(body@),
            items == bound_items(views_of(ls@), w as int),
            gather(items.take(i as int)) == Ok::<Seq<BoundSpec>, Failure>(out.deep_view()),
        decreases ls.len() - i,
    {
        let ghost before = out.deep_view();
        proof {
            lemma_gather_next(items, i as int, before);
            assert(items[i as int] == bound_of_line(ls@[i as int]@, w as int));
        }
        match bound_line(ls[i].as_str(), w) {
            Ok(b) => {
                out.push(b);
                assert(out.deep_view() =~= before + seq![b@]);
            },
            Err(e) => {
                return Err(e);
            },
        }
        i = i + 1;
    }
    assert(items.take(i as int) =~= items);
    Ok(out)
}

/// The quadratic term that `line` gives: the two columns named by the first
/// and the second field, in that order, and the coefficient in the third.
pub open spec fn quad_of_line(line: Seq<char>, w: int) -> Result<Seq<QuadSpec>, Failure> {
    if line.len() < w {
        Err(failure(ErrorKind::ShortLine, line))
    } else {
        match fields_of(line.skip(w)) {
            Err(f) => Err(f),
            Ok(x) => Ok(seq![QuadSpec { first: x.f1, second: x.f2, value: x.v3 }]),
        }
    }
}

/// What each line of the body of a quadratic section yields.
pub open spec fn quad_items(ls: Seq<Seq<char>>, w: int) -> Seq<Result<Seq<QuadSpec>, Failure>> {
    Seq::new(ls.len(), |k: int| quad_of_line(ls[k], w))
}

/// What the body of a quadratic section yields.
pub open spec fn quadratic_of(body: Seq<char>, w: int) -> Result<Seq<QuadSpec>, Failure> {
    gather(quad_items(lines_of(body), w))
}

/// Reads one line of a quadratic section.
pub fn quad_line(line: &str, w: usize) -> (r: Result<QuadTerm, ParseError>)
    ensures
        match r {
            Ok(q) => quad_of_line(line@, w as int) == Ok::<Seq<QuadSpec>, Failure>(seq![q@]),
            Err(e) => quad_of_line(line@, w as int) == Err::<Seq<QuadSpec>, Failure>(e@),
        },
{
    let (_, rest) = match split_line(line, w) {
        Some(p) => p,
        None => {
            return Err(ParseError::new(ErrorKind::ShortLine, line));
        },
    };
    let x = match parse_sif_row(rest.as_str()) {
        Ok(x) => x,
        Err(e) => {
            return Err(e);
        },
    };
    Ok(QuadTerm { first: x.f1, second: x.f2, value: x.v3 })
}

/// Reads the body of a quadratic section, cut at the row width `w`.
pub fn parse_quadratic(body: &str, w: usize) -> (r: Result<Vec<QuadTerm>, ParseError>)
    ensures
        match r {
            Ok(v) => quadratic_of(body@, w as int) == Ok::<Seq<QuadSpec>, Failure>(
                v.deep_view(),
            ),
            Err(e) => quadratic_of(body@, w as int) == Err::<Seq<QuadSpec>, Failure>(e@),
        },
{
    let ls = lines(body);
    let ghost items = quad_items(views_of(ls@), w as int);
    let mut out: Vec<QuadTerm> = Vec::new();
    let mut i: usize = 0;
    assert(items.take(0) =~= Seq::empty());
    assert(out.deep_view() =~= Seq::empty());
    while i < ls.len()
        invariant
            i <= ls.len(),
            views_of(ls@) == lines_of(body@),
            items == quad_items(views_of(ls@), w as int),
            gather(items.take(i as int)) == Ok::<Seq<QuadSpec>, Failure>(out.deep_view()),
        decreases ls.len() - i,
    {
        let ghost before = out.deep_view();
        proof {
            lemma_gather_next(items, i as int, before);
            assert(items[i as int] == quad_of_line(ls@[i as int]@, w as int));
        }
        match quad_line(ls[i].as_str(), w) {
            Ok(q) => {
                out.push(q);
                assert(out.deep_view() =~= before + seq![q@]);
            },
            Err(e) => {
                return Err(e);
            },
        }
        i = i + 1;
    }
    assert(items.take(i as int) =~= items);
    Ok(out)
}

} // verus!
