//! The fields of one data line.

use vstd::prelude::*;
use vstd::string::*;
use crate::error::{failure, ErrorKind, Failure, ParseError};
use crate::number::{is_number, Number};
use crate::text::{views_of, words, words_of};

verus! {

/// The five fields of a data line: two names, a number, a third name and a
/// second number.
#[derive(Debug, PartialEq, Eq)]
pub struct SifRow {
    /// First name.
    pub f1: String,
    /// Second name.
    pub f2: String,
    /// First number.
    pub v3: Number,
    /// Third name.
    pub f4: String,
    /// Second number.
    pub v5: Number,
}

/// The fields of a data line as contracts speak of them.
pub ghost struct Fields {
    pub f1: Seq<char>,
    pub f2: Seq<char>,
    pub v3: Seq<char>,
    pub f4: Seq<char>,
    pub v5: Seq<char>,
}

impl View for SifRow {
    type V = Fields;

    open spec fn view(&self) -> Fields {
        Fields { f1: self.f1@, f2: self.f2@, v3: self.v3@, f4: self.f4@, v5: self.v5@ }
    }
}

/// The word at position `i`, or the empty name where the line has fewer
/// words.
pub open spec fn name_at(w: Seq<Seq<char>>, i: int) -> Seq<char> {
    if i < w.len() {
        w[i]
    } else {
        Seq::empty()
    }
}

/// The word at position `i`, or zero where the line has fewer words.
pub open spec fn number_at(w: Seq<Seq<char>>, i: int) -> Seq<char> {
    if i < w.len() {
        w[i]
    } else {
        "0"@
    }
}

/// The fields of `line`: its first five words, each missing one replaced by
/// the empty name or by zero. A third or fifth word that is no number makes
/// the line fail, the third before the fifth.
pub open spec fn fields_of(line: Seq<char>) -> Result<Fields, Failure> {
    let w = words_of(line);
    if w.len() > 2 && !is_number(w[2]) {
        Err(failure(ErrorKind::MalformedField(3), w[2]))
    } else if w.len() > 4 && !is_number(w[4]) {
        Err(failure(ErrorKind::MalformedField(5), w[4]))
    } else {
        Ok(
            Fields {
                f1: name_at(w, 0),
                f2: name_at(w, 1),
                v3: number_at(w, 2),
                f4: name_at(w, 3),
                v5: number_at(w, 4),
            },
        )
    }
}

/// The name at position `i` of `w`.
fn take_name(w: &Vec<String>, i: usize) -> (s: String)
    ensures
        s@ == name_at(views_of(w@), i as int),
{
    if i < w.len() {
        w[i].clone()
    } else {
        String::new()
    }
}

/// The number at position `i` of `w`, or the error for field `position`.
fn take_number(w: &Vec<String>, i: usize, position: u8) -> (r: Result<Number, ParseError>)
    ensures
        match r {
            Ok(n) => n@ == number_at(views_of(w@), i as int) && (i < w.len() ==> is_number(
                views_of(w@)[i as int],
            )),
            Err(e) => i < w.len() && !is_number(views_of(w@)[i as int]) && e@ == failure(
                ErrorKind::MalformedField(position),
                views_of(w@)[i as int],
            ),
        },
{
    if i < w.len() {
        match Number::from_text(w[i].as_str()) {
            Some(n) => Ok(n),
            None => Err(ParseError::new(ErrorKind::MalformedField(position), w[i].as_str())),
        }
    } else {
        Ok(Number::zero())
    }
}

/// Splits one data line into its five fields.
///
/// The line is cut into words at runs of white space. A line with fewer
/// than five words is no error: the missing names are empty and the missing
/// numbers are zero. Words after the fifth are ignored.
pub fn parse_sif_row(input: &str) -> (r: Result<SifRow, ParseError>)
    ensures
        match r {
            Ok(row) => fields_of(input@) == Ok::<Fields, Failure>(row@),
            Err(e) => fields_of(input@) == Err::<Fields, Failure>(e@),
        },
{
    let w = words(input);
    let f1 = take_name(&w, 0);
    let f2 = take_name(&w, 1);
    let v3 = match take_number(&w, 2, 3) {
        Ok(n) => n,
        Err(e) => {
            return Err(e);
        },
    };
    let f4 = take_name(&w, 3);
    let v5 = match take_number(&w, 4, 5) {
        Ok(n) => n,
        Err(e) => {
            return Err(e);
        },
    };
    Ok(SifRow { f1, f2, v3, f4, v5 })
}

} // verus!
