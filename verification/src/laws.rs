//! What holds of every document, proved from the contracts of the library.

use vstd::prelude::*;
use crate::document::{name_of, name_pattern, sections_of};
use crate::error::{ErrorCategory, ErrorKind, Failure};
use crate::model::{
    bound_pairs, column_pairs, entry_pairs, problem_of, quad_pairs, rhs_pairs, row_pairs, Problem,
};
use crate::table::{lemma_map_of_keys, lemma_map_of_last_wins, map_of};
use crate::number::{
    digits_end, digits_start, digits_value, is_decimal, is_digit, is_zero_text,
    lemma_digits_value_zero, mantissa_end,
};
use crate::parser::{parse_outcome, run, start};
use crate::pattern::regex_find;
use crate::records::{ColumnSpec, EntrySpec, RecordsSpec, RhsSpec, RowSpec};
use crate::row::{fields_of, Fields};
use crate::sections::{bound_of_line, entries_of_line, rhs_of_line};
use crate::text::{
    is_space, lemma_skip_spaces_bounds, lemma_trimmed_len_bounds, skip_spaces, trim_of,
    trimmed_len,
};
use crate::types::{BoundType, ColumnType, Indicator, RowType};
use crate::validate::{
    column_names, consistent, fault_of, first_repeat, lemma_no_fault_iff_consistent,
    lemma_repeat_from, row_names,
};

verus! {

/// Trimmed text neither starts nor ends with white space, and it is a part
/// of the text it was trimmed from.
pub proof fn lemma_trim_is_trimmed(s: Seq<char>)
    ensures
        trim_of(s).len() > 0 ==> !is_space(trim_of(s).first()) && !is_space(trim_of(s).last()),
        trim_of(s) == s.subrange(skip_spaces(s.take(trimmed_len(s)), 0), trimmed_len(s)),
{
    lemma_trimmed_len_bounds(s);
    let n = trimmed_len(s);
    let head = s.take(n);
    lemma_skip_spaces_bounds(head, 0);
    let a = skip_spaces(head, 0);
    assert(trim_of(s) =~= s.subrange(a, n));
    if trim_of(s).len() > 0 {
        assert(head[a] == s[a]);
        assert(trim_of(s).first() == s[a]);
        assert(trim_of(s).last() == s[n - 1]);
    }
}

/// The name of a problem that was read is the header without its opening
/// word `NAME` and without the white space around the rest.
pub proof fn lemma_name_is_trimmed_header(text: Seq<char>, p: Problem)
    requires
        parse_outcome(text) == Ok::<Problem, Failure>(p),
    ensures
        regex_find(name_pattern(), text) is Some,
        p.name == trim_of(regex_find(name_pattern(), text)->0.skip(4)),
        p.name.len() > 0 ==> !is_space(p.name.first()) && !is_space(p.name.last()),
{
    let header = regex_find(name_pattern(), text)->0;
    lemma_trim_is_trimmed(header.skip(4));
}

/// A row that is named among the defined rows is a key of their map.
proof fn lemma_defined_row_is_key(rows: Seq<RowSpec>, name: Seq<char>)
    requires
        row_names(rows).to_set().contains(name),
    ensures
        rows.len() > 0,
        map_of(row_pairs(rows)).contains_key(name),
{
    let names = row_names(rows);
    let j = names.index_of(name);
    assert(names[j] == name);
    assert(row_pairs(rows)[j].0 == name);
    lemma_map_of_keys(row_pairs(rows), name);
}

/// A column that is named among the defined columns is a key of their map.
proof fn lemma_defined_column_is_key(cols: Seq<ColumnSpec>, name: Seq<char>)
    requires
        column_names(cols).to_set().contains(name),
    ensures
        cols.len() > 0,
        map_of(column_pairs(cols)).contains_key(name),
{
    let names = column_names(cols);
    let j = names.index_of(name);
    assert(names[j] == name);
    assert(column_pairs(cols)[j].0 == name);
    lemma_map_of_keys(column_pairs(cols), name);
}

/// The problem assembled from records that fit together uses no name that
/// it does not define.
pub proof fn lemma_consistent_records_resolve(name: Seq<char>, r: RecordsSpec)
    requires
        consistent(r),
    ensures
        problem_of(name, r).resolved(),
{
    let p = problem_of(name, r);
    assert forall|k: (Seq<char>, Seq<char>)| #[trigger] p.entries.contains_key(k) implies
        p.rows.contains_key(k.0) && p.cols.contains_key(k.1) by {
        lemma_map_of_keys(entry_pairs(r.entries), k);
        let i = choose|i: int|
            0 <= i < entry_pairs(r.entries).len() && (#[trigger] entry_pairs(r.entries)[i]).0 == k;
        assert(k == (r.entries[i].row, r.entries[i].col));
        lemma_defined_row_is_key(r.rows, k.0);
        lemma_defined_column_is_key(r.cols, k.1);
    }
    assert forall|k: Seq<char>| #[trigger] p.rhs.contains_key(k) implies p.rows.contains_key(
        k,
    ) by {
        lemma_map_of_keys(rhs_pairs(r.rhs), k);
        let i = choose|i: int|
            0 <= i < rhs_pairs(r.rhs).len() && (#[trigger] rhs_pairs(r.rhs)[i]).0 == k;
        assert(k == r.rhs[i].row);
        lemma_defined_row_is_key(r.rows, k);
    }
    assert forall|k: Seq<char>| #[trigger] p.bounds.contains_key(k) implies p.cols.contains_key(
        k,
    ) by {
        lemma_map_of_keys(bound_pairs(r.bounds), k);
        let i = choose|i: int|
            0 <= i < bound_pairs(r.bounds).len() && (#[trigger] bound_pairs(r.bounds)[i]).0 == k;
        assert(k == r.bounds[i].col);
        lemma_defined_column_is_key(r.cols, k);
    }
    assert forall|k: (Seq<char>, Seq<char>)| #[trigger] p.quadratic.contains_key(k) implies
        p.cols.contains_key(k.0) && p.cols.contains_key(k.1) by {
        lemma_map_of_keys(quad_pairs(r.quadratic), k);
        let i = choose|i: int|
            0 <= i < quad_pairs(r.quadratic).len() && (#[trigger] quad_pairs(r.quadratic)[i]).0
                == k;
        assert(k == (r.quadratic[i].first, r.quadratic[i].second));
        lemma_defined_column_is_key(r.cols, k.0);
        lemma_defined_column_is_key(r.cols, k.1);
    }
}

/// In a problem that was read, every matrix entry, right-hand side, bound
/// and quadratic term names rows and columns that the problem holds. A
/// document of which this would not hold is rejected.
pub proof fn lemma_parsed_problem_resolves(text: Seq<char>, p: Problem)
    requires
        parse_outcome(text) == Ok::<Problem, Failure>(p),
    ensures
        p.resolved(),
{
    let name = name_of(text)->Ok_0;
    let st = run(start(), sections_of(text))->Ok_0;
    lemma_no_fault_iff_consistent(st.records);
    lemma_consistent_records_resolve(name, st.records);
}

/// Reading is a function of the text: two readings of one text give the
/// same problem, or the same failure.
pub proof fn lemma_reading_is_repeatable(
    a: Seq<char>,
    b: Seq<char>,
    first: Result<Problem, Failure>,
    second: Result<Problem, Failure>,
)
    requires
        a == b,
        first == parse_outcome(a),
        second == parse_outcome(b),
    ensures
        first == second,
{
}

/// A number is zero exactly where it is a decimal and the digits of its
/// mantissa write the number 0.
pub proof fn lemma_zero_is_a_mantissa_of_value_zero(s: Seq<char>)
    ensures
        is_zero_text(s) <==> is_decimal(s, digits_start(s)) && digits_value(
            s,
            digits_start(s),
            mantissa_end(s, digits_start(s)),
        ) == 0,
{
    let i = digits_start(s);
    if is_decimal(s, i) {
        let a = digits_end(s, i);
        let end = mantissa_end(s, i);
        lemma_digits_run(s, i);
        if a < s.len() && s[a] == '.' {
            lemma_digits_run(s, a + 1);
        }
        lemma_digits_value_zero(s, i, end);
        if is_zero_text(s) {
            assert forall|j: int| i <= j < end && is_digit(s[j]) implies #[trigger] s[j]
                == '0' by {}
        }
        if digits_value(s, i, end) == 0 {
            assert forall|j: int| i <= j < end implies #[trigger] s[j] == '0' || s[j] == '.' by {
                if j != a {
                    assert(is_digit(s[j]));
                }
            }
        }
    }
}

/// Where `digits_end` stops: within the text, after digits only.
proof fn lemma_digits_run(s: Seq<char>, i: int)
    requires
        0 <= i <= s.len(),
    ensures
        i <= digits_end(s, i) <= s.len(),
        forall|j: int| i <= j < digits_end(s, i) ==> is_digit(#[trigger] s[j]),
    decreases s.len() - i,
{
    if i < s.len() && is_digit(s[i]) {
        lemma_digits_run(s, i + 1);
    }
}

/// The text `0.0` denotes zero.
pub proof fn lemma_zero_point_zero_is_zero()
    ensures
        is_zero_text("0.0"@),
{
    reveal_strlit("0.0");
    let s = "0.0"@;
    assert(digits_end(s, 3) == 3);
    assert(digits_end(s, 2) == 3);
    assert(digits_end(s, 1) == 1);
    assert(digits_end(s, 0) == 1);
    assert(mantissa_end(s, 0) == 3);
    assert(is_decimal(s, 0));
}

/// A data line whose second number is zero gives one matrix entry and one
/// right-hand side, not two; a line of bounds gives one bound whatever its
/// numbers are.
pub proof fn lemma_zero_second_value_is_dropped(line: Seq<char>, w: int, x: Fields)
    requires
        w <= line.len(),
        fields_of(line.skip(w)) == Ok::<Fields, Failure>(x),
        is_zero_text(x.v5),
    ensures
        entries_of_line(line, w) == Ok::<Seq<EntrySpec>, Failure>(
            seq![EntrySpec { row: x.f2, col: x.f1, value: x.v3 }],
        ),
        rhs_of_line(line, w) == Ok::<Seq<RhsSpec>, Failure>(
            seq![RhsSpec { set: x.f1, row: x.f2, value: x.v3 }],
        ),
        bound_of_line(line, w) matches Ok(bs) ==> bs.len() == 1,
{
}

/// A data line whose second number is not zero gives two matrix entries
/// and two right-hand sides.
pub proof fn lemma_nonzero_second_value_is_kept(line: Seq<char>, w: int, x: Fields)
    requires
        w <= line.len(),
        fields_of(line.skip(w)) == Ok::<Fields, Failure>(x),
        !is_zero_text(x.v5),
    ensures
        entries_of_line(line, w) == Ok::<Seq<EntrySpec>, Failure>(
            seq![
                EntrySpec { row: x.f2, col: x.f1, value: x.v3 },
                EntrySpec { row: x.f4, col: x.f1, value: x.v5 },
            ],
        ),
        rhs_of_line(line, w) == Ok::<Seq<RhsSpec>, Failure>(
            seq![
                RhsSpec { set: x.f1, row: x.f2, value: x.v3 },
                RhsSpec { set: x.f1, row: x.f4, value: x.v5 },
            ],
        ),
{
}

/// Records in which two rows or two columns share a name never pass the
/// check: they fail with an error of referential integrity, about a row
/// where two rows share a name and else about a column.
pub proof fn lemma_duplicate_names_are_rejected(r: RecordsSpec)
    requires
        !row_names(r.rows).no_duplicates() || !column_names(r.cols).no_duplicates(),
    ensures
        fault_of(r) is Some,
        fault_of(r)->0.kind.category_of() == ErrorCategory::ReferentialIntegrity,
        !row_names(r.rows).no_duplicates() ==> fault_of(r)->0.kind == ErrorKind::DuplicateRow,
        row_names(r.rows).no_duplicates() ==> fault_of(r)->0.kind == ErrorKind::DuplicateColumn,
{
    let rn = row_names(r.rows);
    let cn = column_names(r.cols);
    assert(rn.take(0).no_duplicates());
    assert(cn.take(0).no_duplicates());
    lemma_repeat_from(rn, 0);
    lemma_repeat_from(cn, 0);
    if first_repeat(rn) == rn.len() {
        assert(rn.take(rn.len() as int) =~= rn);
    }
    if first_repeat(cn) == cn.len() {
        assert(cn.take(cn.len() as int) =~= cn);
    }
}

/// A document whose sections yield two rows or two columns of one name is
/// rejected with an error of referential integrity.
pub proof fn lemma_document_with_duplicates_fails(text: Seq<char>)
    requires
        name_of(text) is Ok,
        run(start(), sections_of(text)) is Ok,
        ({
            let r = run(start(), sections_of(text))->Ok_0.records;
            !row_names(r.rows).no_duplicates() || !column_names(r.cols).no_duplicates()
        }),
    ensures
        parse_outcome(text) is Err,
        parse_outcome(text)->Err_0.kind.category_of() == ErrorCategory::ReferentialIntegrity,
{
    lemma_duplicate_names_are_rejected(run(start(), sections_of(text))->Ok_0.records);
}

/// Of two matrix entries for the same row and column the later one gives
/// the coefficient: the entry at position `i` decides, where no later entry
/// has its row and column.
pub proof fn lemma_later_entry_overwrites(name: Seq<char>, r: RecordsSpec, i: int)
    requires
        0 <= i < r.entries.len(),
        forall|j: int|
            i < j < r.entries.len() ==> !((#[trigger] r.entries[j]).row == r.entries[i].row
                && r.entries[j].col == r.entries[i].col),
    ensures
        problem_of(name, r).entries.contains_key((r.entries[i].row, r.entries[i].col)),
        problem_of(name, r).entries[(r.entries[i].row, r.entries[i].col)] == r.entries[i].value,
{
    let pairs = entry_pairs(r.entries);
    assert forall|j: int| i < j < pairs.len() implies (#[trigger] pairs[j]).0 != pairs[i].0 by {
        assert(!(r.entries[j].row == r.entries[i].row && r.entries[j].col == r.entries[i].col));
    }
    lemma_map_of_last_wins(pairs, i);
}

/// Each row kind is read back from its code.
pub proof fn lemma_row_type_round_trip(k: RowType)
    ensures
        RowType::parse_of(k.code_of()) == Some(k),
        trim_of(k.code_of()) == k.code_of(),
        RowType::parse_of(trim_of(k.code_of())) == Some(k),
{
    reveal_strlit("N");
    reveal_strlit("G");
    reveal_strlit("L");
    reveal_strlit("E");
    lemma_unpadded_is_trimmed(k.code_of());
}

/// Each bound kind is read back from its code.
pub proof fn lemma_bound_type_round_trip(k: BoundType)
    ensures
        BoundType::parse_of(k.code_of()) == Some(k),
        trim_of(k.code_of()) == k.code_of(),
        BoundType::parse_of(trim_of(k.code_of())) == Some(k),
{
    reveal_strlit("LO");
    reveal_strlit("UP");
    reveal_strlit("FX");
    reveal_strlit("FR");
    reveal_strlit("MI");
    reveal_strlit("PL");
    lemma_unpadded_is_trimmed(k.code_of());
}

/// Each column kind is read back from its marker. The marker of the
/// continuous kind is a blank: trimmed, it is the empty text, which reads
/// as the continuous kind.
pub proof fn lemma_column_type_round_trip(k: ColumnType)
    ensures
        ColumnType::parse_of(trim_of(k.code_of())) == Some(k),
{
    reveal_strlit(" ");
    reveal_strlit("X");
    reveal_strlit("Z");
    if k == ColumnType::__ {
        let blank = " "@;
        assert(trimmed_len(blank.drop_last()) == 0);
        assert(trimmed_len(blank) == 0);
        assert(trim_of(blank).len() == 0);
    } else {
        lemma_unpadded_is_trimmed(k.code_of());
    }
}

/// Each indicator is read back from its keyword.
pub proof fn lemma_indicator_round_trip(k: Indicator)
    ensures
        Indicator::parse_of(k.code_of()) == Some(k),
        trim_of(k.code_of()) == k.code_of(),
        Indicator::parse_of(trim_of(k.code_of())) == Some(k),
{
    reveal_strlit("NAME");
    reveal_strlit("GROUPS");
    reveal_strlit("ROWS");
    reveal_strlit("CONSTRAINTS");
    reveal_strlit("VARIABLES");
    reveal_strlit("COLUMNS");
    reveal_strlit("CONSTANTS");
    reveal_strlit("RHS");
    reveal_strlit("RHS'");
    reveal_strlit("RANGES");
    reveal_strlit("BOUNDS");
    reveal_strlit("START POINT");
    reveal_strlit("QUADRATIC");
    reveal_strlit("HESSIAN");
    reveal_strlit("QUADS");
    reveal_strlit("QUADOBJ");
    reveal_strlit("QSECTION");
    reveal_strlit("ELEMENT TYPE");
    reveal_strlit("ELEMENT USES");
    reveal_strlit("GROUP TYPE");
    reveal_strlit("GROUP USES");
    reveal_strlit("OBJECT BOUNDS");
    reveal_strlit("ENDATA");
    lemma_unpadded_is_trimmed(k.code_of());
}

/// Text that neither starts nor ends with white space is its own trimmed
/// form.
pub proof fn lemma_unpadded_is_trimmed(s: Seq<char>)
    requires
        s.len() > 0,
        !is_space(s.first()),
        !is_space(s.last()),
    ensures
        trim_of(s) == s,
{
    assert(trimmed_len(s) == s.len());
    assert(s.take(s.len() as int) =~= s);
    assert(skip_spaces(s, 0) == 0);
    assert(s.skip(0) =~= s);
}

} // verus!
