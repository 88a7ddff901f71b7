use sif_rs::document::{
    parse_name, problem_name_from, sections_from_matches, split_sections,
};
use sif_rs::error::{ErrorCategory, ErrorKind, ParseError};
use sif_rs::model::{assemble, SIF};
use sif_rs::number::Number;
use sif_rs::parser::{find_columns, SifParser};
use sif_rs::records::{Bound, ColumnDef, Entry, QuadTerm, Records, RhsValue, RowDef};
use sif_rs::row::parse_sif_row;
use sif_rs::sections::{
    bound_line, entry_line, parse_bounds, parse_entries, parse_quadratic, parse_rhs, parse_rows,
    quad_line, rhs_line, row_line, row_width, row_width_from, split_line,
};
use sif_rs::types::{BoundType, ColumnType, Major, RowType};
use sif_rs::validate::validate;

fn num(t: &str) -> Number {
    Number::from_text(t).unwrap()
}

fn entry(row: &str, col: &str, v: &str) -> Entry {
    Entry { row: row.to_string(), col: col.to_string(), value: num(v) }
}

fn row(name: &str, kind: RowType) -> RowDef {
    RowDef { name: name.to_string(), kind }
}

fn col(name: &str) -> ColumnDef {
    ColumnDef { name: name.to_string(), kind: ColumnType::__ }
}

fn sample() -> Records {
    let mut r = Records::new();
    r.rows.push(row("obj", RowType::N));
    r.rows.push(row("r1", RowType::G));
    r.cols.push(col("c1"));
    r.cols.push(col("c2"));
    r.entries.push(entry("obj", "c1", "1.0"));
    r.entries.push(entry("r1", "c2", "2.0"));
    r.rhs.push(RhsValue { set: "rhs".to_string(), row: "r1".to_string(), value: num("4") });
    r.bounds.push(Bound {
        set: "b".to_string(),
        kind: BoundType::Lo,
        col: "c1".to_string(),
        value: num("-1"),
    });
    r.quadratic.push(QuadTerm {
        first: "c2".to_string(),
        second: "c1".to_string(),
        value: num("3"),
    });
    r
}

#[test]
fn row_with_five_words() {
    let row = parse_sif_row("c1 obj 1.5 r1 2.0").unwrap();
    assert_eq!(row.f1, "c1");
    assert_eq!(row.f2, "obj");
    assert_eq!(row.v3.as_str().parse::<f64>().unwrap(), 1.5);
    assert_eq!(row.f4, "r1");
    assert_eq!(row.v5.as_str().parse::<f64>().unwrap(), 2.0);
}

#[test]
fn row_with_few_words_takes_defaults() {
    let row = parse_sif_row("  c1 ").unwrap();
    assert_eq!(row.f1, "c1");
    assert_eq!(row.f2, "");
    assert_eq!(row.v3.as_str().parse::<f64>().unwrap(), 0.0);
    assert_eq!(row.f4, "");
    assert_eq!(row.v5.as_str().parse::<f64>().unwrap(), 0.0);
    let empty = parse_sif_row("").unwrap();
    assert_eq!(empty.f1, "");
}

#[test]
fn row_ignores_words_after_the_fifth() {
    let row = parse_sif_row("a b 1 c 2 d e f").unwrap();
    assert_eq!(row.f4, "c");
    assert_eq!(row.v5.as_str(), "2");
}

#[test]
fn row_with_bad_third_word() {
    let e = parse_sif_row("c1 obj x1.5 r1 y").unwrap_err();
    assert_eq!(e.kind, ErrorKind::MalformedField(3));
    assert_eq!(e.subject, "x1.5");
    assert_eq!(e.to_string(), "Failed to parse field 3: x1.5");
}

#[test]
fn row_with_bad_fifth_word() {
    let e = parse_sif_row("c1 obj 1.5 r1 y").unwrap_err();
    assert_eq!(e.kind, ErrorKind::MalformedField(5));
    assert_eq!(e.subject, "y");
}

#[test]
fn row_width_is_the_length_of_the_code_field() {
    assert_eq!(row_width(" N  obj"), Ok(4));
    assert_eq!(row_width("   XG     r1"), Ok(10));
    assert_eq!(row_width("\tE\tr1"), Ok(3));
    let e = row_width("N  obj").unwrap_err();
    assert_eq!(e.kind, ErrorKind::NoRowWidth);
    assert_eq!(e.subject, "N  obj");
    assert_eq!(e.to_string(), "Failed to get separator from ROWS section: N  obj");
}

#[test]
fn row_width_counts_characters() {
    assert_eq!(row_width("\u{2003}N\u{2003}obj"), Ok(3));
}

#[test]
fn row_width_from_groups() {
    let groups = Some(vec![Some(" N  obj".to_string()), Some(" N  ".to_string())]);
    assert_eq!(row_width_from(" N  obj", &groups), Ok(4));
    let no_group = Some(vec![Some("x".to_string()), None]);
    assert_eq!(row_width_from("x", &no_group).unwrap_err().kind, ErrorKind::NoRowWidth);
    let one_group = Some(vec![Some("x".to_string())]);
    assert_eq!(row_width_from("x", &one_group).unwrap_err().kind, ErrorKind::NoRowWidth);
    assert_eq!(row_width_from("x", &None).unwrap_err().kind, ErrorKind::NoRowWidth);
}

#[test]
fn line_is_cut_at_the_width() {
    assert_eq!(split_line(" UP bnd c1 4", 4), Some((" UP ".to_string(), "bnd c1 4".to_string())));
    assert_eq!(split_line("abc", 3), Some(("abc".to_string(), "".to_string())));
    assert_eq!(split_line("abc", 4), None);
    assert_eq!(split_line("\u{e9}\u{e9}x", 2), Some(("\u{e9}\u{e9}".to_string(), "x".to_string())));
}

#[test]
fn rows_of_a_body() {
    let (w, rows) = parse_rows(" N  obj\n G  r1\n L  r2 extra\n E  r3\n").unwrap();
    assert_eq!(w, 4);
    assert_eq!(
        rows,
        vec![
            row("obj", RowType::N),
            row("r1", RowType::G),
            row("r2", RowType::L),
            row("r3", RowType::E)
        ]
    );
}

#[test]
fn empty_row_section() {
    let e = parse_rows("").unwrap_err();
    assert_eq!(e.kind, ErrorKind::EmptyRows);
    assert_eq!(e.category(), ErrorCategory::Structure);
    assert_eq!(e.to_string(), "ROWS section is empty");
}

#[test]
fn row_line_reads_code_and_name() {
    assert_eq!(row_line(" G  r1", 4), Ok(row("r1", RowType::G)));
    assert_eq!(row_line(" G", 4).unwrap_err().kind, ErrorKind::ShortLine);
    assert_eq!(row_line(" Y  r1", 4).unwrap_err().kind, ErrorKind::UnknownRowType);
    assert_eq!(row_line(" Y  r1 a zz", 4).unwrap_err().kind, ErrorKind::MalformedField(3));
}

#[test]
fn entry_line_gives_one_or_two_entries() {
    let two = entry_line("    c1 r1 2.0 r2 -1.0", 4).unwrap();
    assert_eq!(two, vec![entry("r1", "c1", "2.0"), entry("r2", "c1", "-1.0")]);
    let one = entry_line("    c1 obj 1.5", 4).unwrap();
    assert_eq!(one, vec![entry("obj", "c1", "1.5")]);
    let zero = entry_line("    c1 obj 1.5 r2 0.0", 4).unwrap();
    assert_eq!(zero, vec![entry("obj", "c1", "1.5")]);
    let nan = entry_line("    c1 obj 1.5 r2 nan", 4).unwrap();
    assert_eq!(nan.len(), 2);
}

#[test]
fn entries_of_a_body() {
    let es = parse_entries("    c1 r1 2.0 r2 -1.0\n    c1 obj 1.5\n", 4).unwrap();
    assert_eq!(es, vec![entry("r1", "c1", "2.0"), entry("r2", "c1", "-1.0"), entry("obj", "c1", "1.5")]);
    assert_eq!(parse_entries("", 4), Ok(vec![]));
    let e = parse_entries("    c1 r1 2.0\n  \n    c2 r1 1.0\n", 4).unwrap_err();
    assert_eq!(e.kind, ErrorKind::ShortLine);
    assert_eq!(e.subject, "  ");
    assert_eq!(e.to_string(), "Line is shorter than the separator:   ");
}

#[test]
fn first_failing_line_gives_the_error() {
    let e = parse_entries("    c1 r1 2.0\n    c1 r1 bad\n    c1 r1 2.0 r2 worse\n", 4).unwrap_err();
    assert_eq!(e.kind, ErrorKind::MalformedField(3));
    assert_eq!(e.subject, "bad");
}

#[test]
fn rhs_line_gives_one_or_two_values() {
    let two = rhs_line("    rhs r1 2.0 r2 6.0", 4).unwrap();
    assert_eq!(two.len(), 2);
    assert_eq!(two[0].set, "rhs");
    assert_eq!(two[0].row, "r1");
    assert_eq!(two[1].set, "rhs");
    assert_eq!(two[1].row, "r2");
    assert_eq!(two[1].value.as_str(), "6.0");
    assert_eq!(rhs_line("    rhs r1 2.0 r2 0", 4).unwrap().len(), 1);
    assert_eq!(parse_rhs("    rhs r1 2.0 r2 6.0\n    rhs r3 1\n", 4).unwrap().len(), 3);
}

#[test]
fn bound_line_reads_code_column_and_value() {
    let b = bound_line(" UP bnd1      c1                20.0", 4).unwrap();
    assert_eq!(b.set, "bnd1");
    assert_eq!(b.kind, BoundType::Up);
    assert_eq!(b.col, "c1");
    assert_eq!(b.value.as_str().parse::<f64>().unwrap(), 20.0);
    assert_eq!(bound_line(" FR bnd1 c1", 4).unwrap().kind, BoundType::Fr);
    assert_eq!(parse_bounds(" LO b c1 1\n MI b c2\n", 4).unwrap().len(), 2);
    assert_eq!(parse_bounds(" LO b c1 1\n QQ b c2\n", 4).unwrap_err().kind, ErrorKind::UnknownBoundType);
}

#[test]
fn quadratic_line_keeps_the_order_of_its_columns() {
    let q = quad_line("    c2 c1 8.0 more 1", 4).unwrap();
    assert_eq!(q.first, "c2");
    assert_eq!(q.second, "c1");
    assert_eq!(q.value.as_str(), "8.0");
    assert_eq!(parse_quadratic("    c1 c1 8.0\n    c1 c2 2.0\n", 4).unwrap().len(), 2);
}

#[test]
fn columns_are_found_at_their_first_entry() {
    let es = vec![
        entry("r1", "c2", "1"),
        entry("r2", "c1", "1"),
        entry("r3", "c2", "1"),
        entry("r1", "c3", "1"),
        entry("r2", "c1", "1"),
    ];
    assert_eq!(find_columns(&vec![], &es), vec![col("c2"), col("c1"), col("c3")]);
    assert_eq!(find_columns(&vec![col("c1"), col("c9")], &es), vec![col("c2"), col("c3")]);
    assert_eq!(find_columns(&vec![col("c1")], &vec![]), vec![]);
}

#[test]
fn consistent_records_pass() {
    assert_eq!(validate(&sample()), Ok(()));
    assert_eq!(validate(&Records::new()), Ok(()));
}

#[test]
fn checks_run_in_their_order() {
    let mut r = sample();
    r.quadratic.push(QuadTerm { first: "c1".to_string(), second: "q".to_string(), value: num("1") });
    assert_eq!(validate(&r), Err(ParseError::new(ErrorKind::QuadraticUndefinedColumn, "q")));
    r.bounds.push(Bound { set: "b".to_string(), kind: BoundType::Up, col: "b".to_string(), value: num("1") });
    assert_eq!(validate(&r), Err(ParseError::new(ErrorKind::BoundUndefinedColumn, "b")));
    r.rhs.push(RhsValue { set: "s".to_string(), row: "h".to_string(), value: num("1") });
    assert_eq!(validate(&r), Err(ParseError::new(ErrorKind::RhsUndefinedRow, "h")));
    r.entries.push(entry("r1", "e", "1"));
    assert_eq!(validate(&r), Err(ParseError::new(ErrorKind::EntryUndefinedColumn, "e")));
    r.entries.push(entry("x", "y", "1"));
    assert_eq!(validate(&r), Err(ParseError::new(ErrorKind::EntryUndefinedColumn, "e")));
    r.cols.push(col("c1"));
    assert_eq!(validate(&r), Err(ParseError::new(ErrorKind::DuplicateColumn, "c1")));
    r.rows.push(row("obj", RowType::E));
    assert_eq!(validate(&r), Err(ParseError::new(ErrorKind::DuplicateRow, "obj")));
}

#[test]
fn entry_checks_its_row_before_its_column() {
    let mut r = sample();
    r.entries.push(entry("nowhere", "nothing", "1"));
    let e = validate(&r).unwrap_err();
    assert_eq!(e.kind, ErrorKind::EntryUndefinedRow);
    assert_eq!(e.subject, "nowhere");
    assert_eq!(e.to_string(), "Entry references undefined row: nowhere");
}

#[test]
fn entry_with_undeclared_column_is_named() {
    let mut r = sample();
    r.entries.push(entry("r1", "c9", "1"));
    let e = validate(&r).unwrap_err();
    assert_eq!(e.kind, ErrorKind::EntryUndefinedColumn);
    assert_eq!(e.category(), ErrorCategory::ReferentialIntegrity);
    assert_eq!(e.subject, "c9");
    assert_eq!(e.to_string(), "Entry references undefined column: c9");
}

#[test]
fn quadratic_checks_its_first_column_first() {
    let mut r = sample();
    r.quadratic.push(QuadTerm { first: "p".to_string(), second: "q".to_string(), value: num("1") });
    assert_eq!(validate(&r).unwrap_err().subject, "p");
}

#[test]
fn first_repeated_name_is_reported() {
    let mut r = Records::new();
    for n in ["a", "b", "c", "b", "a"] {
        r.rows.push(row(n, RowType::E));
    }
    let e = validate(&r).unwrap_err();
    assert_eq!(e.kind, ErrorKind::DuplicateRow);
    assert_eq!(e.subject, "b");
    assert_eq!(e.to_string(), "Duplicate row names found: b");
    let mut c = Records::new();
    c.cols.push(col("x"));
    c.cols.push(col("x"));
    assert_eq!(validate(&c).unwrap_err().to_string(), "Duplicate column names found: x");
}

#[test]
fn assembled_problem_holds_the_records() {
    let p = assemble("demo".to_string(), &sample());
    assert_eq!(p.get_name(), "demo");
    assert_eq!(p.get_rows().get(&"r1".to_string()), Some(&RowType::G));
    assert_eq!(p.get_cols().len(), 2);
    assert_eq!(p.get_entries().get(&("r1".to_string(), "c2".to_string())), Some(&num("2.0")));
    assert_eq!(p.get_rhs().get(&"r1".to_string()), Some(&num("4")));
    assert_eq!(p.get_bounds().get(&"c1".to_string()), Some(&(BoundType::Lo, num("-1"))));
    assert_eq!(p.get_quadratic().get(&("c2".to_string(), "c1".to_string())), Some(&num("3")));
    assert_eq!(p.get_quadratic().get(&("c1".to_string(), "c2".to_string())), None);
}

#[test]
fn rows_and_columns_are_synthesized_from_entries() {
    let mut r = Records::new();
    r.entries.push(entry("r1", "c1", "1.0"));
    r.entries.push(entry("r2", "c1", "2.0"));
    r.entries.push(entry("r1", "c2", "3.0"));
    let p = assemble("free".to_string(), &r);
    assert_eq!(p.get_rows().len(), 2);
    assert_eq!(p.get_cols().len(), 2);
    assert_eq!(p.get_rows().get(&"r1".to_string()), Some(&RowType::N));
    assert_eq!(p.get_rows().get(&"r2".to_string()), Some(&RowType::N));
    assert_eq!(p.get_cols().get(&"c1".to_string()), Some(&ColumnType::__));
    assert_eq!(p.get_cols().get(&"c2".to_string()), Some(&ColumnType::__));
    assert_eq!(p.get_entries().len(), 3);
}

#[test]
fn defined_rows_are_not_replaced_by_synthesized_ones() {
    let mut r = Records::new();
    r.rows.push(row("only", RowType::E));
    r.entries.push(entry("other", "c1", "1.0"));
    let p = assemble("x".to_string(), &r);
    assert_eq!(p.get_rows().len(), 1);
    assert_eq!(p.get_rows().get(&"other".to_string()), None);
    assert_eq!(p.get_cols().len(), 1);
}

#[test]
fn new_problem_is_empty() {
    let p = SIF::new();
    assert_eq!(p.get_name(), "");
    assert!(p.get_rows().is_empty());
    assert!(p.get_cols().is_empty());
    assert!(p.get_entries().is_empty());
    assert!(p.get_rhs().is_empty());
    assert!(p.get_bounds().is_empty());
    assert!(p.get_quadratic().is_empty());
    assert_eq!(p, assemble(String::new(), &Records::new()));
}

#[test]
fn name_header_is_found_in_the_text() {
    assert_eq!(parse_name("* comment\nNAME   AFIRO  \nROWS\n"), Ok("AFIRO".to_string()));
    assert_eq!(parse_name("NAME          QPTEST\n"), Ok("QPTEST".to_string()));
    assert_eq!(parse_name("ROWS\n").unwrap_err().kind, ErrorKind::MissingName);
    assert_eq!(parse_name(" NAME X\n").unwrap_err().kind, ErrorKind::MissingName);
    assert_eq!(parse_name("NAMEX\n").unwrap_err().kind, ErrorKind::MissingName);
    assert_eq!(parse_name("NAME\n  next line\n").unwrap_err().kind, ErrorKind::MissingName);
    assert_eq!(parse_name("NAME \t\nROWS\n"), Ok("".to_string()));
    assert_eq!(parse_name("NAME X Y\r\nROWS\n"), Ok("X Y".to_string()));
}

#[test]
fn name_from_a_header() {
    assert_eq!(problem_name_from(&Some("NAME  a b ".to_string())), Ok("a b".to_string()));
    assert_eq!(problem_name_from(&Some("NAME".to_string())), Ok("".to_string()));
    let e = problem_name_from(&Some("NAM".to_string())).unwrap_err();
    assert_eq!(e.kind, ErrorKind::InvalidName);
    assert_eq!(e.subject, "");
    assert_eq!(e.to_string(), "Invalid Sif format: NAME section missing");
    let f = problem_name_from(&Some("name x".to_string())).unwrap_err();
    assert_eq!(f.kind, ErrorKind::InvalidName);
    assert_eq!(problem_name_from(&None).unwrap_err().kind, ErrorKind::MissingName);
}

#[test]
fn sections_are_split_in_the_order_of_the_text() {
    let text = "NAME X\nROWS\n N  obj\n G  r1\nCOLUMNS\n    c1 obj 1\nlower\n  x\nENDATA\n";
    let s = split_sections(text);
    assert_eq!(
        s,
        vec![
            ("ROWS".to_string(), " N  obj\n G  r1\n".to_string()),
            ("COLUMNS".to_string(), "    c1 obj 1\n".to_string()),
        ]
    );
    assert_eq!(split_sections("no sections here"), vec![]);
    let words = split_sections("START POINT\n  a\nRHS'\n  b\nTWO  BLANKS\n  c\nA'B\n  d\n");
    assert_eq!(
        words,
        vec![
            ("START POINT".to_string(), "  a\n".to_string()),
            ("RHS'".to_string(), "  b\n".to_string()),
        ]
    );
}

#[test]
fn sections_from_groups() {
    let both = vec![
        Some("A\n b\n".to_string()),
        Some("A".to_string()),
        Some(" b\n".to_string()),
        Some(" b\n".to_string()),
    ];
    let no_body = vec![Some("A".to_string()), Some("A".to_string()), None];
    let short = vec![Some("A".to_string()), Some("A".to_string())];
    let s = sections_from_matches(&vec![no_body, both, short]);
    assert_eq!(s, vec![("A".to_string(), " b\n".to_string())]);
}

#[test]
fn parser_fixes_the_orientation_once() {
    let p = SifParser::new();
    assert_eq!(p.major(), None);
    assert_eq!(p.width(), None);
    let p = p.feed("ROWS", "  N   obj\n").unwrap();
    assert_eq!(p.major(), Some(Major::Row));
    assert_eq!(p.width(), Some(6));
    assert_eq!(p.records().rows, vec![row("obj", RowType::N)]);
    let p = p.feed("COLUMNS", "      c1 obj 1.0\n").unwrap();
    assert_eq!(p.major(), Some(Major::Row));
    assert_eq!(p.records().cols, vec![col("c1")]);
    assert_eq!(p.records().entries, vec![entry("obj", "c1", "1.0")]);
    let p = p.feed("ROWS", "      c2 obj 2.0\n").unwrap();
    assert_eq!(p.records().rows.len(), 1);
    assert_eq!(p.records().cols, vec![col("c1"), col("c2")]);
    assert_eq!(p.records().entries.len(), 2);
    let p = p.feed("ENDATA", "  anything\n").unwrap();
    let p = p.feed("NAME", "  anything\n").unwrap();
    assert_eq!(p.into_records().entries.len(), 2);
}

#[test]
fn column_major_parser_finds_no_columns() {
    let p = SifParser::new().feed("VARIABLES", "    c1\n").unwrap();
    assert_eq!(p.major(), Some(Major::Column));
    assert_eq!(p.width(), None);
    assert_eq!(p.records(), &Records::new());
    let e = p.feed("GROUPS", "    c1 r1 1.0\n").unwrap_err();
    assert_eq!(e.kind, ErrorKind::WidthUnset);
    assert_eq!(e.subject, "GROUPS");
    assert_eq!(e.to_string(), "Separator not set before parsing section: GROUPS");
}

#[test]
fn every_data_section_is_routed() {
    let p = SifParser::new().feed("CONSTRAINTS", " E  r1\n").unwrap();
    let p = p.feed("VARIABLES", "    c1 r1 1\n").unwrap();
    let p = p.feed("CONSTANTS", "    k r1 1\n").unwrap();
    let p = p.feed("RHS", "    k r1 2\n").unwrap();
    let p = p.feed("RHS'", "    k r1 3\n").unwrap();
    let p = p.feed("BOUNDS", " FX b c1 3\n").unwrap();
    for q in ["QUADRATIC", "HESSIAN", "QUADS", "QUADOBJ", "QSECTION"] {
        let before = p.records().quadratic.len();
        let after = SifParser::new()
            .feed("ROWS", " E  r1\n")
            .unwrap()
            .feed(q, "    c1 c1 1\n")
            .unwrap()
            .into_records()
            .quadratic
            .len();
        assert_eq!(before, 0);
        assert_eq!(after, 1);
    }
    let r = p.into_records();
    assert_eq!(r.rhs.len(), 3);
    assert_eq!(r.bounds.len(), 1);
    assert_eq!(r.entries.len(), 1);
}

#[test]
fn unsupported_sections_are_reported() {
    for s in [
        "RANGES", "START POINT", "ELEMENT TYPE", "ELEMENT USES", "GROUP TYPE", "GROUP USES",
        "OBJECT BOUNDS",
    ] {
        let e = SifParser::new().feed(s, "  x\n").unwrap_err();
        assert_eq!(e.kind, ErrorKind::UnsupportedSection);
        assert_eq!(e.subject, s);
    }
    let e = SifParser::new().feed("RANGES", "").unwrap_err();
    assert_eq!(e.to_string(), "Section is not supported in this version: RANGES");
}

#[test]
fn unknown_section_is_an_error() {
    let e = SifParser::new().feed(" WHAT ", "  x\n").unwrap_err();
    assert_eq!(e.kind, ErrorKind::UnknownIndicator);
    assert_eq!(e.subject, "WHAT");
}

#[test]
fn parser_reads_a_whole_document() {
    let text = "NAME  P \nROWS\n N  obj\n G  r1\nCOLUMNS\n    c1 obj 1.0 r1 2.0\nRHS\n    rhs r1 3\n";
    let p = SifParser::parse(text).unwrap();
    assert_eq!(p.get_name(), "P");
    assert_eq!(p.get_rows().len(), 2);
    assert_eq!(p.get_cols().len(), 1);
    assert_eq!(p.get_entries().len(), 2);
    assert_eq!(p.get_rhs().get(&"r1".to_string()), Some(&num("3")));
    assert_eq!(Ok(p), sif_rs::parse_sif(text));
    let e = SifParser::parse("ROWS\n N  obj\n").unwrap_err();
    assert_eq!(e.kind, ErrorKind::MissingName);
}

#[test]
fn header_line_followed_by_indented_lines_is_read_as_a_section() {
    let e = SifParser::parse("NAME QPTEST\n  note\nROWS\n N  obj\n").unwrap_err();
    assert_eq!(e.kind, ErrorKind::UnknownIndicator);
    assert_eq!(e.subject, "NAME QPTEST");
    let ok = SifParser::parse("NAME          QPTEST\n  note\nROWS\n N  obj\n").unwrap();
    assert_eq!(ok.get_name(), "QPTEST");
}
