use sif_rs::error::{ErrorCategory, ErrorKind};
use sif_rs::number::Number;
use sif_rs::parse_sif;
use sif_rs::types::{BoundType, ColumnType, RowType};

const QPTEST: &str = "NAME          QPTEST
ROWS
 N  obj
 G  r1
 L  r2
COLUMNS
    c1        r1                 2.0   r2                -1.0
    c1        obj                1.5
    c2        r1                 1.0   r2                 2.0
    c2        obj               -2.0
RHS
    rhs1      r1                 2.0   r2                 6.0
BOUNDS
 UP bnd1      c1                20.0
QUADOBJ
    c1        c1                 8.0
    c1        c2                 2.0
    c2        c2                10.0
ENDATA
";

fn value(n: Option<&Number>) -> Option<f64> {
    n.map(|n| n.as_str().parse::<f64>().unwrap())
}

fn pair(a: &str, b: &str) -> (String, String) {
    (a.to_string(), b.to_string())
}

#[test]
fn test_qptest() {
    let sif = parse_sif(QPTEST).unwrap();

    assert_eq!(sif.get_name(), "QPTEST");
    assert_eq!(sif.get_rows().len(), 3);
    assert_eq!(sif.get_cols().len(), 2);
    assert_eq!(sif.get_entries().len(), 6);
    assert_eq!(sif.get_rhs().len(), 2);
    assert_eq!(sif.get_bounds().len(), 1);
    assert_eq!(sif.get_quadratic().len(), 3);

    assert_eq!(sif.get_cols().get(&"c1".to_string()), Some(&ColumnType::__));
    assert_eq!(sif.get_cols().get(&"c2".to_string()), Some(&ColumnType::__));

    assert_eq!(sif.get_rows().get(&"obj".to_string()), Some(&RowType::N));
    assert_eq!(sif.get_rows().get(&"r1".to_string()), Some(&RowType::G));
    assert_eq!(sif.get_rows().get(&"r2".to_string()), Some(&RowType::L));

    assert_eq!(value(sif.get_entries().get(&pair("obj", "c1"))), Some(1.5));
    assert_eq!(value(sif.get_entries().get(&pair("r1", "c1"))), Some(2.0));
    assert_eq!(value(sif.get_entries().get(&pair("r2", "c1"))), Some(-1.0));
    assert_eq!(value(sif.get_entries().get(&pair("obj", "c2"))), Some(-2.0));
    assert_eq!(value(sif.get_entries().get(&pair("r1", "c2"))), Some(1.0));
    assert_eq!(value(sif.get_entries().get(&pair("r2", "c2"))), Some(2.0));

    assert_eq!(value(sif.get_rhs().get(&"r1".to_string())), Some(2.0));
    assert_eq!(value(sif.get_rhs().get(&"r2".to_string())), Some(6.0));

    let bound = sif.get_bounds().get(&"c1".to_string()).unwrap();
    assert_eq!(bound.0, BoundType::Up);
    assert_eq!(bound.1.as_str().parse::<f64>().unwrap(), 20.0);

    assert_eq!(value(sif.get_quadratic().get(&pair("c1", "c1"))), Some(8.0));
    assert_eq!(value(sif.get_quadratic().get(&pair("c1", "c2"))), Some(2.0));
    assert_eq!(value(sif.get_quadratic().get(&pair("c2", "c2"))), Some(10.0));
}

#[test]
fn name_is_the_trimmed_header() {
    let sif = parse_sif("NAME \t  My Problem  \t \nROWS\n N  obj\n").unwrap();
    assert_eq!(sif.get_name(), "My Problem");
}

#[test]
fn missing_name_is_a_structural_error() {
    let e = parse_sif("ROWS\n N  obj\n").unwrap_err();
    assert_eq!(e.kind, ErrorKind::MissingName);
    assert_eq!(e.category(), ErrorCategory::Structure);
    assert_eq!(e.to_string(), "Failed to find NAME line in input");
}

#[test]
fn parsing_twice_gives_equal_problems() {
    let a = parse_sif(QPTEST).unwrap();
    let b = parse_sif(QPTEST).unwrap();
    assert_eq!(a, b);
}

#[test]
fn unknown_indicator_is_named() {
    let e = parse_sif("NAME X\nROWS\n N  obj\nFOO\n    a b 1.0\n").unwrap_err();
    assert_eq!(e.kind, ErrorKind::UnknownIndicator);
    assert_eq!(e.category(), ErrorCategory::UnknownVocabulary);
    assert_eq!(e.subject, "FOO");
    assert_eq!(e.to_string(), "Unknown indicator: FOO");
}

#[test]
fn ranges_section_is_unsupported() {
    let e = parse_sif("NAME X\nROWS\n N  obj\nRANGES\n    rng obj 1.0\n").unwrap_err();
    assert_eq!(e.kind, ErrorKind::UnsupportedSection);
    assert_eq!(e.category(), ErrorCategory::UnsupportedSection);
    assert_eq!(e.subject, "RANGES");
}

#[test]
fn entry_with_undefined_row_is_named() {
    let e = parse_sif("NAME X\nROWS\n N  obj\nCOLUMNS\n    c1 r9 1.0\n").unwrap_err();
    assert_eq!(e.kind, ErrorKind::EntryUndefinedRow);
    assert_eq!(e.category(), ErrorCategory::ReferentialIntegrity);
    assert_eq!(e.subject, "r9");
}

#[test]
fn bound_with_undefined_column_is_named() {
    let text = "NAME X\nROWS\n N  obj\nCOLUMNS\n    c1 obj 1.0\nBOUNDS\n UP b c7 4.0\n";
    let e = parse_sif(text).unwrap_err();
    assert_eq!(e.kind, ErrorKind::BoundUndefinedColumn);
    assert_eq!(e.category(), ErrorCategory::ReferentialIntegrity);
    assert_eq!(e.subject, "c7");
}

#[test]
fn quadratic_with_undefined_column_is_named() {
    let text = "NAME X\nROWS\n N  obj\nCOLUMNS\n    c1 obj 1.0\nQUADRATIC\n    c1 c8 4.0\n";
    let e = parse_sif(text).unwrap_err();
    assert_eq!(e.kind, ErrorKind::QuadraticUndefinedColumn);
    assert_eq!(e.subject, "c8");
}

#[test]
fn rhs_with_undefined_row_is_named() {
    let text = "NAME X\nROWS\n N  obj\nRHS\n    rhs r5 4.0\n";
    let e = parse_sif(text).unwrap_err();
    assert_eq!(e.kind, ErrorKind::RhsUndefinedRow);
    assert_eq!(e.subject, "r5");
}

#[test]
fn duplicate_row_is_rejected() {
    let e = parse_sif("NAME X\nROWS\n N  obj\n G  r1\n L  r1\n").unwrap_err();
    assert_eq!(e.kind, ErrorKind::DuplicateRow);
    assert_eq!(e.category(), ErrorCategory::ReferentialIntegrity);
    assert_eq!(e.subject, "r1");
}

#[test]
fn later_section_overwrites_the_coefficient() {
    let text = "NAME X\nROWS\n N  obj\nCOLUMNS\n    c1 obj 1.0\nCOLUMNS\n    c1 obj 2.0\n";
    let sif = parse_sif(text).unwrap();
    assert_eq!(sif.get_cols().len(), 1);
    assert_eq!(sif.get_entries().len(), 1);
    assert_eq!(value(sif.get_entries().get(&pair("obj", "c1"))), Some(2.0));
}

#[test]
fn later_entry_overwrites_the_coefficient() {
    let text = "NAME X\nROWS\n N  obj\nCOLUMNS\n    c1 obj 1.0\n    c1 obj 3.5\n";
    let sif = parse_sif(text).unwrap();
    assert_eq!(sif.get_entries().len(), 1);
    assert_eq!(value(sif.get_entries().get(&pair("obj", "c1"))), Some(3.5));
}

#[test]
fn entries_of_two_sections_are_kept() {
    let text = "NAME X\nROWS\n N  obj\nCOLUMNS\n    c1 obj 1.0\nCOLUMNS\n    c2 obj 2.0\n";
    let sif = parse_sif(text).unwrap();
    assert_eq!(sif.get_cols().len(), 2);
    assert_eq!(sif.get_entries().len(), 2);
    assert_eq!(value(sif.get_entries().get(&pair("obj", "c1"))), Some(1.0));
    assert_eq!(value(sif.get_entries().get(&pair("obj", "c2"))), Some(2.0));
}

#[test]
fn zero_second_coefficient_is_suppressed() {
    let text = "NAME X\nROWS\n N  obj\n G  r1\nCOLUMNS\n    c1 obj 1.0 r1 0.0\nRHS\n    rhs obj 1.0 r1 0.0\n";
    let sif = parse_sif(text).unwrap();
    assert_eq!(sif.get_entries().len(), 1);
    assert_eq!(sif.get_entries().get(&pair("r1", "c1")), None);
    assert_eq!(sif.get_rhs().len(), 1);
    assert_eq!(sif.get_rhs().get(&"r1".to_string()), None);
}

#[test]
fn zero_first_coefficient_is_kept() {
    let text = "NAME X\nROWS\n N  obj\nCOLUMNS\n    c1 obj 0.0\n";
    let sif = parse_sif(text).unwrap();
    assert_eq!(value(sif.get_entries().get(&pair("obj", "c1"))), Some(0.0));
}

#[test]
fn malformed_number_names_the_field() {
    let e = parse_sif("NAME X\nROWS\n N  obj\nCOLUMNS\n    c1 obj 1.0 obj 1x\n").unwrap_err();
    assert_eq!(e.kind, ErrorKind::MalformedField(5));
    assert_eq!(e.category(), ErrorCategory::MalformedField);
    assert_eq!(e.subject, "1x");
    assert_eq!(e.to_string(), "Failed to parse field 5: 1x");
}

#[test]
fn unknown_row_type_is_named() {
    let e = parse_sif("NAME X\nROWS\n N  obj\n Q  r1\n").unwrap_err();
    assert_eq!(e.kind, ErrorKind::UnknownRowType);
    assert_eq!(e.subject, "Q");
}

#[test]
fn unknown_bound_type_is_named() {
    let text = "NAME X\nROWS\n N  obj\nCOLUMNS\n    c1 obj 1.0\nBOUNDS\n ZZ b c1 4.0\n";
    let e = parse_sif(text).unwrap_err();
    assert_eq!(e.kind, ErrorKind::UnknownBoundType);
    assert_eq!(e.subject, "ZZ");
}

#[test]
fn row_section_without_type_code_fails() {
    let e = parse_sif("NAME X\nROWS\n    obj\n").unwrap_err();
    assert_eq!(e.kind, ErrorKind::NoRowWidth);
    assert_eq!(e.category(), ErrorCategory::Structure);
    assert_eq!(e.subject, "    obj");
}

#[test]
fn short_line_fails() {
    let e = parse_sif("NAME X\nROWS\n   N   obj\n G\n").unwrap_err();
    assert_eq!(e.kind, ErrorKind::ShortLine);
    assert_eq!(e.subject, " G");
}

#[test]
fn data_section_before_rows_fails() {
    let e = parse_sif("NAME X\nRHS\n    rhs r1 1.0\n").unwrap_err();
    assert_eq!(e.kind, ErrorKind::WidthUnset);
    assert_eq!(e.subject, "RHS");
}

#[test]
fn first_column_section_only_fixes_the_orientation() {
    let sif = parse_sif("NAME X\nCOLUMNS\n    c1 r1 1.0\n").unwrap();
    assert_eq!(sif.get_rows().len(), 0);
    assert_eq!(sif.get_cols().len(), 0);
    assert_eq!(sif.get_entries().len(), 0);
}

#[test]
fn entries_without_a_row_section_have_no_row_width() {
    let e = parse_sif("NAME X\nCOLUMNS\n    c1 r1 1.0\nCOLUMNS\n    c1 r1 1.0\n").unwrap_err();
    assert_eq!(e.kind, ErrorKind::WidthUnset);
    assert_eq!(e.subject, "COLUMNS");
}

#[test]
fn indicator_without_body_is_no_section() {
    let sif = parse_sif("NAME X\nFOO\nROWS\n N  obj\nENDATA\n").unwrap();
    assert_eq!(sif.get_rows().len(), 1);
}

#[test]
fn rows_are_walked_in_the_order_of_their_names() {
    let sif = parse_sif("NAME X\nROWS\n N  zeta\n G  alpha\n L  mid\n").unwrap();
    let rows = sif.get_rows();
    assert_eq!(rows.entry(0).0, "alpha");
    assert_eq!(rows.entry(1).0, "mid");
    assert_eq!(rows.entry(2).0, "zeta");
    assert_eq!(rows.entry(0).1, &RowType::G);
}

#[test]
fn large_document() {
    let rows = 400;
    let cols = 150;
    let mut text = String::from("NAME BIG\nROWS\n N  obj\n");
    for r in 0..rows {
        text.push_str(&format!(" G  r{}\n", r));
    }
    text.push_str("COLUMNS\n");
    for c in 0..cols {
        for r in (0..rows).step_by(2) {
            text.push_str(&format!(
                "    x{}        r{}   {}.5   r{}   -{}.25\n",
                c,
                r,
                r + c,
                r + 1,
                c + 1
            ));
        }
    }
    text.push_str("QUADOBJ\n");
    for c in 0..cols {
        for d in 0..cols {
            text.push_str(&format!("    x{} x{} {}\n", c, d, c * d + 1));
        }
    }
    text.push_str("ENDATA\n");
    let sif = parse_sif(&text).unwrap();
    assert_eq!(sif.get_name(), "BIG");
    assert_eq!(sif.get_rows().len(), rows + 1);
    assert_eq!(sif.get_cols().len(), cols);
    assert_eq!(sif.get_entries().len(), rows * cols);
    assert_eq!(sif.get_quadratic().len(), cols * cols);
    assert_eq!(value(sif.get_entries().get(&pair("r7", "x3"))), Some(-4.25));
    assert_eq!(value(sif.get_entries().get(&pair("r6", "x3"))), Some(9.5));
    assert_eq!(value(sif.get_quadratic().get(&pair("x10", "x20"))), Some(201.0));
}

#[test]
fn header_without_a_value_on_its_line_is_no_header() {
    let e = parse_sif("NAME\nROWS\n N  obj\n").unwrap_err();
    assert_eq!(e.kind, ErrorKind::MissingName);
    let f = parse_sif("NAME\n   QPTEST\nROWS\n N  obj\n").unwrap_err();
    assert_eq!(f.kind, ErrorKind::MissingName);
}

#[test]
fn header_takes_its_value_from_its_own_line() {
    let sif = parse_sif("NAME  \t \nROWS\n N  obj\n").unwrap();
    assert_eq!(sif.get_name(), "");
    assert_eq!(sif.get_rows().len(), 1);
    let two = parse_sif("NAME\tFIRST\nNAME SECOND\nROWS\n N  obj\n").unwrap();
    assert_eq!(two.get_name(), "FIRST");
}

#[test]
fn sections_of_two_words_are_reported_as_unsupported() {
    for s in [
        "START POINT", "ELEMENT TYPE", "ELEMENT USES", "GROUP TYPE", "GROUP USES",
        "OBJECT BOUNDS",
    ] {
        let text = format!("NAME X\nROWS\n N  obj\n{}\n    x 1.0\n", s);
        let e = parse_sif(&text).unwrap_err();
        assert_eq!(e.kind, ErrorKind::UnsupportedSection, "section {:?}", s);
        assert_eq!(e.category(), ErrorCategory::UnsupportedSection);
        assert_eq!(e.subject, s);
    }
}

#[test]
fn right_hand_sides_with_an_apostrophe_are_read() {
    let text = "NAME X\nROWS\n N  obj\n G  r1\nRHS'\n    rhs r1 4.0\n";
    let sif = parse_sif(text).unwrap();
    assert_eq!(sif.get_rhs().len(), 1);
    assert_eq!(value(sif.get_rhs().get(&"r1".to_string())), Some(4.0));
}

#[test]
fn indicator_of_unknown_words_is_an_error() {
    let e = parse_sif("NAME X\nROWS\n N  obj\nNO SUCH\n    x 1.0\n").unwrap_err();
    assert_eq!(e.kind, ErrorKind::UnknownIndicator);
    assert_eq!(e.subject, "NO SUCH");
}
