use sif_rs::error::ErrorKind;
use sif_rs::types::{BoundType, ColumnType, Indicator, RowType};

#[test]
fn row_types_round_trip() {
    for k in [RowType::N, RowType::G, RowType::L, RowType::E] {
        assert_eq!(RowType::from_str(&k.to_string()), Ok(k));
    }
    assert_eq!(RowType::N.to_string(), "N");
    assert_eq!(RowType::from_str("  G "), Ok(RowType::G));
}

#[test]
fn unknown_row_type() {
    let e = RowType::from_str(" XN ").unwrap_err();
    assert_eq!(e.kind, ErrorKind::UnknownRowType);
    assert_eq!(e.subject, "XN");
    assert_eq!(e.to_string(), "Unknown row type: XN");
    assert!(RowType::from_str("").is_err());
    assert!(RowType::from_str("n").is_err());
}

#[test]
fn bound_types_round_trip() {
    let all = [
        BoundType::Lo, BoundType::Up, BoundType::Fx, BoundType::Fr, BoundType::Mi, BoundType::Pl,
    ];
    for k in all {
        assert_eq!(BoundType::from_str(&k.to_string()), Ok(k));
    }
    assert_eq!(BoundType::Mi.to_string(), "MI");
    assert_eq!(BoundType::from_str(" UP "), Ok(BoundType::Up));
}

#[test]
fn unknown_bound_type() {
    let e = BoundType::from_str("BV").unwrap_err();
    assert_eq!(e.kind, ErrorKind::UnknownBoundType);
    assert_eq!(e.subject, "BV");
    assert_eq!(e.to_string(), "Unknown bound type: BV");
}

#[test]
fn column_types_round_trip() {
    for k in [ColumnType::__, ColumnType::X, ColumnType::Z] {
        assert_eq!(ColumnType::from_str(&k.to_string()), Ok(k));
    }
    assert_eq!(ColumnType::__.to_string(), " ");
    assert_eq!(ColumnType::X.to_string(), "X");
    assert_eq!(ColumnType::Z.to_string(), "Z");
    assert_eq!(ColumnType::from_str(" Z "), Ok(ColumnType::Z));
}

#[test]
fn blank_column_marker_is_the_continuous_kind() {
    assert_eq!(ColumnType::from_str(" "), Ok(ColumnType::__));
    assert_eq!(ColumnType::from_str(""), Ok(ColumnType::__));
    assert_eq!(ColumnType::from_str(" \t "), Ok(ColumnType::__));
}

#[test]
fn unknown_column_type() {
    let e = ColumnType::from_str(" Y ").unwrap_err();
    assert_eq!(e.kind, ErrorKind::UnknownColumnType);
    assert_eq!(e.subject, "Y");
    assert_eq!(e.to_string(), "Unknown column type: Y");
    assert!(ColumnType::from_str("x").is_err());
    assert!(ColumnType::from_str("XZ").is_err());
}

#[test]
fn indicators_round_trip() {
    let all = [
        Indicator::Name, Indicator::Groups, Indicator::Rows, Indicator::Constraints,
        Indicator::Variables, Indicator::Columns, Indicator::Constants, Indicator::Rhs,
        Indicator::RhsPrime, Indicator::Ranges, Indicator::Bounds, Indicator::StartPoint,
        Indicator::Quadratic, Indicator::Hessian, Indicator::Quads, Indicator::QuadObjective,
        Indicator::QSection, Indicator::ElementType, Indicator::ElementUses,
        Indicator::GroupType, Indicator::GroupUses, Indicator::ObjectBounds, Indicator::Endata,
    ];
    for k in all {
        assert_eq!(Indicator::from_str(&k.to_string()), Ok(k));
    }
    assert_eq!(Indicator::RhsPrime.to_string(), "RHS'");
    assert_eq!(Indicator::StartPoint.to_string(), "START POINT");
    assert_eq!(Indicator::from_str(" OBJECT BOUNDS\n"), Ok(Indicator::ObjectBounds));
}

#[test]
fn unknown_indicator() {
    let e = Indicator::from_str("STARTPOINT").unwrap_err();
    assert_eq!(e.kind, ErrorKind::UnknownIndicator);
    assert_eq!(e.subject, "STARTPOINT");
    assert_eq!(e.to_string(), "Unknown indicator: STARTPOINT");
}
