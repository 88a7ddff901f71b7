//! The closed vocabularies of the format: row, column and bound kinds, and
//! section indicators, each with its code and the way back from the code.

use vstd::prelude::*;
use vstd::string::*;
use crate::error::{failure, ErrorKind, ParseError};
use crate::text::{same_text, trim, trim_of};

verus! {

/// Which of the two names of a data line comes from the section that was
/// defined first.
#[derive(Debug, Copy, Clone, PartialEq, Eq, Structural)]
pub enum Major {
    /// A row section came before any column section.
    Row,
    /// A column section came before any row section.
    Column,
}

/// The kind of a row (constraint).
#[derive(Debug, Copy, Clone, PartialEq, Eq, Structural)]
pub enum RowType {
    /// Free row (no constraint); usually the objective function.
    N,
    /// Greater-than-or-equal constraint.
    G,
    /// Less-than-or-equal constraint.
    L,
    /// Equality constraint.
    E,
}

impl RowType {
    /// The code of the kind.
    pub open spec fn code_of(self) -> Seq<char> {
        match self {
            RowType::N => "N"@,
            RowType::G => "G"@,
            RowType::L => "L"@,
            RowType::E => "E"@,
        }
    }

    /// The kind that `code` stands for.
    pub open spec fn parse_of(code: Seq<char>) -> Option<RowType> {
        if code == "N"@ {
            Some(RowType::N)
        } else if code == "G"@ {
            Some(RowType::G)
        } else if code == "L"@ {
            Some(RowType::L)
        } else if code == "E"@ {
            Some(RowType::E)
        } else {
            None
        }
    }

    /// Reads a row kind from its code; white space around the code is
    /// ignored.
    pub fn from_str(s: &str) -> (r: Result<RowType, ParseError>)
        ensures
            match r {
                Ok(k) => RowType::parse_of(trim_of(s@)) == Some(k),
                Err(e) => RowType::parse_of(trim_of(s@)) is None && e@ == failure(
                    ErrorKind::UnknownRowType,
                    trim_of(s@),
                ),
            },
    {
        let t = trim(s);
        if same_text(t.as_str(), "N") {
            Ok(RowType::N)
        } else if same_text(t.as_str(), "G") {
            Ok(RowType::G)
        } else if same_text(t.as_str(), "L") {
            Ok(RowType::L)
        } else if same_text(t.as_str(), "E") {
            Ok(RowType::E)
        } else {
            Err(ParseError::new(ErrorKind::UnknownRowType, t.as_str()))
        }
    }

    /// The code of the kind.
    pub fn to_string(&self) -> (s: String)
        ensures
            s@ == self.code_of(),
    {
        match self {
            RowType::N => "N".to_owned(),
            RowType::G => "G".to_owned(),
            RowType::L => "L".to_owned(),
            RowType::E => "E".to_owned(),
        }
    }
}

/// The kind of a column (variable).
#[derive(Debug, Copy, Clone, PartialEq, Eq, Structural)]
pub enum ColumnType {
    /// Continuous variable (blank marker).
    __,
    /// Integer variable.
    X,
    /// Binary variable.
    Z,
}

impl ColumnType {
    /// The marker of the kind.
    pub open spec fn code_of(self) -> Seq<char> {
        match self {
            ColumnType::__ => " "@,
            ColumnType::X => "X"@,
            ColumnType::Z => "Z"@,
        }
    }

    /// The kind that `code` stands for, `code` being a marker without the
    /// white space around it. The marker of the continuous kind is a blank,
    /// so without white space it is the empty text.
    pub open spec fn parse_of(code: Seq<char>) -> Option<ColumnType> {
        if code.len() == 0 {
            Some(ColumnType::__)
        } else if code == "X"@ {
            Some(ColumnType::X)
        } else if code == "Z"@ {
            Some(ColumnType::Z)
        } else {
            None
        }
    }

    /// Reads a column kind from its marker; white space around the marker is
    /// ignored. A text of white space only, or an empty one, is the blank
    /// marker of the continuous kind, so each kind is read back from its
    /// marker.
    pub fn from_str(s: &str) -> (r: Result<ColumnType, ParseError>)
        ensures
            match r {
                Ok(k) => ColumnType::parse_of(trim_of(s@)) == Some(k),
                Err(e) => ColumnType::parse_of(trim_of(s@)) is None && e@ == failure(
                    ErrorKind::UnknownColumnType,
                    trim_of(s@),
                ),
            },
    {
        let t = trim(s);
        if t.as_str().is_empty() {
            Ok(ColumnType::__)
        } else if same_text(t.as_str(), "X") {
            Ok(ColumnType::X)
        } else if same_text(t.as_str(), "Z") {
            Ok(ColumnType::Z)
        } else {
            Err(ParseError::new(ErrorKind::UnknownColumnType, t.as_str()))
        }
    }

    /// The marker of the kind.
    pub fn to_string(&self) -> (s: String)
        ensures
            s@ == self.code_of(),
    {
        match self {
            ColumnType::__ => " ".to_owned(),
            ColumnType::X => "X".to_owned(),
            ColumnType::Z => "Z".to_owned(),
        }
    }
}

/// The kind of a bound on a column.
#[derive(Debug, Copy, Clone, PartialEq, Eq, Structural)]
pub enum BoundType {
    /// Explicit lower bound.
    Lo,
    /// Explicit upper bound.
    Up,
    /// Fixed value: lower bound equals upper bound.
    Fx,
    /// Free variable: no lower or upper bound.
    Fr,
    /// Lower bound of minus infinity; upper bound unchanged.
    Mi,
    /// Upper bound of plus infinity (the default); lower bound unchanged.
    Pl,
}

impl BoundType {
    /// The code of the kind.
    pub open spec fn code_of(self) -> Seq<char> {
        match self {
            BoundType::Lo => "LO"@,
            BoundType::Up => "UP"@,
            BoundType::Fx => "FX"@,
            BoundType::Fr => "FR"@,
            BoundType::Mi => "MI"@,
            BoundType::Pl => "PL"@,
        }
    }

    /// The kind that `code` stands for.
    pub open spec fn parse_of(code: Seq<char>) -> Option<BoundType> {
        if code == "LO"@ {
            Some(BoundType::Lo)
        } else if code == "UP"@ {
            Some(BoundType::Up)
        } else if code == "FX"@ {
            Some(BoundType::Fx)
        } else if code == "FR"@ {
            Some(BoundType::Fr)
        } else if code == "MI"@ {
            Some(BoundType::Mi)
        } else if code == "PL"@ {
            Some(BoundType::Pl)
        } else {
            None
        }
    }

    /// Reads a bound kind from its code; white space around the code is
    /// ignored.
    pub fn from_str(s: &str) -> (r: Result<BoundType, ParseError>)
        ensures
            match r {
                Ok(k) => BoundType::parse_of(trim_of(s@)) == Some(k),
                Err(e) => BoundType::parse_of(trim_of(s@)) is None && e@ == failure(
                    ErrorKind::UnknownBoundType,
                    trim_of(s@),
                ),
            },
    {
        let t = trim(s);
        if same_text(t.as_str(), "LO") {
            Ok(BoundType::Lo)
        } else if same_text(t.as_str(), "UP") {
            Ok(BoundType::Up)
        } else if same_text(t.as_str(), "FX") {
            Ok(BoundType::Fx)
        } else if same_text(t.as_str(), "FR") {
            Ok(BoundType::Fr)
        } else if same_text(t.as_str(), "MI") {
            Ok(BoundType::Mi)
        } else if same_text(t.as_str(), "PL") {
            Ok(BoundType::Pl)
        } else {
            Err(ParseError::new(ErrorKind::UnknownBoundType, t.as_str()))
        }
    }

    /// The code of the kind.
    pub fn to_string(&self) -> (s: String)
        ensures
            s@ == self.code_of(),
    {
        match self {
            BoundType::Lo => "LO".to_owned(),
            BoundType::Up => "UP".to_owned(),
            BoundType::Fx => "FX".to_owned(),
            BoundType::Fr => "FR".to_owned(),
            BoundType::Mi => "MI".to_owned(),
            BoundType::Pl => "PL".to_owned(),
        }
    }
}

/// A section indicator: the keyword that opens a section.
#[derive(Debug, Copy, Clone, PartialEq, Eq, Structural)]
pub enum Indicator {
    /// `NAME`: problem name header.
    Name,
    /// `GROUPS`: group definitions.
    Groups,
    /// `ROWS`: row (constraint) definitions.
    Rows,
    /// `CONSTRAINTS`: alias for `ROWS`.
    Constraints,
    /// `VARIABLES`: alias for `COLUMNS`.
    Variables,
    /// `COLUMNS`: column definitions and coefficient entries.
    Columns,
    /// `CONSTANTS`: alias for `RHS`.
    Constants,
    /// `RHS`: right-hand side values.
    Rhs,
    /// `RHS'`: right-hand side, alternative notation.
    RhsPrime,
    /// `RANGES`: range values of constraints.
    Ranges,
    /// `BOUNDS`: bounds on columns.
    Bounds,
    /// `START POINT`: initial values of the columns.
    StartPoint,
    /// `QUADRATIC`: quadratic objective coefficients.
    Quadratic,
    /// `HESSIAN`: alias for `QUADRATIC`.
    Hessian,
    /// `QUADS`: alias for `QUADRATIC`.
    Quads,
    /// `QUADOBJ`: alias for `QUADRATIC`.
    QuadObjective,
    /// `QSECTION`: alias for `QUADRATIC`.
    QSection,
    /// `ELEMENT TYPE`: nonlinear element types.
    ElementType,
    /// `ELEMENT USES`: nonlinear element instances.
    ElementUses,
    /// `GROUP TYPE`: nonlinear group types.
    GroupType,
    /// `GROUP USES`: nonlinear group instances.
    GroupUses,
    /// `OBJECT BOUNDS`: known bounds on the objective value.
    ObjectBounds,
    /// `ENDATA`: end of the document.
    Endata,
}

impl Indicator {
    /// The keyword of the indicator.
    pub open spec fn code_of(self) -> Seq<char> {
        match self {
            Indicator::Name => "NAME"@,
            Indicator::Groups => "GROUPS"@,
            Indicator::Rows => "ROWS"@,
            Indicator::Constraints => "CONSTRAINTS"@,
            Indicator::Variables => "VARIABLES"@,
            Indicator::Columns => "COLUMNS"@,
            Indicator::Constants => "CONSTANTS"@,
            Indicator::Rhs => "RHS"@,
            Indicator::RhsPrime => "RHS'"@,
            Indicator::Ranges => "RANGES"@,
            Indicator::Bounds => "BOUNDS"@,
            Indicator::StartPoint => "START POINT"@,
            Indicator::Quadratic => "QUADRATIC"@,
            Indicator::Hessian => "HESSIAN"@,
            Indicator::Quads => "QUADS"@,
            Indicator::QuadObjective => "QUADOBJ"@,
            Indicator::QSection => "QSECTION"@,
            Indicator::ElementType => "ELEMENT TYPE"@,
            Indicator::ElementUses => "ELEMENT USES"@,
            Indicator::GroupType => "GROUP TYPE"@,
            Indicator::GroupUses => "GROUP USES"@,
            Indicator::ObjectBounds => "OBJECT BOUNDS"@,
            Indicator::Endata => "ENDATA"@,
        }
    }

    /// The indicator that `code` stands for.
    pub open spec fn parse_of(code: Seq<char>) -> Option<Indicator> {
        if code == "NAME"@ {
            Some(Indicator::Name)
        } else if code == "GROUPS"@ {
            Some(Indicator::Groups)
        } else if code == "ROWS"@ {
            Some(Indicator::Rows)
        } else if code == "CONSTRAINTS"@ {
            Some(Indicator::Constraints)
        } else if code == "VARIABLES"@ {
            Some(Indicator::Variables)
        } else if code == "COLUMNS"@ {
            Some(Indicator::Columns)
        } else if code == "CONSTANTS"@ {
            Some(Indicator::Constants)
        } else if code == "RHS"@ {
            Some(Indicator::Rhs)
        } else if code == "RHS'"@ {
            Some(Indicator::RhsPrime)
        } else if code == "RANGES"@ {
            Some(Indicator::Ranges)
        } else if code == "BOUNDS"@ {
            Some(Indicator::Bounds)
        } else if code == "START POINT"@ {
            Some(Indicator::StartPoint)
        } else if code == "QUADRATIC"@ {
            Some(Indicator::Quadratic)
        } else if code == "HESSIAN"@ {
            Some(Indicator::Hessian)
        } else if code == "QUADS"@ {
            Some(Indicator::Quads)
        } else if code == "QUADOBJ"@ {
            Some(Indicator::QuadObjective)
        } else if code == "QSECTION"@ {
            Some(Indicator::QSection)
        } else if code == "ELEMENT TYPE"@ {
            Some(Indicator::ElementType)
        } else if code == "ELEMENT USES"@ {
            Some(Indicator::ElementUses)
        } else if code == "GROUP TYPE"@ {
            Some(Indicator::GroupType)
        } else if code == "GROUP USES"@ {
            Some(Indicator::GroupUses)
        } else if code == "OBJECT BOUNDS"@ {
            Some(Indicator::ObjectBounds)
        } else if code == "ENDATA"@ {
            Some(Indicator::Endata)
        } else {
            None
        }
    }

    /// Reads an indicator from its keyword; white space around the keyword
    /// is ignored.
    pub fn from_str(s: &str) -> (r: Result<Indicator, ParseError>)
        ensures
            match r {
                Ok(k) => Indicator::parse_of(trim_of(s@)) == Some(k),
                Err(e) => Indicator::parse_of(trim_of(s@)) is None && e@ == failure(
                    ErrorKind::UnknownIndicator,
                    trim_of(s@),
                ),
            },
    {
        let t = trim(s);
        if same_text(t.as_str(), "NAME") {
            Ok(Indicator::Name)
        } else if same_text(t.as_str(), "GROUPS") {
            Ok(Indicator::Groups)
        } else if same_text(t.as_str(), "ROWS") {
            Ok(Indicator::Rows)
        } else if same_text(t.as_str(), "CONSTRAINTS") {
            Ok(Indicator::Constraints)
        } else if same_text(t.as_str(), "VARIABLES") {
            Ok(Indicator::Variables)
        } else if same_text(t.as_str(), "COLUMNS") {
            Ok(Indicator::Columns)
        } else if same_text(t.as_str(), "CONSTANTS") {
            Ok(Indicator::Constants)
        } else if same_text(t.as_str(), "RHS") {
            Ok(Indicator::Rhs)
        } else if same_text(t.as_str(), "RHS'") {
            Ok(Indicator::RhsPrime)
        } else if same_text(t.as_str(), "RANGES") {
            Ok(Indicator::Ranges)
        } else if same_text(t.as_str(), "BOUNDS") {
            Ok(Indicator::Bounds)
        } else if same_text(t.as_str(), "START POINT") {
            Ok(Indicator::StartPoint)
        } else if same_text(t.as_str(), "QUADRATIC") {
            Ok(Indicator::Quadratic)
        } else if same_text(t.as_str(), "HESSIAN") {
            Ok(Indicator::Hessian)
        } else if same_text(t.as_str(), "QUADS") {
            Ok(Indicator::Quads)
        } else if same_text(t.as_str(), "QUADOBJ") {
            Ok(Indicator::QuadObjective)
        } else if same_text(t.as_str(), "QSECTION") {
            Ok(Indicator::QSection)
        } else if same_text(t.as_str(), "ELEMENT TYPE") {
            Ok(Indicator::ElementType)
        } else if same_text(t.as_str(), "ELEMENT USES") {
            Ok(Indicator::ElementUses)
        } else if same_text(t.as_str(), "GROUP TYPE") {
            Ok(Indicator::GroupType)
        } else if same_text(t.as_str(), "GROUP USES") {
            Ok(Indicator::GroupUses)
        } else if same_text(t.as_str(), "OBJECT BOUNDS") {
            Ok(Indicator::ObjectBounds)
        } else if same_text(t.as_str(), "ENDATA") {
            Ok(Indicator::Endata)
        } else {
            Err(ParseError::new(ErrorKind::UnknownIndicator, t.as_str()))
        }
    }

    /// The keyword of the indicator.
    pub fn to_string(&self) -> (s: String)
        ensures
            s@ == self.code_of(),
    {
        match self {
            Indicator::Name => "NAME".to_owned(),
            Indicator::Groups => "GROUPS".to_owned(),
            Indicator::Rows => "ROWS".to_owned(),
            Indicator::Constraints => "CONSTRAINTS".to_owned(),
            Indicator::Variables => "VARIABLES".to_owned(),
            Indicator::Columns => "COLUMNS".to_owned(),
            Indicator::Constants => "CONSTANTS".to_owned(),
            Indicator::Rhs => "RHS".to_owned(),
            Indicator::RhsPrime => "RHS'".to_owned(),
            Indicator::Ranges => "RANGES".to_owned(),
            Indicator::Bounds => "BOUNDS".to_owned(),
            Indicator::StartPoint => "START POINT".to_owned(),
            Indicator::Quadratic => "QUADRATIC".to_owned(),
            Indicator::Hessian => "HESSIAN".to_owned(),
            Indicator::Quads => "QUADS".to_owned(),
            Indicator::QuadObjective => "QUADOBJ".to_owned(),
            Indicator::QSection => "QSECTION".to_owned(),
            Indicator::ElementType => "ELEMENT TYPE".to_owned(),
            Indicator::ElementUses => "ELEMENT USES".to_owned(),
            Indicator::GroupType => "GROUP TYPE".to_owned(),
            Indicator::GroupUses => "GROUP USES".to_owned(),
            Indicator::ObjectBounds => "OBJECT BOUNDS".to_owned(),
            Indicator::Endata => "ENDATA".to_owned(),
        }
    }
}

} // verus!

verus! {

impl View for RowType {
    type V = RowType;

    open spec fn view(&self) -> RowType {
        *self
    }
}

impl View for ColumnType {
    type V = ColumnType;

    open spec fn view(&self) -> ColumnType {
        *self
    }
}

impl View for BoundType {
    type V = BoundType;

    open spec fn view(&self) -> BoundType {
        *self
    }
}

} // verus!
