//! The closed set of element kinds a column can carry, and the runtime cell
//! values the engine works on.

use vstd::prelude::*;
use vstd::string::StringExecFns;

verus! {

/// The runtime primitive type tag of a column's values.
///
/// The set is closed: every kind the engine supports is listed here, and
/// anything else is carried as `Unsupported` with the foreign kind's name,
/// so that a run over such a column can fail with a descriptive error.
#[derive(Debug, Clone)]
pub enum ElementKind {
    Boolean,
    Int8,
    Int16,
    Int32,
    Int64,
    UInt8,
    UInt16,
    UInt32,
    UInt64,
    Float16,
    Float32,
    Float64,
    Unsupported(String),
}

/// A single cell value.
///
/// Signed and unsigned integers of every width are carried at full width;
/// the column's `ElementKind` records the original width. A floating-point
/// cell is carried as its canonical rendered text, produced by the source
/// adapter: the verified core holds no floating-point values itself.
/// `Null` stands for an absent value of any kind.
#[derive(Debug, Clone)]
pub enum CellValue {
    Null,
    Bool(bool),
    Int(i64),
    UInt(u64),
    Real(String),
}

impl ElementKind {
    /// Whether the engine has a formatter for this kind.
    pub open spec fn spec_supported(self) -> bool {
        !(self is Unsupported)
    }

    /// Whether the engine has a formatter for this kind.
    pub fn supported(&self) -> (r: bool)
        ensures
            r == self.spec_supported(),
    {
        !matches!(self, ElementKind::Unsupported(_))
    }

    /// The kind's display name, used when reporting an unsupported kind.
    pub fn kind_name(&self) -> (r: String)
        ensures
            r@ == self.spec_kind_name(),
    {
        match self {
            ElementKind::Boolean => String::from_str("Boolean"),
            ElementKind::Int8 => String::from_str("Int8"),
            ElementKind::Int16 => String::from_str("Int16"),
            ElementKind::Int32 => String::from_str("Int32"),
            ElementKind::Int64 => String::from_str("Int64"),
            ElementKind::UInt8 => String::from_str("UInt8"),
            ElementKind::UInt16 => String::from_str("UInt16"),
            ElementKind::UInt32 => String::from_str("UInt32"),
            ElementKind::UInt64 => String::from_str("UInt64"),
            ElementKind::Float16 => String::from_str("Float16"),
            ElementKind::Float32 => String::from_str("Float32"),
            ElementKind::Float64 => String::from_str("Float64"),
            ElementKind::Unsupported(name) => name.clone(),
        }
    }

    /// The kind's display name.
    pub open spec fn spec_kind_name(self) -> Seq<char> {
        match self {
            ElementKind::Boolean => "Boolean"@,
            ElementKind::Int8 => "Int8"@,
            ElementKind::Int16 => "Int16"@,
            ElementKind::Int32 => "Int32"@,
            ElementKind::Int64 => "Int64"@,
            ElementKind::UInt8 => "UInt8"@,
            ElementKind::UInt16 => "UInt16"@,
            ElementKind::UInt32 => "UInt32"@,
            ElementKind::UInt64 => "UInt64"@,
            ElementKind::Float16 => "Float16"@,
            ElementKind::Float32 => "Float32"@,
            ElementKind::Float64 => "Float64"@,
            ElementKind::Unsupported(name) => name@,
        }
    }

    /// Whether a cell value is admissible in a column of this kind: the value
    /// category matches the kind, integers fit the kind's width, and `Null`
    /// is admissible everywhere.
    pub open spec fn admits(self, v: CellValue) -> bool {
        match v {
            CellValue::Null => true,
            CellValue::Bool(_) => self is Boolean,
            CellValue::Int(i) => match self {
                ElementKind::Int8 => -128 <= i <= 127,
                ElementKind::Int16 => -32768 <= i <= 32767,
                ElementKind::Int32 => -2147483648 <= i <= 2147483647,
                ElementKind::Int64 => true,
                _ => false,
            },
            CellValue::UInt(u) => match self {
                ElementKind::UInt8 => u <= 255,
                ElementKind::UInt16 => u <= 65535,
                ElementKind::UInt32 => u <= 4294967295,
                ElementKind::UInt64 => true,
                _ => false,
            },
            CellValue::Real(_) => self is Float16 || self is Float32 || self is Float64,
        }
    }
}

} // verus!
