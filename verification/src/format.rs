//! Cell formatting: a total stringification rule for every supported element
//! kind, with an explicit error for unsupported kinds.
//!
//! Integers print in decimal, booleans as `true` / `false`, and a null cell
//! prints as the empty string (the stable null marker across all kinds).
//! Floating-point cells carry their canonical text already (see
//! [`crate::kind::CellValue::Real`]) and print as that text.

use vstd::prelude::*;
use vstd::string::StringExecFns;

use crate::kind::CellValue;

verus! {

/// The decimal digit character for `d` (which must be below ten).
pub open spec fn dec_digit(d: nat) -> char {
    if d == 0 {
        '0'
    } else if d == 1 {
        '1'
    } else if d == 2 {
        '2'
    } else if d == 3 {
        '3'
    } else if d == 4 {
        '4'
    } else if d == 5 {
        '5'
    } else if d == 6 {
        '6'
    } else if d == 7 {
        '7'
    } else if d == 8 {
        '8'
    } else {
        '9'
    }
}

/// The decimal text of a natural number: most significant digit first,
/// no leading zeros except for zero itself.
pub open spec fn dec_nat(n: nat) -> Seq<char>
    decreases n,
{
    if n < 10 {
        seq![dec_digit(n)]
    } else {
        dec_nat(n / 10) + seq![dec_digit(n % 10)]
    }
}

/// The decimal text of an integer: a minus sign before the magnitude when
/// negative.
pub open spec fn dec_int(i: int) -> Seq<char> {
    if i >= 0 {
        dec_nat(i as nat)
    } else {
        seq!['-'] + dec_nat((-i) as nat)
    }
}

/// The display text of a cell value.
pub open spec fn value_text(v: CellValue) -> Seq<char> {
    match v {
        CellValue::Null => Seq::<char>::empty(),
        CellValue::Bool(b) => if b {
            "true"@
        } else {
            "false"@
        },
        CellValue::Int(i) => dec_int(i as int),
        CellValue::UInt(u) => dec_nat(u as nat),
        CellValue::Real(s) => s@,
    }
}

/// A one-character string slice holding the decimal digit for `d`.
fn digit_str(d: u64) -> (r: &'static str)
    requires
        d < 10,
    ensures
        r@ == seq![dec_digit(d as nat)],
{
    proof {
        reveal_strlit("0");
        reveal_strlit("1");
        reveal_strlit("2");
        reveal_strlit("3");
        reveal_strlit("4");
        reveal_strlit("5");
        reveal_strlit("6");
        reveal_strlit("7");
        reveal_strlit("8");
        reveal_strlit("9");
    }
    match d {
        0 => "0",
        1 => "1",
        2 => "2",
        3 => "3",
        4 => "4",
        5 => "5",
        6 => "6",
        7 => "7",
        8 => "8",
        _ => "9",
    }
}

/// Formats a natural number in decimal.
pub fn format_u64(n: u64) -> (s: String)
    ensures
        s@ == dec_nat(n as nat),
    decreases n,
{
    if n < 10 {
        String::from_str(digit_str(n))
    } else {
        let mut s = format_u64(n / 10);
        s.append(digit_str(n % 10));
        s
    }
}

/// Formats a signed integer in decimal.
pub fn format_i64(i: i64) -> (s: String)
    ensures
        s@ == dec_int(i as int),
{
    if i >= 0 {
        format_u64(i as u64)
    } else {
        proof {
            reveal_strlit("-");
        }
        let magnitude: u64 = ((-(i as i128)) as u64);
        let mut s = String::from_str("-");
        s.append(format_u64(magnitude).as_str());
        s
    }
}

/// Formats one cell value as its display text.
///
/// Total over every value the closed kind set can carry: the dispatch that
/// cannot format — an unsupported column kind — is rejected before any cell
/// of the column is read (see [`crate::stream`]), so no fallible case is
/// left here.
pub fn format_value(v: &CellValue) -> (s: String)
    ensures
        s@ == value_text(*v),
{
    match v {
        CellValue::Null => String::new(),
        CellValue::Bool(b) => {
            if *b {
                String::from_str("true")
            } else {
                String::from_str("false")
            }
        },
        CellValue::Int(i) => format_i64(*i),
        CellValue::UInt(u) => format_u64(*u),
        CellValue::Real(s) => s.clone(),
    }
}

} // verus!
