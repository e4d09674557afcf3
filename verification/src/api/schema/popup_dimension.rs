//! The text and integer forms of a popup dimension: `"80%"` is a percentage
//! of the terminal axis, `"60"` or the integer `60` an absolute cell count.
//! A dimension is always written as text so that it reads back unchanged.

use vstd::prelude::*;

use super::plugins::PopupDimension;
use crate::text::{
    chars_of, decimal, lemma_parse_u16_of_decimal, parse_u16_chars, parse_u16_text, push_decimal,
    string_from_chars, trim_white_space, trim_ws,
};

verus! {

/// Why a value is not a popup dimension.
#[derive(Debug, Clone, Copy, PartialEq, Eq, Structural)]
pub enum PopupDimensionError {
    /// An integer below zero.
    Negative,
    /// Text ending in `%` whose number is not a `u16`.
    InvalidPercent,
    /// Text without `%` that is not a `u16`.
    InvalidCells,
}

impl PopupDimensionError {
    /// The message reported for this error.
    pub fn message(&self) -> (r: String)
        ensures
            *self == PopupDimensionError::Negative ==> r@ == "popup dimension cannot be negative"@,
            *self == PopupDimensionError::InvalidPercent ==> r@ == "invalid popup percent dimension"@,
            *self == PopupDimensionError::InvalidCells ==> r@ == "invalid popup cell dimension"@,
    {
        match self {
            PopupDimensionError::Negative => "popup dimension cannot be negative".to_owned(),
            PopupDimensionError::InvalidPercent => "invalid popup percent dimension".to_owned(),
            PopupDimensionError::InvalidCells => "invalid popup cell dimension".to_owned(),
        }
    }
}

/// An integer dimension: a cell count, capped at `u16::MAX`; negative
/// integers are refused.
pub open spec fn dimension_from_integer(n: int) -> Result<PopupDimension, PopupDimensionError> {
    if n < 0 {
        Err(PopupDimensionError::Negative)
    } else if n > u16::MAX {
        Ok(PopupDimension::Cells(u16::MAX))
    } else {
        Ok(PopupDimension::Cells(n as u16))
    }
}

/// A percentage clamped to `1..=100`.
pub open spec fn clamp_percent(pct: u16) -> u16 {
    if pct < 1 {
        1
    } else if pct <= 100 {
        pct
    } else {
        100
    }
}

/// A text dimension: the text is trimmed; if it then ends in `%`, the rest
/// (trimmed again) is a `u16` percentage clamped to `1..=100`; otherwise the
/// whole is a `u16` cell count.
pub open spec fn dimension_from_text(s: Seq<char>) -> Result<PopupDimension, PopupDimensionError> {
    let t = trim_ws(s);
    if t.len() > 0 && t.last() == '%' {
        match parse_u16_text(trim_ws(t.drop_last())) {
            Some(pct) => Ok(PopupDimension::Percent(clamp_percent(pct))),
            None => Err(PopupDimensionError::InvalidPercent),
        }
    } else {
        match parse_u16_text(t) {
            Some(cells) => Ok(PopupDimension::Cells(cells)),
            None => Err(PopupDimensionError::InvalidCells),
        }
    }
}

/// The text form: the percentage followed by `%`, or the cell count.
pub open spec fn dimension_text(d: PopupDimension) -> Seq<char> {
    match d {
        PopupDimension::Percent(pct) => decimal(pct as nat).push('%'),
        PopupDimension::Cells(cells) => decimal(cells as nat),
    }
}

impl PopupDimension {
    /// Reads an integer dimension.
    pub fn from_integer(n: i64) -> (r: Result<PopupDimension, PopupDimensionError>)
        ensures
            r == dimension_from_integer(n as int),
    {
        if n < 0 {
            Err(PopupDimensionError::Negative)
        } else if n > 65535 {
            Ok(PopupDimension::Cells(u16::MAX))
        } else {
            Ok(PopupDimension::Cells(n as u16))
        }
    }

    /// Reads a text dimension.
    pub fn parse_text(s: &str) -> (r: Result<PopupDimension, PopupDimensionError>)
        ensures
            r == dimension_from_text(s@),
    {
        let raw = chars_of(s);
        let t = trim_white_space(&raw);
        let n = t.len();
        if n > 0 && t[n - 1] == '%' {
            let mut rest: Vec<char> = Vec::new();
            let mut i: usize = 0;
            while i < n - 1
                invariant
                    n == t@.len(),
                    n > 0,
                    i <= n - 1,
                    rest@ == t@.take(i as int),
                decreases n - 1 - i,
            {
                rest.push(t[i]);
                assert(t@.take(i + 1) == t@.take(i as int).push(t@[i as int]));
                i = i + 1;
            }
            assert(rest@ == t@.drop_last());
            let inner = trim_white_space(&rest);
            match parse_u16_chars(&inner) {
                Some(pct) => Ok(
                    PopupDimension::Percent(
                        if pct < 1 {
                            1
                        } else if pct <= 100 {
                            pct
                        } else {
                            100
                        },
                    ),
                ),
                None => Err(PopupDimensionError::InvalidPercent),
            }
        } else {
            match parse_u16_chars(&t) {
                Some(cells) => Ok(PopupDimension::Cells(cells)),
                None => Err(PopupDimensionError::InvalidCells),
            }
        }
    }

    /// The text form of this dimension.
    pub fn to_text(&self) -> (r: String)
        ensures
            r@ == dimension_text(*self),
    {
        let mut v: Vec<char> = Vec::new();
        match self {
            PopupDimension::Percent(pct) => {
                push_decimal(&mut v, *pct);
                v.push('%');
            },
            PopupDimension::Cells(cells) => {
                push_decimal(&mut v, *cells);
            },
        }
        string_from_chars(&v)
    }
}

/// A percentage outside `1..=100` counts as the nearest bound.
pub open spec fn capped_dimension(d: PopupDimension) -> PopupDimension {
    match d {
        PopupDimension::Percent(pct) => PopupDimension::Percent(clamp_percent(pct)),
        PopupDimension::Cells(cells) => PopupDimension::Cells(cells),
    }
}

/// Writing a dimension and reading the text back gives the same dimension,
/// for every cell count and every percentage in `1..=100` (any other
/// percentage reads back clamped into that range).
pub proof fn lemma_dimension_text_round_trip(d: PopupDimension)
    ensures
        dimension_from_text(dimension_text(d)) == Ok::<PopupDimension, PopupDimensionError>(capped_dimension(d)),
        (d matches PopupDimension::Percent(pct) && 1 <= pct <= 100) || d is Cells ==> capped_dimension(d) == d,
{
    match d {
        PopupDimension::Percent(pct) => {
            lemma_parse_u16_of_decimal(pct);
            let t = decimal(pct as nat).push('%');
            assert(t.drop_last() == decimal(pct as nat));
            crate::text::lemma_decimal_reads_back(pct as nat);
            assert(t[0] == decimal(pct as nat)[0]);
            crate::text::lemma_trim_ws_of_trimmed(t);
        },
        PopupDimension::Cells(cells) => {
            lemma_parse_u16_of_decimal(cells);
            crate::text::lemma_decimal_reads_back(cells as nat);
        },
    }
}

/// Percentages read from text lie in `1..=100`.
pub proof fn lemma_percent_text_is_clamped(s: Seq<char>)
    ensures
        dimension_from_text(s) matches Ok(PopupDimension::Percent(pct)) ==> 1 <= pct <= 100,
{
}

} // verus!
