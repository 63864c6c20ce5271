//! The width of the terminal the answers are shown on.

use vstd::prelude::*;

verus! {

/// Columns assumed when the terminal does not tell its width.
pub const DEFAULT_COLUMNS: u16 = 80;

/// Asks `crossterm::terminal::size` for the terminal's size and keeps the number
/// of columns; `None` when the query fails. The answer depends on the terminal
/// the process is attached to, so nothing is claimed about it.
#[verifier::external_body]
fn query_columns() -> Option<u16> {
    match crossterm::terminal::size() {
        Ok((columns, _)) => Some(columns),
        Err(_) => None,
    }
}

/// The width a header rule is drawn for: the defaulted answer of the terminal.
pub open spec fn columns_or_default(answer: Option<u16>) -> u16 {
    match answer {
        Some(columns) => columns,
        None => DEFAULT_COLUMNS,
    }
}

/// Picks the width to draw for from what the terminal answered.
pub fn resolve_columns(answer: Option<u16>) -> (width: u16)
    ensures
        width == columns_or_default(answer),
{
    match answer {
        Some(columns) => columns,
        None => DEFAULT_COLUMNS,
    }
}

/// The width of the terminal that the process is attached to, or
/// `DEFAULT_COLUMNS` where the terminal does not tell it. Every width can come
/// back, so nothing is promised of the result.
pub fn terminal_columns() -> u16 {
    resolve_columns(query_columns())
}

} // verus!
