//! What is shown of a response: a header with its rank and its model, drawn
//! across the terminal, and below it the answer or the failure.

use vstd::prelude::*;
use vstd::utf8::encode_utf8;
use crate::model::{outcome_view, Failure, FailureView};
use crate::terminal::terminal_columns;
use crate::text::{dashes, decimal, decimal_string, push_dashes};

verus! {

/// What tells the operator that a round has begun. It is shown once, before the
/// first response.
pub fn progress_notice() -> (notice: &'static str)
    ensures
        notice@ == "Generating... "@,
{
    "Generating... "
}

/// The words of a header: the rank and the model of the response.
pub open spec fn header_text(rank: nat, model_id: Seq<char>) -> Seq<char> {
    "--- ["@ + decimal(rank) + "] "@ + model_id + " ---"@
}

/// The length of the rule that fills a line of `columns` columns behind `header`:
/// the columns that the bytes of `header` leave free, and none where they leave
/// none.
pub open spec fn rule_length(columns: nat, header: Seq<char>) -> nat {
    let used = encode_utf8(header).len();
    if columns > used {
        (columns - used) as nat
    } else {
        0
    }
}

/// The header of a response on a terminal of `columns` columns: its words, then
/// a rule of dashes up to the edge.
pub open spec fn header_line_spec(rank: nat, model_id: Seq<char>, columns: nat) -> Seq<char> {
    let header = header_text(rank, model_id);
    header + dashes(rule_length(columns, header))
}

/// Writes the header of a response for a terminal of `columns` columns.
pub fn header_line(rank: usize, model_id: &str, columns: u16) -> (line: String)
    ensures
        line@ == header_line_spec(rank as nat, model_id@, columns as nat),
{
    let mut line: String = String::from_str("--- [");
    line.append(decimal_string(rank).as_str());
    line.append("] ");
    line.append(model_id);
    line.append(" ---");
    assert(line@ == header_text(rank as nat, model_id@));
    let used: usize = line.as_str().as_bytes().len();
    assert(used == encode_utf8(line@).len());
    let width: usize = columns as usize;
    let dash_count: usize = if width > used {
        width - used
    } else {
        0
    };
    push_dashes(&mut line, dash_count);
    line
}

/// Writes the header of a response for the terminal that the process is
/// attached to; for 80 columns where the terminal does not tell its width. The
/// header stands below an empty line.
pub fn print_response_header(index: usize, model_id: &str) -> (line: String)
    ensures
        exists|columns: u16| line@ == header_line_spec(index as nat, model_id@, columns as nat),
{
    let columns: u16 = terminal_columns();
    header_line(index, model_id, columns)
}

/// What is shown below the header of a response.
#[derive(Debug, PartialEq, Eq)]
pub enum Body {
    /// An answer: text in Markdown, for the standard output.
    Markdown(String),
    /// A failure: one line, for the diagnostic stream.
    Diagnostic(String),
}

/// What a [`Body`] holds.
pub enum BodyView {
    Markdown(Seq<char>),
    Diagnostic(Seq<char>),
}

impl View for Body {
    type V = BodyView;

    open spec fn view(&self) -> BodyView {
        match self {
            Body::Markdown(text) => BodyView::Markdown(text@),
            Body::Diagnostic(line) => BodyView::Diagnostic(line@),
        }
    }
}

/// The line that tells of a failure: its message, followed by the message of
/// its immediate cause where it has one.
pub open spec fn error_line_spec(failure: FailureView) -> Seq<char> {
    if failure.causes.len() > 0 {
        "Error: "@ + failure.message + ": "@ + failure.causes.first()
    } else {
        "Error: "@ + failure.message
    }
}

/// Writes the line that tells of `failure`.
pub fn error_line(failure: &Failure) -> (line: String)
    ensures
        line@ == error_line_spec(failure@),
{
    let mut line: String = String::from_str("Error: ");
    line.append(failure.message.as_str());
    if failure.causes.len() > 0 {
        line.append(": ");
        line.append(failure.causes[0].as_str());
        assert(failure@.causes.first() == failure.causes@[0]@);
    }
    line
}

/// What is shown below the header for an outcome: the answer as it is, or the
/// line that tells of the failure.
pub open spec fn body_of(outcome: Result<Seq<char>, FailureView>) -> BodyView {
    match outcome {
        Ok(text) => BodyView::Markdown(text),
        Err(failure) => BodyView::Diagnostic(error_line_spec(failure)),
    }
}

/// Makes what is shown below the header of a response.
pub fn display_response(result: &Result<String, Failure>) -> (body: Body)
    ensures
        body@ == body_of(outcome_view(*result)),
{
    match result {
        Ok(output) => Body::Markdown(output.clone()),
        Err(failure) => Body::Diagnostic(error_line(failure)),
    }
}

} // verus!
