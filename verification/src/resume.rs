//! The resume gate: deciding, before planning, whether the destination
//! holds an interrupted receive that must be completed first.
//!
//! The destination reports a resume token; the sentinel value `-` means no
//! receive is in progress.  Any other token must be handed back verbatim to
//! a resuming send before normal planning may proceed.

use vstd::prelude::*;

verus! {

/// What to do before planning starts.
#[derive(Debug)]
pub enum ResumeAction {
    /// No interrupted receive: proceed straight to planning.
    Proceed,
    /// Complete the interrupted receive with this exact token first.
    Resume(String),
}

/// Decides the resume gate from the destination's reported token: the
/// sentinel `-` proceeds straight to planning, any other token is resumed
/// verbatim.
pub fn resume_decision(token: &str) -> (r: ResumeAction)
    ensures
        (r is Proceed) <==> token@ == "-"@,
        r matches ResumeAction::Resume(s) ==> s@ == token@,
{
    if crate::strutil::str_eq(token, "-") {
        ResumeAction::Proceed
    } else {
        ResumeAction::Resume(token.to_owned())
    }
}

/// Extracts the single cell that a one-field, one-object listing query
/// returns, or nothing when the listing does not have exactly one row of
/// exactly one cell.
pub fn sole_cell(rows: &Vec<Vec<String>>) -> (r: Option<String>)
    ensures
        (r is Some) <==> (rows@.len() == 1 && rows@[0]@.len() == 1),
        r matches Some(s) ==> s == rows@[0]@[0],
{
    if rows.len() == 1 {
        let row = &rows[0];
        if row.len() == 1 {
            return Some(row[0].clone());
        }
    }
    None
}

} // verus!
