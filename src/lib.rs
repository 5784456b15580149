use vstd::prelude::*;

pub mod calendar;
pub mod text;
pub mod schedule;
pub mod parse;
pub mod laws;

verus! {

/// Name of the calendar file written when no output path is given.
pub fn default_output_path() -> (r: String)
    ensures
        r@ == "output.ics"@,
{
    "output.ics".to_owned()
}

} // verus!
