//! Command-line values shared by the programs.
use vstd::prelude::*;
use crate::text::same_text;

verus! {

#[derive(Clone, Copy, Debug, PartialEq, Eq, Structural)]
pub enum ArgumentsError {
    UnknownCup,
}

impl ArgumentsError {
    /// The message shown to the user.
    pub fn message(&self) -> (r: &'static str)
        ensures
            r@ == "Invalid cup, valid cups are: city-cup, forest-cup, kampioen"@,
    {
        "Invalid cup, valid cups are: city-cup, forest-cup, kampioen"
    }
}

pub open spec fn is_cup(flag: Seq<char>) -> bool {
    flag == "city-cup"@ || flag == "forest-cup"@ || flag == "kampioen"@
}

/// Accepts the name of a known cup.
pub fn parse_cup(flag: &str) -> (r: Result<String, ArgumentsError>)
    ensures
        is_cup(flag@) ==> (r matches Ok(s) && s@ == flag@),
        !is_cup(flag@) ==> r == Err::<String, ArgumentsError>(ArgumentsError::UnknownCup),
{
    if same_text(flag, "city-cup") || same_text(flag, "forest-cup") || same_text(flag, "kampioen") {
        Ok(flag.to_owned())
    } else {
        Err(ArgumentsError::UnknownCup)
    }
}

} // verus!
