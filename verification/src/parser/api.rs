//! The public parsing API.

use vstd::prelude::*;

use crate::parser::traits::{parsed_as, Parsable, Parser};

verus! {

/// Parses `input` into a value of `T`, with the parser that `T` provides;
/// hands back what is left of `input` and the value.
///
/// Fails when that parser cannot read `input`.
pub fn just_parse<T: Parsable>(input: &str) -> (res: Result<(&str, T), ()>)
    ensures
        parsed_as(res, T::spec_parser().spec_parse(input@)),
{
    T::parser().parse(input)
}

} // verus!
