//! A property of an entity: a key and a value.

use crate::error::ParseError;
use crate::parsers::common::{char_at, expect, string, string_at, yields};
use crate::types::is_quotable;
use vstd::prelude::*;

verus! {

/// What `property` reads at `i`: a quoted key, one space, a quoted value.
pub open spec fn property_at(s: Seq<char>, i: int) -> Result<
    (int, (Seq<char>, Seq<char>)),
    ParseError,
> {
    match string_at(s, i) {
        Err(e) => Err(e),
        Ok((a, key)) => match char_at(s, a, ' ') {
            Err(e) => Err(e),
            Ok(b) => match string_at(s, b) {
                Err(e) => Err(e),
                Ok((c, value)) => Ok((c, (key, value))),
            },
        },
    }
}

/// Reads a property.
pub fn property(input: &[char], i: usize) -> (r: Result<(usize, (String, String)), ParseError>)
    requires
        i <= input@.len(),
    ensures
        yields(r, property_at(input@, i as int)),
        r matches Ok((end, entry)) ==> i < end <= input@.len() && is_quotable(entry.0@)
            && is_quotable(entry.1@),
{
    let (a, key) = string(input, i)?;
    let b = expect(input, a, ' ')?;
    let (c, value) = string(input, b)?;
    Ok((c, (key, value)))
}

} // verus!
