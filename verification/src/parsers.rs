//! Reading a map file.
//!
//! The grammar, with `ws` for blank characters and comments, as many as
//! there are:
//!
//! ```text
//! map      := (ws entity)*
//! entity   := '{' (ws property ws)* (ws brush ws)* ws '}'
//! property := '"' key '"' ' ' '"' value '"'
//! brush    := '{' (ws face ws)+ '}'
//! face     := triangle ' ' name ' ' axis ' ' axis ' ' number ' ' number ' ' number
//! triangle := '( ' vec3 ' ) ( ' vec3 ' ) ( ' vec3 ' )'
//! axis     := '[ ' vec3 ' ' number ' ]'
//! vec3     := number ' ' number ' ' number
//! comment  := '//' the rest of the line
//! ```

pub mod brush;
pub mod common;
pub mod entity;
pub mod face;
pub mod map;
pub mod property;

use crate::error::{ParseError, Utf8Error};
use crate::parsers::map::entities_at;
use crate::types::MapFile;
use vstd::prelude::*;
use vstd::string::StringSliceAdditionalSpecFns;
use vstd::utf8::{decode_utf8, encode_utf8_decode_utf8, valid_utf8};

verus! {

/// The characters of a text.
fn chars_of(text: &str) -> (chars: Vec<char>)
    ensures
        chars@ == text@,
{
    let mut chars: Vec<char> = Vec::new();
    for c in it: text.chars()
        invariant
            chars@ == it.seq().take(it.index()),
    {
        chars.push(c);
    }
    chars
}

/// Reads a map from a text. Never fails: what follows the last entity that
/// can be read is left unread.
pub fn from_str(s: &str) -> (r: Result<MapFile, ParseError>)
    ensures
        r is Ok,
        r.unwrap()@ == entities_at(s@, 0),
        r.unwrap().wf(),
{
    let chars = chars_of(s);
    Ok(map::map(chars.as_slice()))
}

/// `std::str::from_utf8`: the bytes as a text, where they are UTF-8, and
/// nothing where they are not.
#[verifier::external_body]
fn text_of(bytes: &[u8]) -> (r: Option<&str>)
    ensures
        r is Some <==> valid_utf8(bytes@),
        r matches Some(text) ==> text.spec_bytes() == bytes@,
{
    std::str::from_utf8(bytes).ok()
}

/// Reads a map from bytes, which have to be UTF-8.
pub fn from_bytes(b: &[u8]) -> (r: Result<MapFile, Utf8Error>)
    ensures
        r is Ok <==> valid_utf8(b@),
        r matches Ok(map) ==> map@ == entities_at(decode_utf8(b@), 0) && map.wf(),
{
    match text_of(b) {
        Some(text) => {
            proof {
                encode_utf8_decode_utf8(text@);
            }
            let chars = chars_of(text);
            Ok(map::map(chars.as_slice()))
        },
        None => Err(Utf8Error {  }),
    }
}

} // verus!
