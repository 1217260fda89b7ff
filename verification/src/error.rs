//! What can go wrong.

use vstd::prelude::*;

verus! {

/// Why a brush or an entity has no mesh.
#[derive(Debug, Clone, Copy, PartialEq, Eq, Structural)]
pub enum GeometryError {
    /// Two of a face's three points are the same point, or all three lie on one line.
    DegeneratePlane,
    /// A face was left with fewer than three vertices.
    InsufficientVertices,
    /// The entity has no brushes.
    NoGeometry,
}

/// What the parser was looking for where it stopped.
#[derive(Debug, Clone, Copy, PartialEq, Eq, Structural)]
pub enum Expected {
    /// This character.
    Char(char),
    /// A number.
    Number,
    /// A texture name: one character or more that are not blank.
    Name,
    /// The text between two quotes: one character or more.
    Text,
    /// The two slashes that begin a comment.
    Comment,
    /// The end of the line.
    LineEnd,
}

/// The input is not what the format asks for.
#[derive(Debug, Clone, Copy, PartialEq, Eq, Structural)]
pub struct ParseError {
    /// How many characters of the input come before the place of the fault.
    pub position: usize,
    pub expected: Expected,
}

/// The bytes are not UTF-8.
#[derive(Debug, Clone, Copy, PartialEq, Eq, Structural)]
pub struct Utf8Error {}

/// A fault that is told in words.
#[derive(Debug)]
pub enum Error {
    Message(String),
    TrailingCharacters,
}

impl Error {
    /// The fault in words.
    pub fn message(&self) -> (text: String)
        ensures
            text@ == match *self {
                Error::Message(message) => message@,
                Error::TrailingCharacters => "unexpected end of input"@,
            },
    {
        match self {
            Error::Message(message) => message.clone(),
            Error::TrailingCharacters => "unexpected end of input".to_owned(),
        }
    }
}

} // verus!
