//! The ways in which parsing fails.

use vstd::prelude::*;

verus! {

/// What the grammar asked for at the place where the text stopped matching.
#[derive(Clone, Copy, Debug, PartialEq, Eq, Structural)]
pub enum Expected {
    /// A fixed phrase: a record's type tag, an addressing keyword, a separator.
    Tag,
    /// A line ending, `"\r\n"` or `"\n"`.
    Newline,
    /// At least one space or tab.
    Space,
    /// At least one decimal digit.
    Digit,
    /// A decimal number that fits in 32 bits.
    Number,
}

/// Why a text could not be parsed.
#[derive(Clone, Copy, Debug, PartialEq, Eq, Structural)]
pub enum ParseError {
    /// A body ran to the end of the text before its closing line was found:
    /// the text may be cut short or it may be wrong, and nothing here can tell.
    Incomplete,
    /// The text does not follow the grammar. `remaining` is the number of
    /// bytes from the offending place to the end of the text.
    Malformed { remaining: usize, expected: Expected },
}

/// The failure reported when `expected` is missing at the start of `rest`.
pub open spec fn malformed(rest: Seq<u8>, expected: Expected) -> ParseError {
    ParseError::Malformed { remaining: rest.len() as usize, expected }
}

impl ParseError {
    /// The byte offset of the offending place in a text of `len` bytes that
    /// ends where the parsed text ends.
    pub open spec fn spec_offset(self, len: usize) -> Option<usize> {
        match self {
            ParseError::Malformed { remaining, .. } if remaining <= len => Some(
                (len - remaining) as usize,
            ),
            _ => None,
        }
    }

    /// The byte offset of the offending place in a text of `len` bytes that
    /// ends where the parsed text ends; `None` for `Incomplete`, which has no
    /// place, and for a `len` that is too short to be such a text.
    pub fn offset(&self, len: usize) -> (r: Option<usize>)
        ensures
            r == self.spec_offset(len),
    {
        match self {
            ParseError::Malformed { remaining, .. } => {
                if *remaining <= len {
                    Some(len - *remaining)
                } else {
                    None
                }
            },
            ParseError::Incomplete => None,
        }
    }
}

} // verus!
