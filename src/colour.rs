use vstd::prelude::*;
use vstd::string::StrSliceExecFns;

use crate::error::GameError;

verus! {

/// One peg colour.
#[derive(Clone, Copy, Debug, PartialEq, Eq, Structural)]
pub enum Colour {
    Red,
    Orange,
    Blue,
    White,
    Yellow,
    Green,
}

/// How many colours there are to choose from.
pub const NUM_COLOURS: usize = 6;

/// Every colour once, in the order the generator draws from.
pub open spec fn palette() -> Seq<Colour> {
    seq![Colour::Red, Colour::Blue, Colour::White, Colour::Yellow, Colour::Green, Colour::Orange]
}

/// The colour whose initial letter is `c`, in either case.
pub open spec fn colour_of_char(c: char) -> Option<Colour> {
    if c == 'r' || c == 'R' {
        Some(Colour::Red)
    } else if c == 'o' || c == 'O' {
        Some(Colour::Orange)
    } else if c == 'b' || c == 'B' {
        Some(Colour::Blue)
    } else if c == 'w' || c == 'W' {
        Some(Colour::White)
    } else if c == 'y' || c == 'Y' {
        Some(Colour::Yellow)
    } else if c == 'g' || c == 'G' {
        Some(Colour::Green)
    } else {
        None
    }
}

/// `c` with an ASCII capital letter made small; any other character as it is.
pub open spec fn ascii_lower(c: char) -> char {
    if 'A' <= c && c <= 'Z' {
        ((c as u32) + 32) as char
    } else {
        c
    }
}

/// The ASCII lower case of `c`, as named by `ascii_lower`.
pub fn to_ascii_lower(c: char) -> (r: char)
    ensures
        r == ascii_lower(c),
{
    if 'A' <= c && c <= 'Z' {
        ((c as u8) + 32) as char
    } else {
        c
    }
}

/// What parsing a token gives: its first character decides.
pub open spec fn parse_token(s: Seq<char>) -> Result<Colour, GameError> {
    if s.len() == 0 {
        Err(GameError::EmptyInput)
    } else {
        match colour_of_char(s[0]) {
            Some(c) => Ok(c),
            None => Err(GameError::InvalidColour(ascii_lower(s[0]))),
        }
    }
}

/// Every colour occurs in the palette.
pub proof fn lemma_palette_complete(c: Colour)
    ensures
        palette().contains(c),
{
    match c {
        Colour::Red => assert(palette()[0] == c),
        Colour::Blue => assert(palette()[1] == c),
        Colour::White => assert(palette()[2] == c),
        Colour::Yellow => assert(palette()[3] == c),
        Colour::Green => assert(palette()[4] == c),
        Colour::Orange => assert(palette()[5] == c),
    }
}

/// The palette names no colour twice.
pub proof fn lemma_palette_distinct()
    ensures
        palette().no_duplicates(),
        palette().len() == NUM_COLOURS,
{
}

/// The palette as a vector.
pub fn all_colours() -> (r: Vec<Colour>)
    ensures
        r@ == palette(),
{
    let r = vec![Colour::Red, Colour::Blue, Colour::White, Colour::Yellow, Colour::Green, Colour::Orange];
    assert(r@ =~= palette());
    r
}

impl Colour {
    /// The colour named by one character, if any.
    pub fn from_char(c: char) -> (r: Option<Colour>)
        ensures
            r == colour_of_char(c),
    {
        match c {
            'r' | 'R' => Some(Colour::Red),
            'o' | 'O' => Some(Colour::Orange),
            'b' | 'B' => Some(Colour::Blue),
            'w' | 'W' => Some(Colour::White),
            'y' | 'Y' => Some(Colour::Yellow),
            'g' | 'G' => Some(Colour::Green),
            _ => None,
        }
    }

    /// Parses a token by its first character, case-insensitively.
    pub fn from_str(text: &str) -> (r: Result<Colour, GameError>)
        ensures
            r == parse_token(text@),
    {
        if text.unicode_len() == 0 {
            return Err(GameError::EmptyInput);
        }
        let first = text.get_char(0);
        match Colour::from_char(first) {
            Some(c) => Ok(c),
            None => Err(GameError::InvalidColour(to_ascii_lower(first))),
        }
    }
}

} // verus!
