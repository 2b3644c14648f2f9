//! Lexical classes of buffer bytes and the colours they are drawn in.

use vstd::prelude::*;

verus! {

/// The lexical class of one byte of the buffer.
#[derive(Clone, Copy, Debug, PartialEq, Eq, Structural)]
pub enum HighlightType {
    Standard,
    Identity,
    Keyword,
    Number,
    Bracket,
    String,
    Comment,
    SearchResult,
}

/// A foreground colour of the display. `Reset` is the terminal's default.
#[derive(Clone, Copy, Debug, PartialEq, Eq, Structural)]
pub enum Colour {
    Reset,
    Cyan,
    Blue,
    Yellow,
    DarkYellow,
    Red,
    DarkGreen,
    Magenta,
}

/// One instruction for the display: switch the foreground colour, or put
/// one byte of text at the current position.
#[derive(Clone, Copy, Debug, PartialEq, Eq, Structural)]
pub enum PrintCommand {
    SetForeground(Colour),
    Print(u8),
}

/// The colour in which a byte of the given class is drawn.
pub open spec fn colour_of(highlight_type: HighlightType) -> Colour {
    match highlight_type {
        HighlightType::Identity => Colour::Cyan,
        HighlightType::Keyword => Colour::Blue,
        HighlightType::Number => Colour::Yellow,
        HighlightType::Bracket => Colour::DarkYellow,
        HighlightType::String => Colour::Red,
        HighlightType::Comment => Colour::DarkGreen,
        HighlightType::SearchResult => Colour::Magenta,
        HighlightType::Standard => Colour::Reset,
    }
}

} // verus!
