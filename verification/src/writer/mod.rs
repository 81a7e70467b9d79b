//! The text in which matched lines are shown, and the capability of
//! composing it.

use vstd::prelude::*;
use crate::matcher::{MatchError, MatchedLine};

pub mod printer;

verus! {

/// The colour in which a piece of text is shown.
#[derive(Clone, Copy, Debug, PartialEq, Eq)]
pub enum Tone {
    Plain,
    Green,
    Blue,
    Red,
}

/// A piece of text and its colour, as a mathematical value.
pub struct Piece {
    pub text: Seq<char>,
    pub tone: Tone,
}

/// A piece of text and its colour.
#[derive(Debug, Clone, PartialEq, Eq)]
pub struct Segment {
    pub text: String,
    pub tone: Tone,
}

impl View for Segment {
    type V = Piece;

    open spec fn view(&self) -> Piece {
        Piece { text: self.text@, tone: self.tone }
    }
}

/// The pieces that a sequence of segments stands for.
pub open spec fn pieces(segments: Seq<Segment>) -> Seq<Piece> {
    segments.map_values(|s: Segment| s@)
}

/// The texts of `parts`, one after another.
pub open spec fn joined(parts: Seq<Seq<char>>) -> Seq<char>
    decreases parts.len(),
{
    if parts.len() == 0 {
        seq![]
    } else {
        joined(parts.drop_last()) + parts.last()
    }
}

/// The capability of composing what is shown for the matched lines of one
/// file.
pub trait Writer {
    /// The text to show for `lines`, which were found in the file at
    /// `relative_path`.
    fn write_all(relative_path: String, lines: Vec<MatchedLine>) -> (r: Result<String, MatchError>)
        requires
            forall|i: int| 0 <= i < lines@.len() ==> (#[trigger] lines@[i]).span_ok(),
    ;
}

} // verus!
