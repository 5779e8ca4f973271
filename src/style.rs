use vstd::prelude::*;

verus! {

/// How a cell is to be drawn.
#[derive(Clone, Copy, Debug, PartialEq, Eq, Structural)]
pub enum Style {
    NoStyle,
    Keyword,
    Symbol,
}

/// One position of the grid: a character and its style.
pub type Cell = (char, Style);

/// The cell that fills every position nobody has written: a space, unstyled.
pub open spec fn blank() -> Cell {
    (' ', Style::NoStyle)
}

} // verus!
