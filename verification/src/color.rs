use vstd::prelude::*;

verus! {

/// A cell marker on the board. `Black` is the background of an empty cell;
/// the seven bright colors identify the tetromino shapes; `Gray` marks
/// injected garbage rows; `DarkGray` is free for callers (tests use it as a
/// generic fill). The engine treats colors as opaque markers and only ever
/// compares them for equality.
#[derive(Clone, Copy, Debug, PartialEq, Eq, Structural)]
pub enum Color {
    Black,
    Cyan,
    Blue,
    Orange,
    Green,
    Red,
    Purple,
    Yellow,
    Gray,
    DarkGray,
}

} // verus!
