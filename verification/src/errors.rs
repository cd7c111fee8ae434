//! Load-time errors. Both classes are fatal: a rejected construction leaves
//! no partially usable value behind. There are no runtime errors; all in-tick
//! queries are total.

use vstd::prelude::*;

verus! {

/// A typed construction failure, distinguishing a bad layout from a bad
/// enemy route.
#[derive(Debug, Clone, Copy, PartialEq, Eq, Structural)]
pub enum AmidarError {
    /// The layout text holds a character outside the tile alphabet.
    InvalidTileChar(char),
    /// The layout rows are empty or not all of the same width.
    MalformedLayout,
    /// The layout exceeds the fixed-point arithmetic limits of the engine.
    LayoutTooLarge,
    /// An enemy route holds a token that is not a decimal `u32`.
    InvalidRouteToken,
    /// An enemy route has no positions at all.
    EmptyRoute,
    /// An enemy route names a tile id outside the board.
    RouteIdOutOfRange,
}

} // verus!
