//! Shared data model: path commands, flattened polylines, islands and the
//! parse error type.

use vstd::prelude::*;
use vstd::string::*;

verus! {

/// One drawing command of the path mini-language, with absolute fixed-point
/// coordinates (thousandths of a unit). Relative input forms are normalized
/// to these absolute forms by the parser before they are stored.
#[derive(Clone, Copy, Debug, PartialEq, Eq, Structural)]
pub enum PathCommand {
    /// Start a new contour at `(x, y)`.
    MoveTo(i64, i64),
    /// Straight segment to `(x, y)`.
    LineTo(i64, i64),
    /// Cubic curve with control points `(c1x, c1y)`, `(c2x, c2y)` ending at
    /// `(x, y)`.
    CubicTo(i64, i64, i64, i64, i64, i64),
    /// Quadratic curve with control point `(cx, cy)` ending at `(x, y)`.
    QuadTo(i64, i64, i64, i64),
    /// Close the current contour.
    Close,
}

/// A point in fixed-point coordinates.
#[derive(Clone, Copy, Debug, PartialEq, Eq, Structural)]
pub struct Pt {
    pub x: i64,
    pub y: i64,
}

/// An ordered vertex chain derived from one contour run of an island,
/// closed when the run ended in a `Close` command.
#[derive(Clone, Debug)]
pub struct Polyline {
    pub pts: Vec<Pt>,
    pub closed: bool,
}

/// One independent vector shape: a stable identifier and its path data in
/// the path mini-language.
#[derive(Clone, Debug)]
pub struct PathIsland {
    pub id: String,
    pub svg_path_data: String,
}

/// An island at the specification level: the view of [`PathIsland`].
pub struct IslandModel {
    pub id: Seq<char>,
    pub d: Seq<char>,
}

impl View for PathIsland {
    type V = IslandModel;

    open spec fn view(&self) -> IslandModel {
        IslandModel { id: self.id@, d: self.svg_path_data@ }
    }
}

/// Views of an island sequence.
pub open spec fn islands_views(islands: Seq<PathIsland>) -> Seq<IslandModel> {
    islands.map_values(|i: PathIsland| i@)
}

/// Error for malformed input text: path mini-language syntax, island JSON
/// syntax, or a coordinate outside the supported range.
#[derive(Clone, Debug)]
pub struct ParseError {
    pub detail: String,
}

impl ParseError {
    /// Builds an error whose detail is the given message.
    pub fn new(msg: &str) -> (r: ParseError)
        ensures
            r.detail@ == msg@,
    {
        ParseError { detail: String::from_str(msg) }
    }
}

/// A coordinate value the library accepts: bounded so that the flattener's
/// squared cross products stay inside `i128`.
pub open spec fn in_range(v: int) -> bool {
    -(crate::COORD_LIMIT as int) <= v <= crate::COORD_LIMIT as int
}

/// All coordinates of one command are in range.
pub open spec fn cmd_bounded(c: PathCommand) -> bool {
    match c {
        PathCommand::MoveTo(x, y) => in_range(x as int) && in_range(y as int),
        PathCommand::LineTo(x, y) => in_range(x as int) && in_range(y as int),
        PathCommand::CubicTo(c1x, c1y, c2x, c2y, x, y) => in_range(c1x as int) && in_range(
            c1y as int,
        ) && in_range(c2x as int) && in_range(c2y as int) && in_range(x as int) && in_range(
            y as int,
        ),
        PathCommand::QuadTo(cx, cy, x, y) => in_range(cx as int) && in_range(cy as int) && in_range(
            x as int,
        ) && in_range(y as int),
        PathCommand::Close => true,
    }
}

/// All coordinates of a command sequence are in range.
pub open spec fn cmds_bounded(cs: Seq<PathCommand>) -> bool {
    forall|k: int| 0 <= k < cs.len() ==> cmd_bounded(#[trigger] cs[k])
}

/// A command sequence is well formed when it is empty or opens with a
/// `MoveTo`: no drawing or closing before a current point exists.
pub open spec fn cmds_wf(cs: Seq<PathCommand>) -> bool {
    cs.len() == 0 || cs[0] is MoveTo
}

} // verus!
