//! Vector path export library: a fixed-point path command model with a curve
//! flattener, an SVG exporter, a DXF exporter and a JSON island codec.

use vstd::prelude::*;

pub mod fixed;
pub mod model;
pub mod path;
pub mod flatten;
pub mod svg;
pub mod dxf;
pub mod json;
pub mod trace;

pub use model::{PathIsland, PathCommand, Pt, Polyline, ParseError};

verus! {

/// Coordinates are fixed-point numbers: an `i64` counting thousandths of a
/// coordinate unit, so `1500` stands for `1.5`.
pub const FX_ONE: i64 = 1000;

/// Largest coordinate magnitude the library accepts, in thousandths
/// (one million coordinate units): keeps the flattener's squared cross
/// products inside `i128`.
pub const COORD_LIMIT: i64 = 1_000_000_000;

/// The cutting exporter's fixed scale, in thousandths: every vertex is
/// multiplied by a hundredth.
pub const FLETCHER_SCALE: i64 = 10;

/// The cutting exporter's flattening tolerance, in thousandths: a tenth of
/// a coordinate unit.
pub const FLETCHER_TOLERANCE: i64 = 100;

/// Renders a persisted island-list JSON text as an SVG document with one
/// `<path>` element per island, in input order, under the even-odd fill
/// rule, with the viewport `0 0 width height`. Fails exactly when the JSON
/// is malformed.
pub fn export_to_svg_core(paths_json: &str, width: i64, height: i64) -> (r: Result<
    String,
    ParseError,
>)
    requires
        -crate::fixed::FX_LIMIT <= width <= crate::fixed::FX_LIMIT,
        -crate::fixed::FX_LIMIT <= height <= crate::fixed::FX_LIMIT,
    ensures
        r is Err <==> crate::json::parse_islands_spec(paths_json@) is None,
        r matches Err(e) ==> e.detail@ == "malformed island JSON"@,
        crate::json::parse_islands_spec(paths_json@) matches Some(views) ==> (r matches Ok(s) && s@
            == crate::svg::svg_doc(views, width as int, height as int)),
{
    let islands = match crate::json::parse_islands(paths_json) {
        Result::Ok(v) => v,
        Result::Err(e) => {
            return Result::Err(e);
        },
    };
    Result::Ok(crate::svg::to_svg(&islands, width, height))
}

/// Renders a persisted island-list JSON text as a DXF drawing for the
/// cutter: each island's path data is parsed and flattened within
/// [`FLETCHER_TOLERANCE`], every vertex is multiplied by
/// [`FLETCHER_SCALE`], and each contour run becomes one polyline entity on
/// layer `CUT`, in island order. Fails exactly when the JSON or some
/// island's path data is malformed.
pub fn export_to_fletcher_dxf_core(paths_json: &str) -> (r: Result<String, ParseError>)
    ensures
        crate::json::parse_islands_spec(paths_json@) is None ==> r is Err,
        r matches Err(e) ==> e.detail@ == (if crate::json::parse_islands_spec(paths_json@)
            is None {
            "malformed island JSON"@
        } else {
            "malformed path data"@
        }),
        crate::json::parse_islands_spec(paths_json@) matches Some(views) ==> {
            &&& (r is Err <==> crate::dxf::parse_islands_cmds(views) is None)
            &&& (crate::dxf::parse_islands_cmds(views) matches Some(css) ==> (r matches Ok(s) && s@
                == crate::dxf::dxf_doc(
                crate::dxf::doc_entities(
                    css,
                    FLETCHER_TOLERANCE as int,
                    FLETCHER_SCALE as int,
                ),
            )))
        },
{
    let islands = match crate::json::parse_islands(paths_json) {
        Result::Ok(v) => v,
        Result::Err(e) => {
            return Result::Err(e);
        },
    };
    crate::dxf::to_dxf(&islands, FLETCHER_TOLERANCE, FLETCHER_SCALE)
}

} // verus!
