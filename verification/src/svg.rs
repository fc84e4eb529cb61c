//! SVG exporter: serializes islands into one SVG document under the
//! even-odd fill rule, either one `<path>` element per island or all islands
//! merged into a single `<path>`'s data. Curves are emitted verbatim; the
//! numeric viewport bounds use fixed-point decimal formatting, never
//! scientific notation.

use vstd::prelude::*;
use vstd::string::*;
use crate::fixed::{fx_str, push_fx, FX_LIMIT};
use crate::model::{PathIsland, IslandModel, islands_views};

verus! {

/// The `<path>` element of one island: its id, its path data verbatim,
/// black even-odd fill, no stroke.
pub open spec fn svg_path_elem(island: IslandModel) -> Seq<char> {
    "  <path id=\""@ + island.id + "\" d=\""@ + island.d
        + "\" fill=\"#000000\" fill-rule=\"evenodd\" stroke=\"none\" />\n"@
}

/// Path elements of the first `i` islands, in island order.
pub open spec fn svg_body_to(islands: Seq<IslandModel>, i: int) -> Seq<char>
    decreases i,
{
    if i <= 0 {
        Seq::empty()
    } else {
        svg_body_to(islands, i - 1) + svg_path_elem(islands[i - 1])
    }
}

/// Path elements of all islands, in island order.
pub open spec fn svg_body(islands: Seq<IslandModel>) -> Seq<char> {
    svg_body_to(islands, islands.len() as int)
}

/// Document open tag with the viewport `0 0 w h`.
pub open spec fn svg_header(w: int, h: int) -> Seq<char> {
    "<svg viewBox=\"0 0 "@ + fx_str(w) + " "@ + fx_str(h)
        + "\" xmlns=\"http://www.w3.org/2000/svg\">\n"@
}

/// The whole per-island-mode document.
pub open spec fn svg_doc(islands: Seq<IslandModel>, w: int, h: int) -> Seq<char> {
    svg_header(w, h) + svg_body(islands) + "</svg>"@
}

/// Merged path data: every island's data in order, each followed by one
/// blank.
pub open spec fn merged_d_to(islands: Seq<IslandModel>, i: int) -> Seq<char>
    decreases i,
{
    if i <= 0 {
        Seq::empty()
    } else {
        merged_d_to(islands, i - 1) + islands[i - 1].d + " "@
    }
}

pub open spec fn merged_d(islands: Seq<IslandModel>) -> Seq<char> {
    merged_d_to(islands, islands.len() as int)
}

/// The whole merged-mode document: one `<path>` holding every island's
/// data, one even-odd fill across all of them.
pub open spec fn svg_merged_doc(islands: Seq<IslandModel>, w: int, h: int) -> Seq<char> {
    svg_header(w, h) + "  <path d=\""@ + merged_d(islands)
        + "\" fill=\"#000000\" fill-rule=\"evenodd\" stroke=\"none\" />\n"@ + "</svg>"@
}

proof fn lemma_svg_body_to_agree(s1: Seq<IslandModel>, s2: Seq<IslandModel>, i: int)
    requires
        i <= s1.len(),
        i <= s2.len(),
        forall|k: int| 0 <= k < i ==> s1[k] == s2[k],
    ensures
        svg_body_to(s1, i) == svg_body_to(s2, i),
    decreases i,
{
    if i > 0 {
        lemma_svg_body_to_agree(s1, s2, i - 1);
    }
}

/// Island order is preserved: the body of a concatenated island list is the
/// concatenation of the bodies, so each island's `<path>` element stands at
/// the position its input position dictates.
pub proof fn lemma_svg_body_append(a: Seq<IslandModel>, b: Seq<IslandModel>)
    ensures
        svg_body(a + b) == svg_body(a) + svg_body(b),
    decreases b.len(),
{
    if b.len() == 0 {
        assert(a + b =~= a);
        lemma_svg_body_to_agree(a + b, a, a.len() as int);
    } else {
        let b2 = b.drop_last();
        lemma_svg_body_append(a, b2);
        assert((a + b).len() as int - 1 == a.len() + b.len() - 1);
        assert((a + b2).len() as int == a.len() + b.len() - 1);
        lemma_svg_body_to_agree(a + b, a + b2, a.len() + b.len() - 1);
        assert(svg_body_to(b, b.len() as int) == svg_body_to(b, b.len() as int - 1)
            + svg_path_elem(b[b.len() - 1]));
        lemma_svg_body_to_agree(b, b2, b.len() as int - 1);
        assert((a + b)[a.len() + b.len() - 1] == b[b.len() - 1]);
        assert(svg_body(a + b) =~= svg_body(a) + svg_body(b));
    }
}

fn push_path_elem(s: &mut String, island: &PathIsland)
    ensures
        final(s)@ == old(s)@ + svg_path_elem(island@),
{
    let ghost start = s@;
    s.append("  <path id=\"");
    s.append(island.id.as_str());
    s.append("\" d=\"");
    s.append(island.svg_path_data.as_str());
    s.append("\" fill=\"#000000\" fill-rule=\"evenodd\" stroke=\"none\" />\n");
    proof {
        assert(s@ =~= start + svg_path_elem(island@));
    }
}

fn push_header(s: &mut String, width: i64, height: i64)
    requires
        -FX_LIMIT <= width <= FX_LIMIT,
        -FX_LIMIT <= height <= FX_LIMIT,
    ensures
        final(s)@ == old(s)@ + svg_header(width as int, height as int),
{
    let ghost start = s@;
    s.append("<svg viewBox=\"0 0 ");
    push_fx(s, width);
    s.append(" ");
    push_fx(s, height);
    s.append("\" xmlns=\"http://www.w3.org/2000/svg\">\n");
    proof {
        assert(s@ =~= start + svg_header(width as int, height as int));
    }
}

/// Serializes the islands as one SVG document, one `<path>` element per
/// island in input order, per [`svg_doc`].
pub fn to_svg(islands: &Vec<PathIsland>, width: i64, height: i64) -> (s: String)
    requires
        -FX_LIMIT <= width <= FX_LIMIT,
        -FX_LIMIT <= height <= FX_LIMIT,
    ensures
        s@ == svg_doc(islands_views(islands@), width as int, height as int),
{
    let mut s = String::new();
    push_header(&mut s, width, height);
    let n = islands.len();
    let mut i: usize = 0;
    while i < n
        invariant
            n == islands@.len(),
            i <= n,
            -FX_LIMIT <= width <= FX_LIMIT,
            -FX_LIMIT <= height <= FX_LIMIT,
            s@ == svg_header(width as int, height as int) + svg_body_to(
                islands_views(islands@),
                i as int,
            ),
        decreases n - i,
    {
        push_path_elem(&mut s, &islands[i]);
        proof {
            assert(islands_views(islands@)[i as int] == islands@[i as int]@);
            assert(s@ =~= svg_header(width as int, height as int) + svg_body_to(
                islands_views(islands@),
                i as int + 1,
            ));
        }
        i = i + 1;
    }
    s.append("</svg>");
    proof {
        assert(s@ =~= svg_doc(islands_views(islands@), width as int, height as int));
    }
    s
}

/// Serializes the islands as one SVG document whose single `<path>` merges
/// every island's data, hierarchy resolved purely by the even-odd rule, per
/// [`svg_merged_doc`].
pub fn to_svg_merged(islands: &Vec<PathIsland>, width: i64, height: i64) -> (s: String)
    requires
        -FX_LIMIT <= width <= FX_LIMIT,
        -FX_LIMIT <= height <= FX_LIMIT,
    ensures
        s@ == svg_merged_doc(islands_views(islands@), width as int, height as int),
{
    let mut s = String::new();
    push_header(&mut s, width, height);
    s.append("  <path d=\"");
    let ghost mid = s@;
    let n = islands.len();
    let mut i: usize = 0;
    while i < n
        invariant
            n == islands@.len(),
            i <= n,
            s@ == mid + merged_d_to(islands_views(islands@), i as int),
        decreases n - i,
    {
        s.append(islands[i].svg_path_data.as_str());
        s.append(" ");
        proof {
            assert(islands_views(islands@)[i as int] == islands@[i as int]@);
            assert(s@ =~= mid + merged_d_to(islands_views(islands@), i as int + 1));
        }
        i = i + 1;
    }
    s.append("\" fill=\"#000000\" fill-rule=\"evenodd\" stroke=\"none\" />\n");
    s.append("</svg>");
    proof {
        assert(s@ =~= svg_merged_doc(islands_views(islands@), width as int, height as int));
    }
    s
}

} // verus!
