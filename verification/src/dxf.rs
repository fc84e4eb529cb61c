//! DXF exporter: parses every island's path data, flattens it, applies one
//! fixed scale to every vertex, and writes the resulting polyline entities —
//! in island order, then polyline-discovery order — as a minimal DXF text
//! drawing with a single `ENTITIES` section, every entity on the `CUT`
//! layer.

use vstd::prelude::*;
use vstd::string::*;
use vstd::arithmetic::div_mod::{lemma_div_by_multiple, lemma_fundamental_div_mod};
use crate::fixed::{fx_str, dec_str, push_fx, push_dec};
use crate::model::{PathCommand, Pt, Polyline, PathIsland, ParseError, IslandModel, islands_views};
use crate::flatten::{
    PolyModel,
    flatten_spec,
    flatten,
    poly_ok,
    polys_ok,
    pt_in_range,
    lemma_flatten_vertex_floor,
    lemma_div_bounds,
    lemma_abs_mul,
};
use crate::path::{parse_path_spec, parse_path_data, lemma_parse_path_wf};

verus! {

/// Largest scale factor accepted, in thousandths: a factor of a thousand.
pub const SCALE_LIMIT: i64 = 1_000_000;

/// Largest magnitude of a scaled coordinate, in thousandths.
pub const SCALED_LIMIT: i64 = 2_000_000_000_000;

/// A coordinate times a fixed-point scale factor: `v * s / 1000` rounded
/// down (exact whenever the product divides evenly, see
/// [`lemma_scale_exact`]).
pub open spec fn scale_fx(v: int, s: int) -> int {
    (v * s + 1_000_000_000_000_000) / 1000 - 1_000_000_000_000
}

pub open spec fn scale_pt(p: Pt, s: int) -> Pt {
    Pt { x: scale_fx(p.x as int, s) as i64, y: scale_fx(p.y as int, s) as i64 }
}

/// A polyline with every vertex scaled; the closed flag and the vertex
/// count are untouched.
pub open spec fn scale_poly(p: PolyModel, s: int) -> PolyModel {
    PolyModel { pts: p.pts.map_values(|q: Pt| scale_pt(q, s)), closed: p.closed }
}

/// Entities of one island: its flattened polylines, each vertex scaled.
pub open spec fn island_entities(cs: Seq<PathCommand>, tol: int, s: int) -> Seq<PolyModel> {
    flatten_spec(cs, tol).map_values(|p: PolyModel| scale_poly(p, s))
}

/// Entities of the first `i` islands, in island order.
pub open spec fn doc_entities_to(css: Seq<Seq<PathCommand>>, tol: int, s: int, i: int) -> Seq<
    PolyModel,
>
    decreases i,
{
    if i <= 0 {
        Seq::empty()
    } else {
        doc_entities_to(css, tol, s, i - 1) + island_entities(css[i - 1], tol, s)
    }
}

/// Entities of a whole document, in island order then polyline-discovery
/// order within each island.
pub open spec fn doc_entities(css: Seq<Seq<PathCommand>>, tol: int, s: int) -> Seq<PolyModel> {
    doc_entities_to(css, tol, s, css.len() as int)
}

/// Command sequences of the first `i` islands, or `None` as soon as one
/// island's path data is malformed.
pub open spec fn parse_islands_to(islands: Seq<IslandModel>, i: int) -> Option<
    Seq<Seq<PathCommand>>,
>
    decreases i,
{
    if i <= 0 {
        Option::Some(Seq::empty())
    } else {
        match parse_islands_to(islands, i - 1) {
            Option::None => Option::None,
            Option::Some(css) => match parse_path_spec(islands[i - 1].d) {
                Option::None => Option::None,
                Option::Some(cs) => Option::Some(css.push(cs)),
            },
        }
    }
}

/// Command sequences of every island of the document.
pub open spec fn parse_islands_cmds(islands: Seq<IslandModel>) -> Option<Seq<Seq<PathCommand>>> {
    parse_islands_to(islands, islands.len() as int)
}

proof fn lemma_parse_islands_none_sticky(islands: Seq<IslandModel>, i: int, j: int)
    requires
        i <= j,
        parse_islands_to(islands, i) is None,
    ensures
        parse_islands_to(islands, j) is None,
    decreases j - i,
{
    if i < j {
        lemma_parse_islands_none_sticky(islands, i, j - 1);
    }
}

/// Scaling is exact where the product of the fixed-point values is itself
/// representable: the scaled coordinate times a thousand is exactly the
/// coordinate times the scale factor.
pub proof fn lemma_scale_exact(v: int, s: int)
    requires
        crate::model::in_range(v),
        0 <= s <= SCALE_LIMIT as int,
        (v * s) % 1000 == 0,
    ensures
        scale_fx(v, s) * 1000 == v * s,
{
    let m = v * s;
    lemma_abs_mul(v, s, 1_000_000_000, 1_000_000);
    lemma_fundamental_div_mod(m, 1000);
    let k = m / 1000;
    assert(m == 1000 * k);
    assert(k + 1_000_000_000_000 >= 0);
    assert(m + 1_000_000_000_000_000 == (k + 1_000_000_000_000) * 1000);
    lemma_div_by_multiple(k + 1_000_000_000_000, 1000);
}

proof fn lemma_scale_fx_range(v: int, s: int)
    requires
        crate::model::in_range(v),
        0 <= s <= SCALE_LIMIT as int,
    ensures
        -(SCALED_LIMIT as int) <= scale_fx(v, s) <= SCALED_LIMIT as int,
{
    lemma_abs_mul(v, s, 1_000_000_000, 1_000_000);
    lemma_div_bounds(v * s + 1_000_000_000_000_000, 1000, 0, 2_000_000_000_000);
}

/// Every vertex of the scaled polyline is within [`SCALED_LIMIT`].
pub open spec fn scaled_poly_ok(e: PolyModel) -> bool {
    &&& e.pts.len() >= 2
    &&& forall|t: int|
        0 <= t < e.pts.len() ==> -(SCALED_LIMIT as int) <= (#[trigger] e.pts[t]).x as int
            <= SCALED_LIMIT as int && -(SCALED_LIMIT as int) <= e.pts[t].y as int
            <= SCALED_LIMIT as int
}

fn scale_val(v: i64, s: i64) -> (r: i64)
    requires
        crate::model::in_range(v as int),
        0 <= s <= SCALE_LIMIT,
    ensures
        r as int == scale_fx(v as int, s as int),
        -SCALED_LIMIT <= r <= SCALED_LIMIT,
{
    proof {
        lemma_abs_mul(v as int, s as int, 1_000_000_000, 1_000_000);
        lemma_scale_fx_range(v as int, s as int);
        lemma_div_bounds(
            v as int * s as int + 1_000_000_000_000_000,
            1000,
            0,
            2_000_000_000_000,
        );
    }
    let prod: i64 = v * s;
    let t: i64 = prod + 1_000_000_000_000_000;
    let q: i64 = ((t as u64) / 1000) as i64;
    q - 1_000_000_000_000
}

fn scale_poly_e(p: &Polyline, s: i64) -> (r: Polyline)
    requires
        0 <= s <= SCALE_LIMIT,
        poly_ok(p@),
    ensures
        r@ == scale_poly(p@, s as int),
        scaled_poly_ok(r@),
{
    let mut pts: Vec<Pt> = Vec::new();
    let n = p.pts.len();
    let mut i: usize = 0;
    while i < n
        invariant
            n == p.pts@.len(),
            i <= n,
            0 <= s <= SCALE_LIMIT,
            poly_ok(p@),
            pts@ == p.pts@.subrange(0, i as int).map_values(|q: Pt| scale_pt(q, s as int)),
            forall|t: int|
                0 <= t < pts@.len() ==> -SCALED_LIMIT <= (#[trigger] pts@[t]).x <= SCALED_LIMIT
                    && -SCALED_LIMIT <= pts@[t].y <= SCALED_LIMIT,
        decreases n - i,
    {
        let q = p.pts[i];
        assert(pt_in_range(p@.pts[i as int]));
        let sp = Pt { x: scale_val(q.x, s), y: scale_val(q.y, s) };
        pts.push(sp);
        proof {
            assert(pts@ =~= p.pts@.subrange(0, i as int + 1).map_values(
                |q: Pt| scale_pt(q, s as int),
            ));
        }
        i = i + 1;
    }
    proof {
        assert(p.pts@.subrange(0, n as int) =~= p.pts@);
    }
    Polyline { pts: pts, closed: p.closed }
}

/// Group/value lines of one vertex.
pub open spec fn dxf_vertex_text(p: Pt) -> Seq<char> {
    " 10\n"@ + fx_str(p.x as int) + "\n 20\n"@ + fx_str(p.y as int) + "\n"@
}

/// Vertex lines of the first `i` vertices.
pub open spec fn dxf_vertices_to(pts: Seq<Pt>, i: int) -> Seq<char>
    decreases i,
{
    if i <= 0 {
        Seq::empty()
    } else {
        dxf_vertices_to(pts, i - 1) + dxf_vertex_text(pts[i - 1])
    }
}

/// One `LWPOLYLINE` entity on layer `CUT`: vertex count, closed flag, then
/// the vertices in order.
pub open spec fn dxf_entity_text(e: PolyModel) -> Seq<char> {
    "  0\nLWPOLYLINE\n  8\nCUT\n 90\n"@ + dec_str(e.pts.len() as int) + "\n 70\n"@ + (if e.closed {
        "1"@
    } else {
        "0"@
    }) + "\n"@ + dxf_vertices_to(e.pts, e.pts.len() as int)
}

/// Entity blocks of the first `i` entities.
pub open spec fn dxf_entities_to(es: Seq<PolyModel>, i: int) -> Seq<char>
    decreases i,
{
    if i <= 0 {
        Seq::empty()
    } else {
        dxf_entities_to(es, i - 1) + dxf_entity_text(es[i - 1])
    }
}

/// The whole drawing: a minimal `HEADER` section naming the drawing
/// version (`AC1015`, the first with lightweight polylines), then one
/// `ENTITIES` section holding the entities in order, then end-of-file.
pub open spec fn dxf_doc(es: Seq<PolyModel>) -> Seq<char> {
    "  0\nSECTION\n  2\nHEADER\n  9\n$ACADVER\n  1\nAC1015\n  0\nENDSEC\n  0\nSECTION\n  2\nENTITIES\n"@
        + dxf_entities_to(es, es.len() as int) + "  0\nENDSEC\n  0\nEOF\n"@
}

fn push_entity(s: &mut String, e: &Polyline)
    requires
        scaled_poly_ok(e@),
    ensures
        final(s)@ == old(s)@ + dxf_entity_text(e@),
{
    let ghost start = s@;
    s.append("  0\nLWPOLYLINE\n  8\nCUT\n 90\n");
    push_dec(s, e.pts.len() as u64);
    s.append("\n 70\n");
    if e.closed {
        s.append("1");
    } else {
        s.append("0");
    }
    s.append("\n");
    let ghost mid = s@;
    let n = e.pts.len();
    let mut i: usize = 0;
    while i < n
        invariant
            n == e.pts@.len(),
            i <= n,
            scaled_poly_ok(e@),
            s@ == mid + dxf_vertices_to(e.pts@, i as int),
        decreases n - i,
    {
        let p = e.pts[i];
        s.append(" 10\n");
        push_fx(s, p.x);
        s.append("\n 20\n");
        push_fx(s, p.y);
        s.append("\n");
        proof {
            assert(s@ =~= mid + dxf_vertices_to(e.pts@, i as int + 1));
        }
        i = i + 1;
    }
    proof {
        assert(s@ =~= start + dxf_entity_text(e@));
    }
}

/// Serializes islands to a DXF drawing: each island's path data is parsed
/// and flattened within `tol`, every vertex is multiplied by `scale`, and
/// each polyline becomes one closed or open `LWPOLYLINE` entity on layer
/// `CUT`. Fails exactly when some island's path data is malformed; an
/// island that flattens to nothing contributes no entities and no error.
pub fn to_dxf(islands: &Vec<PathIsland>, tol: i64, scale: i64) -> (r: Result<String, ParseError>)
    requires
        1 <= tol <= crate::COORD_LIMIT,
        0 <= scale <= SCALE_LIMIT,
    ensures
        r is Err <==> parse_islands_cmds(islands_views(islands@)) is None,
        r matches Err(e) ==> e.detail@ == "malformed path data"@,
        parse_islands_cmds(islands_views(islands@)) matches Some(css) ==> (r matches Ok(s) && s@
            == dxf_doc(doc_entities(css, tol as int, scale as int))),
{
    let mut ents: Vec<Polyline> = Vec::new();
    let ghost mut css: Seq<Seq<PathCommand>> = Seq::empty();
    let n = islands.len();
    let mut i: usize = 0;
    while i < n
        invariant
            n == islands@.len(),
            i <= n,
            1 <= tol <= crate::COORD_LIMIT,
            0 <= scale <= SCALE_LIMIT,
            css.len() == i,
            parse_islands_to(islands_views(islands@), i as int) == Option::Some(css),
            ents@.map_values(|p: Polyline| p@) == doc_entities_to(
                css,
                tol as int,
                scale as int,
                i as int,
            ),
            forall|k: int| 0 <= k < ents@.len() ==> scaled_poly_ok(#[trigger] ents@[k]@),
        decreases n - i,
    {
        let ghost pre_css = css;
        let ghost pre_map = ents@.map_values(|p: Polyline| p@);
        let island = &islands[i];
        proof {
            assert(islands_views(islands@)[i as int] == islands@[i as int]@);
        }
        let cmds = match parse_path_data(island.svg_path_data.as_str()) {
            Result::Ok(cmds) => cmds,
            Result::Err(e) => {
                proof {
                    lemma_parse_islands_none_sticky(
                        islands_views(islands@),
                        i as int + 1,
                        islands_views(islands@).len() as int,
                    );
                }
                return Result::Err(e);
            },
        };
        proof {
            lemma_parse_path_wf(island.svg_path_data@);
            css = css.push(cmds@);
        }
        let polys = flatten(&cmds, tol);
        proof {
            lemma_flatten_vertex_floor(cmds@, tol as int);
        }
        let m = polys.len();
        let mut j: usize = 0;
        while j < m
            invariant
                m == polys@.len(),
                j <= m,
                0 <= scale <= SCALE_LIMIT,
                polys@.map_values(|p: Polyline| p@) == flatten_spec(css.last(), tol as int),
                polys_ok(flatten_spec(css.last(), tol as int)),
                ents@.map_values(|p: Polyline| p@) == pre_map + flatten_spec(
                    css.last(),
                    tol as int,
                ).subrange(0, j as int).map_values(|p: PolyModel| scale_poly(p, scale as int)),
                forall|k: int| 0 <= k < ents@.len() ==> scaled_poly_ok(#[trigger] ents@[k]@),
            decreases m - j,
        {
            assert(polys@[j as int]@ == flatten_spec(css.last(), tol as int)[j as int]);
            assert(poly_ok(polys@[j as int]@));
            let ghost ents_pre = ents@;
            let scaled = scale_poly_e(&polys[j], scale);
            proof {
                assert(scaled@ == scale_poly(flatten_spec(css.last(), tol as int)[j as int],
                    scale as int));
            }
            ents.push(scaled);
            proof {
                let fl = flatten_spec(css.last(), tol as int);
                assert(fl.subrange(0, j as int + 1) =~= fl.subrange(0, j as int).push(
                    fl[j as int]));
                assert(fl.subrange(0, j as int + 1).map_values(
                    |p: PolyModel| scale_poly(p, scale as int),
                ) =~= fl.subrange(0, j as int).map_values(
                    |p: PolyModel| scale_poly(p, scale as int),
                ).push(scale_poly(fl[j as int], scale as int)));
                assert(ents@.map_values(|p: Polyline| p@) =~= ents_pre.map_values(
                    |p: Polyline| p@,
                ).push(scaled@));
                assert(ents@.map_values(|p: Polyline| p@) =~= pre_map + fl.subrange(
                    0,
                    j as int + 1,
                ).map_values(|p: PolyModel| scale_poly(p, scale as int)));
            }
            j = j + 1;
        }
        proof {
            let fl = flatten_spec(css.last(), tol as int);
            assert(fl.subrange(0, fl.len() as int) =~= fl);
            assert(island_entities(css.last(), tol as int, scale as int) == fl.map_values(
                |p: PolyModel| scale_poly(p, scale as int),
            ));
            lemma_doc_entities_to_agree(pre_css, css, tol as int, scale as int, i as int);
            assert(css[i as int] == css.last());
            assert(doc_entities_to(css, tol as int, scale as int, i as int + 1)
                == doc_entities_to(css, tol as int, scale as int, i as int) + island_entities(
                css[i as int],
                tol as int,
                scale as int,
            ));
            assert(ents@.map_values(|p: Polyline| p@) =~= doc_entities_to(
                css,
                tol as int,
                scale as int,
                i as int + 1,
            ));
        }
        i = i + 1;
    }
    let mut s = String::new();
    s.append(
        "  0\nSECTION\n  2\nHEADER\n  9\n$ACADVER\n  1\nAC1015\n  0\nENDSEC\n  0\nSECTION\n  2\nENTITIES\n",
    );
    let ghost mid = s@;
    let ghost es = ents@.map_values(|p: Polyline| p@);
    let m = ents.len();
    let mut j: usize = 0;
    while j < m
        invariant
            m == ents@.len(),
            es == ents@.map_values(|p: Polyline| p@),
            j <= m,
            forall|k: int| 0 <= k < ents@.len() ==> scaled_poly_ok(#[trigger] ents@[k]@),
            s@ == mid + dxf_entities_to(es, j as int),
        decreases m - j,
    {
        push_entity(&mut s, &ents[j]);
        proof {
            assert(s@ =~= mid + dxf_entities_to(es, j as int + 1));
        }
        j = j + 1;
    }
    s.append("  0\nENDSEC\n  0\nEOF\n");
    proof {
        assert(s@ =~= dxf_doc(doc_entities(css, tol as int, scale as int)));
    }
    Result::Ok(s)
}

proof fn lemma_doc_entities_to_agree(
    s1: Seq<Seq<PathCommand>>,
    s2: Seq<Seq<PathCommand>>,
    tol: int,
    s: int,
    i: int,
)
    requires
        i <= s1.len(),
        i <= s2.len(),
        forall|k: int| 0 <= k < i ==> s1[k] == s2[k],
    ensures
        doc_entities_to(s1, tol, s, i) == doc_entities_to(s2, tol, s, i),
    decreases i,
{
    if i > 0 {
        lemma_doc_entities_to_agree(s1, s2, tol, s, i - 1);
    }
}

/// Island order is preserved: the entities of a concatenated island list
/// are the entities of its parts, concatenated in order.
pub proof fn lemma_doc_entities_append(a: Seq<Seq<PathCommand>>, b: Seq<Seq<PathCommand>>, tol: int, s: int)
    ensures
        doc_entities(a + b, tol, s) == doc_entities(a, tol, s) + doc_entities(b, tol, s),
    decreases b.len(),
{
    if b.len() == 0 {
        assert(a + b =~= a);
        lemma_doc_entities_to_agree(a + b, a, tol, s, a.len() as int);
    } else {
        let b2 = b.drop_last();
        lemma_doc_entities_append(a, b2, tol, s);
        lemma_doc_entities_to_agree(a + b, a + b2, tol, s, a.len() + b.len() - 1);
        lemma_doc_entities_to_agree(b, b2, tol, s, b.len() as int - 1);
        assert((a + b)[a.len() + b.len() - 1] == b[b.len() - 1]);
        assert(doc_entities(a + b, tol, s) =~= doc_entities(a, tol, s) + doc_entities(b, tol, s));
    }
}

proof fn lemma_doc_entities_floor_to(css: Seq<Seq<PathCommand>>, tol: int, s: int, i: int)
    requires
        forall|k: int| 0 <= k < css.len() ==> crate::model::cmds_bounded(#[trigger] css[k]),
        i <= css.len(),
    ensures
        forall|k: int|
            0 <= k < doc_entities_to(css, tol, s, i).len() ==> (#[trigger] doc_entities_to(
                css,
                tol,
                s,
                i,
            )[k]).pts.len() >= 2,
    decreases i,
{
    if i > 0 {
        lemma_doc_entities_floor_to(css, tol, s, i - 1);
        lemma_flatten_vertex_floor(css[i - 1], tol);
        let prev = doc_entities_to(css, tol, s, i - 1);
        let here = island_entities(css[i - 1], tol, s);
        let fl = flatten_spec(css[i - 1], tol);
        assert forall|k: int|
            0 <= k < doc_entities_to(css, tol, s, i).len() implies (#[trigger] doc_entities_to(
            css,
            tol,
            s,
            i,
        )[k]).pts.len() >= 2 by {
            if k < prev.len() {
                assert(doc_entities_to(css, tol, s, i)[k] == prev[k]);
            } else {
                assert(doc_entities_to(css, tol, s, i)[k] == here[k - prev.len()]);
                assert(here[k - prev.len()] == scale_poly(fl[k - prev.len()], s));
                assert(poly_ok(fl[k - prev.len()]));
            }
        }
    }
}

/// No emitted entity has fewer than two vertices: scaling does not change
/// a vertex count, and the flattener drops the degenerate runs before they
/// become entities.
pub proof fn lemma_dxf_vertex_floor(css: Seq<Seq<PathCommand>>, tol: int, s: int)
    requires
        forall|k: int| 0 <= k < css.len() ==> crate::model::cmds_bounded(#[trigger] css[k]),
    ensures
        forall|k: int|
            0 <= k < doc_entities(css, tol, s).len() ==> (#[trigger] doc_entities(
                css,
                tol,
                s,
            )[k]).pts.len() >= 2,
{
    lemma_doc_entities_floor_to(css, tol, s, css.len() as int);
}

} // verus!
