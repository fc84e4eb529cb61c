//! Compute side of the tracing step: binarizing a grayscale buffer for the
//! vectorizer, and turning the path data the vectorizer hands back into a
//! named island list. Decoding image bytes and running the vectorizer are
//! collaborators outside this library; they exchange plain values with it.

use vstd::prelude::*;
use vstd::string::*;
use crate::fixed::dec_str;
use crate::model::{PathIsland, IslandModel, islands_views};
use crate::json::{serialize_islands, ser_islands};

verus! {

/// One binarized pixel as RGBA: pure black below the threshold, pure white
/// at or above it, opaque either way.
pub open spec fn bin_px(p: u8, threshold: u8) -> Seq<u8> {
    if p < threshold {
        seq![0u8, 0u8, 0u8, 255u8]
    } else {
        seq![255u8, 255u8, 255u8, 255u8]
    }
}

/// RGBA expansion of the first `i` grayscale pixels.
pub open spec fn bin_to(gray: Seq<u8>, threshold: u8, i: int) -> Seq<u8>
    decreases i,
{
    if i <= 0 {
        Seq::empty()
    } else {
        bin_to(gray, threshold, i - 1) + bin_px(gray[i - 1], threshold)
    }
}

/// The whole buffer binarized.
pub open spec fn binarize_spec(gray: Seq<u8>, threshold: u8) -> Seq<u8> {
    bin_to(gray, threshold, gray.len() as int)
}

/// Expands a grayscale pixel buffer into a black-and-white RGBA buffer: a
/// pixel below `threshold` turns black, any other white, per
/// [`binarize_spec`].
pub fn binarize(gray: &Vec<u8>, threshold: u8) -> (r: Vec<u8>)
    requires
        gray@.len() * 4 <= usize::MAX,
    ensures
        r@ == binarize_spec(gray@, threshold),
        r@.len() == gray@.len() * 4,
{
    let mut out: Vec<u8> = Vec::new();
    let n = gray.len();
    let mut i: usize = 0;
    while i < n
        invariant
            n == gray@.len(),
            i <= n,
            n * 4 <= usize::MAX,
            out@ == bin_to(gray@, threshold, i as int),
            out@.len() == i * 4,
        decreases n - i,
    {
        let v: u8 = if gray[i] < threshold {
            0
        } else {
            255
        };
        out.push(v);
        out.push(v);
        out.push(v);
        out.push(255);
        proof {
            assert(out@ =~= bin_to(gray@, threshold, i as int + 1));
        }
        i = i + 1;
    }
    out
}

/// The island name for position `i`: `island_` and the decimal index.
pub open spec fn island_id(i: int) -> Seq<char> {
    "island_"@ + dec_str(i)
}

/// The islands made of the first `i` path-data strings, in order, each
/// under its positional name.
pub open spec fn mk_islands_to(ds: Seq<Seq<char>>, i: int) -> Seq<IslandModel>
    decreases i,
{
    if i <= 0 {
        Seq::empty()
    } else {
        mk_islands_to(ds, i - 1).push(IslandModel { id: island_id(i - 1), d: ds[i - 1] })
    }
}

/// The whole island list made of the path-data strings.
pub open spec fn mk_islands_spec(ds: Seq<Seq<char>>) -> Seq<IslandModel> {
    mk_islands_to(ds, ds.len() as int)
}

/// Views of a string sequence.
pub open spec fn strs_views(ds: Seq<String>) -> Seq<Seq<char>> {
    ds.map_values(|s: String| s@)
}

/// Wraps path-data strings as islands named `island_0`, `island_1`, ... in
/// input order, per [`mk_islands_spec`].
pub fn make_islands(ds: &Vec<String>) -> (r: Vec<PathIsland>)
    ensures
        islands_views(r@) == mk_islands_spec(strs_views(ds@)),
{
    let mut out: Vec<PathIsland> = Vec::new();
    let n = ds.len();
    let mut i: usize = 0;
    while i < n
        invariant
            n == ds@.len(),
            i <= n,
            islands_views(out@) == mk_islands_to(strs_views(ds@), i as int),
        decreases n - i,
    {
        let mut id = String::new();
        proof {
            reveal_strlit("island_");
        }
        id.append("island_");
        crate::fixed::push_dec(&mut id, i as u64);
        let isl = PathIsland { id: id, svg_path_data: ds[i].clone() };
        let ghost iv = isl@;
        out.push(isl);
        proof {
            assert(iv.id =~= island_id(i as int));
            assert(strs_views(ds@)[i as int] == ds@[i as int]@);
            assert(islands_views(out@) =~= mk_islands_to(strs_views(ds@), i as int + 1));
        }
        i = i + 1;
    }
    out
}

/// Wraps path-data strings as a named island list and serializes it as the
/// interchange JSON, ready to persist.
pub fn islands_to_json(ds: &Vec<String>) -> (s: String)
    ensures
        s@ == ser_islands(mk_islands_spec(strs_views(ds@))),
{
    let islands = make_islands(ds);
    serialize_islands(&islands)
}

} // verus!
