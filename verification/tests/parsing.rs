use matte_core::PathCommand;
use matte_core::fixed::fx_to_string;
use matte_core::flatten::flatten;
use matte_core::path::parse_path_data;
use matte_core::trace::{binarize, make_islands};

#[test]
fn parse_absolute_commands() {
    let cmds = parse_path_data("M 0 0 L 10 0 C 1 2 3 4 5 6 Q 7 8 9 10 Z").unwrap();
    assert_eq!(
        cmds,
        vec![
            PathCommand::MoveTo(0, 0),
            PathCommand::LineTo(10_000, 0),
            PathCommand::CubicTo(1_000, 2_000, 3_000, 4_000, 5_000, 6_000),
            PathCommand::QuadTo(7_000, 8_000, 9_000, 10_000),
            PathCommand::Close,
        ]
    );
}

#[test]
fn parse_relative_commands_become_absolute() {
    let cmds = parse_path_data("m 1 1 l 2 0 l 0 3 z").unwrap();
    assert_eq!(
        cmds,
        vec![
            PathCommand::MoveTo(1_000, 1_000),
            PathCommand::LineTo(3_000, 1_000),
            PathCommand::LineTo(3_000, 4_000),
            PathCommand::Close,
        ]
    );
}

#[test]
fn parse_decimal_and_negative_numbers() {
    let cmds = parse_path_data("M -1.5 0.25 L 2.125 -3").unwrap();
    assert_eq!(
        cmds,
        vec![PathCommand::MoveTo(-1_500, 250), PathCommand::LineTo(2_125, -3_000)]
    );
}

#[test]
fn parse_commas_as_separators() {
    let cmds = parse_path_data("M0,0 L10,0").unwrap();
    assert_eq!(cmds, vec![PathCommand::MoveTo(0, 0), PathCommand::LineTo(10_000, 0)]);
}

#[test]
fn parse_empty_path_is_empty() {
    assert_eq!(parse_path_data("").unwrap(), Vec::<PathCommand>::new());
}

#[test]
fn parse_unknown_letter_fails() {
    assert!(parse_path_data("M 0 0 X 1 1").is_err());
}

#[test]
fn parse_wrong_argument_count_fails() {
    assert!(parse_path_data("M 1").is_err());
    assert!(parse_path_data("M 1 2 3").is_err());
    assert!(parse_path_data("M 0 0 C 1 2 3 4 5").is_err());
}

#[test]
fn parse_non_numeric_token_fails() {
    assert!(parse_path_data("M a b").is_err());
    assert!(parse_path_data("M . 2").is_err());
    assert!(parse_path_data("M - 2").is_err());
}

#[test]
fn parse_bare_dot_forms() {
    let cmds = parse_path_data("M .5 5.").unwrap();
    assert_eq!(cmds, vec![PathCommand::MoveTo(500, 5_000)]);
    let cmds = parse_path_data("M -.25 -2.").unwrap();
    assert_eq!(cmds, vec![PathCommand::MoveTo(-250, -2_000)]);
}

#[test]
fn parse_exponent_form_fails() {
    assert!(parse_path_data("M 1e3 0").is_err());
}

#[test]
fn parse_draw_before_moveto_fails() {
    assert!(parse_path_data("L 1 1").is_err());
    assert!(parse_path_data("Z").is_err());
}

#[test]
fn parse_out_of_range_coordinate_fails() {
    assert!(parse_path_data("M 1000001 0").is_err());
    assert_eq!(
        parse_path_data("M 1000000 0").unwrap(),
        vec![PathCommand::MoveTo(1_000_000_000, 0)]
    );
}

#[test]
fn fixed_point_formatting() {
    assert_eq!(fx_to_string(0), "0");
    assert_eq!(fx_to_string(10_000), "10");
    assert_eq!(fx_to_string(100), "0.1");
    assert_eq!(fx_to_string(1), "0.001");
    assert_eq!(fx_to_string(-1_500), "-1.5");
    assert_eq!(fx_to_string(1_230), "1.23");
    assert_eq!(fx_to_string(12_345), "12.345");
}

#[test]
fn flatten_lines_and_close() {
    let cmds = parse_path_data("M 0 0 L 10 0 L 10 10 Z").unwrap();
    let polys = flatten(&cmds, 100);
    assert_eq!(polys.len(), 1);
    assert!(polys[0].closed);
    let pts: Vec<(i64, i64)> = polys[0].pts.iter().map(|p| (p.x, p.y)).collect();
    assert_eq!(pts, vec![(0, 0), (10_000, 0), (10_000, 10_000)]);
}

#[test]
fn flatten_single_moveto_is_dropped() {
    let cmds = parse_path_data("M 5 5").unwrap();
    let polys = flatten(&cmds, 100);
    assert_eq!(polys.len(), 0);
}

#[test]
fn flatten_open_run_is_flushed_at_end() {
    let cmds = parse_path_data("M 0 0 L 1 0 L 2 1").unwrap();
    let polys = flatten(&cmds, 100);
    assert_eq!(polys.len(), 1);
    assert!(!polys[0].closed);
    assert_eq!(polys[0].pts.len(), 3);
}

#[test]
fn flatten_moveto_flushes_pending_open_run() {
    let cmds = parse_path_data("M 0 0 L 1 0 M 2 2 L 3 2 Z").unwrap();
    let polys = flatten(&cmds, 100);
    assert_eq!(polys.len(), 2);
    assert!(!polys[0].closed);
    assert!(polys[1].closed);
}

#[test]
fn flatten_collinear_cubic_is_one_segment() {
    let cmds = parse_path_data("M 0 0 C 1 1 2 2 3 3").unwrap();
    let polys = flatten(&cmds, 100);
    assert_eq!(polys.len(), 1);
    let pts: Vec<(i64, i64)> = polys[0].pts.iter().map(|p| (p.x, p.y)).collect();
    assert_eq!(pts, vec![(0, 0), (3_000, 3_000)]);
}

#[test]
fn flatten_curved_cubic_subdivides_and_ends_at_endpoint() {
    let cmds = parse_path_data("M 0 0 C 0 100 100 100 100 0").unwrap();
    let polys = flatten(&cmds, 100);
    assert_eq!(polys.len(), 1);
    let pts = &polys[0].pts;
    assert!(pts.len() > 2);
    assert_eq!((pts[0].x, pts[0].y), (0, 0));
    let last = pts.last().unwrap();
    assert_eq!((last.x, last.y), (100_000, 0));
}

#[test]
fn flatten_quadratic_ends_at_endpoint() {
    let cmds = parse_path_data("M 0 0 Q 50 80 100 0").unwrap();
    let polys = flatten(&cmds, 100);
    assert_eq!(polys.len(), 1);
    let last = polys[0].pts.last().unwrap();
    assert_eq!((last.x, last.y), (100_000, 0));
    assert!(polys[0].pts.len() >= 2);
}

#[test]
fn flatten_finer_tolerance_never_drops_below_two_vertices() {
    let cmds = parse_path_data("M 0 0 C 0 100 100 100 100 0 Q 150 50 200 0 Z").unwrap();
    for tol in [1i64, 10, 100, 1_000, 10_000] {
        let polys = flatten(&cmds, tol);
        for p in &polys {
            assert!(p.pts.len() >= 2);
        }
    }
}

#[test]
fn binarize_threshold_splits_black_and_white() {
    let gray = vec![0u8, 127, 128, 255];
    let rgba = binarize(&gray, 128);
    assert_eq!(
        rgba,
        vec![0, 0, 0, 255, 0, 0, 0, 255, 255, 255, 255, 255, 255, 255, 255, 255]
    );
}

#[test]
fn make_islands_names_in_order() {
    let ds = vec!["M 0 0".to_string(), "M 1 1".to_string()];
    let islands = make_islands(&ds);
    assert_eq!(islands.len(), 2);
    assert_eq!(islands[0].id, "island_0");
    assert_eq!(islands[0].svg_path_data, "M 0 0");
    assert_eq!(islands[1].id, "island_1");
    assert_eq!(islands[1].svg_path_data, "M 1 1");
}
