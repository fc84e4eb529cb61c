use matte_core::{export_to_fletcher_dxf_core, export_to_svg_core, PathIsland};
use matte_core::svg::{to_svg, to_svg_merged};

fn island(id: &str, d: &str) -> PathIsland {
    PathIsland { id: id.to_string(), svg_path_data: d.to_string() }
}

#[test]
fn svg_square_island() {
    let json = r#"[{"id":"island_0","svg_path_data":"M 0 0 L 10 0 L 10 10 L 0 10 Z"}]"#;
    let svg = export_to_svg_core(json, 10_000, 10_000).unwrap();
    let expected = "<svg viewBox=\"0 0 10 10\" xmlns=\"http://www.w3.org/2000/svg\">\n  <path id=\"island_0\" d=\"M 0 0 L 10 0 L 10 10 L 0 10 Z\" fill=\"#000000\" fill-rule=\"evenodd\" stroke=\"none\" />\n</svg>";
    assert_eq!(svg, expected);
    assert!(svg.contains("d=\"M 0 0 L 10 0 L 10 10 L 0 10 Z\""));
    assert!(svg.contains("fill-rule=\"evenodd\""));
    assert_eq!(svg.matches("<path").count(), 1);
}

#[test]
fn svg_is_well_formed_xml_and_keeps_order() {
    let islands = vec![
        island("outer", "M 0 0 L 10 0 L 10 10 L 0 10 Z"),
        island("hole", "M 2 2 L 8 2 L 8 8 L 2 8 Z"),
        island("dot", "M 4 4 L 5 4 L 5 5 Z"),
    ];
    let svg = to_svg(&islands, 10_000, 10_000);
    let doc = roxmltree::Document::parse(&svg).unwrap();
    let ids: Vec<&str> = doc
        .descendants()
        .filter(|n| n.has_tag_name("path"))
        .map(|n| n.attribute("id").unwrap())
        .collect();
    assert_eq!(ids, vec!["outer", "hole", "dot"]);
    for node in doc.descendants().filter(|n| n.has_tag_name("path")) {
        assert_eq!(node.attribute("fill-rule"), Some("evenodd"));
        assert_eq!(node.attribute("stroke"), Some("none"));
        assert_eq!(node.attribute("fill"), Some("#000000"));
    }
}

#[test]
fn svg_merged_mode_concatenates_data() {
    let islands = vec![island("a", "M 0 0 L 1 0 Z"), island("b", "M 2 2 L 3 2 Z")];
    let svg = to_svg_merged(&islands, 4_000, 4_000);
    let doc = roxmltree::Document::parse(&svg).unwrap();
    let paths: Vec<_> = doc.descendants().filter(|n| n.has_tag_name("path")).collect();
    assert_eq!(paths.len(), 1);
    assert_eq!(paths[0].attribute("d"), Some("M 0 0 L 1 0 Z M 2 2 L 3 2 Z "));
    assert_eq!(paths[0].attribute("fill-rule"), Some("evenodd"));
}

#[test]
fn svg_viewport_uses_fixed_point_decimal() {
    let islands: Vec<PathIsland> = Vec::new();
    let svg = to_svg(&islands, 12_500, 600);
    assert!(svg.starts_with("<svg viewBox=\"0 0 12.5 0.6\""));
}

#[test]
fn dxf_square_island_scaled() {
    let json = r#"[{"id":"island_0","svg_path_data":"M 0 0 L 10 0 L 10 10 L 0 10 Z"}]"#;
    let dxf = export_to_fletcher_dxf_core(json).unwrap();
    let expected = "  0\nSECTION\n  2\nHEADER\n  9\n$ACADVER\n  1\nAC1015\n  0\nENDSEC\n  0\nSECTION\n  2\nENTITIES\n  0\nLWPOLYLINE\n  8\nCUT\n 90\n4\n 70\n1\n 10\n0\n 20\n0\n 10\n0.1\n 20\n0\n 10\n0.1\n 20\n0.1\n 10\n0\n 20\n0.1\n  0\nENDSEC\n  0\nEOF\n";
    assert_eq!(dxf, expected);
    assert_eq!(dxf.matches("LWPOLYLINE").count(), 1);
    assert_eq!(dxf.matches("CUT").count(), 1);
}

#[test]
fn dxf_single_moveto_island_gives_no_entities() {
    let json = r#"[{"id":"island_0","svg_path_data":"M 5 5"}]"#;
    let dxf = export_to_fletcher_dxf_core(json).unwrap();
    assert_eq!(dxf.matches("LWPOLYLINE").count(), 0);
    assert_eq!(
        dxf,
        "  0\nSECTION\n  2\nHEADER\n  9\n$ACADVER\n  1\nAC1015\n  0\nENDSEC\n  0\nSECTION\n  2\nENTITIES\n  0\nENDSEC\n  0\nEOF\n"
    );
}

#[test]
fn dxf_two_contours_give_two_closed_entities() {
    let json = r#"[{"id":"island_0","svg_path_data":"M 0 0 L 1 0 L 1 1 Z M 2 2 L 3 2 L 3 3 Z"}]"#;
    let dxf = export_to_fletcher_dxf_core(json).unwrap();
    assert_eq!(dxf.matches("LWPOLYLINE").count(), 2);
    assert_eq!(dxf.matches(" 70\n1\n").count(), 2);
}

#[test]
fn dxf_keeps_island_order() {
    let json = r#"[{"id":"a","svg_path_data":"M 0 0 L 1 0 L 1 1 Z"},{"id":"b","svg_path_data":"M 500 500 L 501 500 L 501 501 Z"}]"#;
    let dxf = export_to_fletcher_dxf_core(json).unwrap();
    assert_eq!(dxf.matches("LWPOLYLINE").count(), 2);
    let first = dxf.find(" 10\n0\n").unwrap();
    let second = dxf.find(" 10\n5\n").unwrap();
    assert!(first < second);
}

#[test]
fn dxf_open_polyline_is_marked_open() {
    let json = r#"[{"id":"a","svg_path_data":"M 0 0 L 1 0 L 2 1"}]"#;
    let dxf = export_to_fletcher_dxf_core(json).unwrap();
    assert_eq!(dxf.matches("LWPOLYLINE").count(), 1);
    assert!(dxf.contains(" 70\n0\n"));
    assert!(dxf.contains(" 90\n3\n"));
}

#[test]
fn dxf_malformed_path_is_an_error() {
    let json = r#"[{"id":"a","svg_path_data":"M 0 0 X 1 1"}]"#;
    assert!(export_to_fletcher_dxf_core(json).is_err());
}

#[test]
fn svg_malformed_json_is_an_error() {
    assert!(export_to_svg_core("not json", 1000, 1000).is_err());
}
