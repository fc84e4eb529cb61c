use matte_core::PathIsland;
use matte_core::json::{parse_islands, serialize_islands};
use matte_core::trace::islands_to_json;

fn island(id: &str, d: &str) -> PathIsland {
    PathIsland { id: id.to_string(), svg_path_data: d.to_string() }
}

fn assert_round_trips(islands: Vec<PathIsland>) {
    let json = serialize_islands(&islands);
    let back = parse_islands(&json).unwrap();
    assert_eq!(back.len(), islands.len());
    for (a, b) in islands.iter().zip(back.iter()) {
        assert_eq!(a.id, b.id);
        assert_eq!(a.svg_path_data, b.svg_path_data);
    }
}

#[test]
fn round_trip_empty_list() {
    assert_round_trips(Vec::new());
}

#[test]
fn round_trip_one_island() {
    assert_round_trips(vec![island("island_0", "M 0 0 L 10 0 L 10 10 L 0 10 Z")]);
}

#[test]
fn round_trip_many_islands_keeps_order() {
    assert_round_trips(vec![
        island("island_0", "M 0 0 L 1 0 Z"),
        island("island_1", "M 2 2 C 1 2 3 4 5 6"),
        island("island_2", ""),
    ]);
}

#[test]
fn round_trip_escapes_quotes_and_backslashes() {
    assert_round_trips(vec![island("we\"ird\\id", "M 0 0 \\ \" L 1 1")]);
}

#[test]
fn round_trip_escapes_control_characters() {
    assert_round_trips(vec![island("a\nb\tc", "M 0 0\r\nL 1 1\u{1}")]);
}

#[test]
fn serializer_writes_canonical_json() {
    let json = serialize_islands(&vec![island("island_0", "M 0 0")]);
    assert_eq!(json, r#"[{"id":"island_0","svg_path_data":"M 0 0"}]"#);
}

#[test]
fn serializer_writes_empty_array() {
    let json = serialize_islands(&Vec::new());
    assert_eq!(json, "[]");
}

#[test]
fn parser_accepts_canonical_text() {
    let back = parse_islands(r#"[{"id":"a","svg_path_data":"M 1 2"},{"id":"b","svg_path_data":"Z"}]"#)
        .unwrap();
    assert_eq!(back.len(), 2);
    assert_eq!(back[0].id, "a");
    assert_eq!(back[0].svg_path_data, "M 1 2");
    assert_eq!(back[1].id, "b");
    assert_eq!(back[1].svg_path_data, "Z");
}

#[test]
fn parser_rejects_malformed_text() {
    assert!(parse_islands("").is_err());
    assert!(parse_islands("{}").is_err());
    assert!(parse_islands("[").is_err());
    assert!(parse_islands(r#"[{"id":"a"}]"#).is_err());
    assert!(parse_islands(r#"[{"id":"a" "svg_path_data":"x"}]"#).is_err());
    assert!(parse_islands(r#"[{"id":"a","svg_path_data":"x"},]"#).is_err());
    assert!(parse_islands(r#"[{"id":"a","svg_path_data":"x"}"#).is_err());
    assert!(parse_islands(r#"[{"id":"a","svg_path_data":"x"}] z"#).is_err());
    assert!(parse_islands(r#"[{"id":"a","svg_path_data":"\q"}]"#).is_err());
    assert!(parse_islands(r#"[{"id":"a","svg_path_data":"\ud800"}]"#).is_err());
}

#[test]
fn parser_accepts_whitespace_between_tokens() {
    let back = parse_islands(" [ { \"id\" : \"a\" , \"svg_path_data\" : \"M 0 0\" } ] ").unwrap();
    assert_eq!(back.len(), 1);
    assert_eq!(back[0].id, "a");
    assert_eq!(back[0].svg_path_data, "M 0 0");
    let empty = parse_islands("[ ]").unwrap();
    assert_eq!(empty.len(), 0);
}

#[test]
fn parser_accepts_standard_escapes() {
    let back = parse_islands(r#"[{"id":"a\nb\t\/\u0041","svg_path_data":"\"M\\ 0\u00e9"}]"#)
        .unwrap();
    assert_eq!(back.len(), 1);
    assert_eq!(back[0].id, "a\nb\t/A");
    assert_eq!(back[0].svg_path_data, "\"M\\ 0\u{e9}");
}

#[test]
fn parser_accepts_reordered_keys() {
    let back = parse_islands(r#"[{"svg_path_data":"M 1 2","id":"a"}]"#).unwrap();
    assert_eq!(back.len(), 1);
    assert_eq!(back[0].id, "a");
    assert_eq!(back[0].svg_path_data, "M 1 2");
}

#[test]
fn serializer_escapes_control_characters() {
    let json = serialize_islands(&vec![island("a\nb", "M 0 0")]);
    assert_eq!(json, "[{\"id\":\"a\\u000ab\",\"svg_path_data\":\"M 0 0\"}]");
}

#[test]
fn islands_to_json_matches_serializer() {
    let ds = vec!["M 0 0 L 1 1".to_string()];
    let json = islands_to_json(&ds);
    assert_eq!(json, r#"[{"id":"island_0","svg_path_data":"M 0 0 L 1 1"}]"#);
}
