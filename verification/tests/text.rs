//! Text helpers, JSON reading, regular expressions and map helpers.

use durthang::json::Json;
use durthang::map::{map_file_name, parse_exits_line, strip_ansi, Direction};
use durthang::text::u64_text;
use durthang::ui::style::{parse_color_name, Color};
use durthang::ui::game::{automap_panel_rows, build_map_lines};
use durthang::map::WorldMap;

#[test]
fn names_are_matched_case_insensitively() {
    assert_eq!(parse_color_name("LIGHT_BLUE"), Some(Color::LightBlue));
    assert_eq!(Direction::parse("\u{00c9}ast"), None);
    assert_eq!(Direction::parse("DOWN"), Some(Direction::Down));
}

#[test]
fn decimal_text() {
    assert_eq!(u64_text(0).iter().collect::<String>(), "0");
    assert_eq!(u64_text(1234).iter().collect::<String>(), "1234");
}

#[test]
fn json_member_lookup() {
    let j = Json::Object(vec![
        ("a".to_string(), Json::Number("1".to_string())),
        ("c".to_string(), Json::Str("x".to_string())),
        ("a".to_string(), Json::Null),
    ]);
    assert!(matches!(j.get("a"), Some(Json::Number(n)) if n == "1"));
    assert!(matches!(j.get("c"), Some(Json::Str(s)) if s == "x"));
    assert!(j.get("zz").is_none());
    assert!(Json::Null.get("a").is_none());
}

#[test]
fn regex_exits_pattern_group() {
    let dirs = parse_exits_line("[ Exits: n e ]").unwrap();
    assert_eq!(dirs, vec![Direction::North, Direction::East]);
}

#[test]
fn map_file_names_are_sanitised() {
    assert_eq!(map_file_name("abc-1_2"), "abc-1_2.map.json");
    assert_eq!(map_file_name("a/b c"), "a_b_c.map.json");
}

#[test]
fn ansi_is_stripped() {
    assert_eq!(strip_ansi("\x1b[1mExits\x1b[0m: north"), "Exits: north");
}

#[test]
fn strip_ansi_keeps_non_ascii_text() {
    assert_eq!(strip_ansi("Exits: café"), "Exits: café");
    assert_eq!(strip_ansi("\x1b[32mnörth\x1b[0m"), "nörth");
}

#[test]
fn strip_ansi_keeps_other_control_sequences() {
    assert_eq!(strip_ansi("a\x1b[2Jb"), "a\x1b[2Jb");
    assert_eq!(strip_ansi("a\x1bb"), "a\x1bb");
    assert_eq!(strip_ansi("tail\x1b["), "tail\x1b[");
    assert_eq!(strip_ansi("\x1b[1;31mred\x1b[0m \x1b[Kend"), "red \x1b[Kend");
}

#[test]
fn map_lines_mark_current_room() {
    let mut map = WorldMap::default();
    map.set_room_position("A", 0, 0, 0);
    map.link_rooms("A", durthang::map::Direction::East, "B");
    map.current_room_id = Some("A".to_string());
    let rows = build_map_lines(&map, 5, 3, (0, 0, 0));
    assert_eq!(rows, vec!["     ", "  @. ", "     "]);
    let empty = WorldMap::default();
    assert_eq!(build_map_lines(&empty, 5, 3, (0, 0, 0)), vec!["No map data yet"]);
    assert!(build_map_lines(&map, 0, 3, (0, 0, 0)).is_empty());
}

#[test]
fn automap_panel_has_legend() {
    let mut map = WorldMap::default();
    map.set_room_position("A", 0, 0, 2);
    map.current_room_id = Some("A".to_string());
    let rows = automap_panel_rows(&map, 4, 3).expect("current room");
    assert_eq!(rows.len(), 3);
    assert_eq!(rows[1], " @  ");
    assert_eq!(rows[2], "@ A  z:2");
    assert!(automap_panel_rows(&WorldMap::default(), 4, 3).is_none());
    assert_eq!(automap_panel_rows(&map, 2, 3), Some(Vec::new()));
}
