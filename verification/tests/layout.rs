//! Screen geometry and texts of the game screen.

use durthang::clipboard::{base64_encode, osc52_sequence};
use durthang::config::{PanelConfig, PanelKind, SidebarSide};
use durthang::ui::layout::{
    centered_rect, column_layout, cursor_parts, latency_badge, latency_level, options_rect, options_row,
    options_width_row, output_window, right_column_width, scroll_hint, session_text, LatencyLevel,
};

#[test]
fn base64_known_values() {
    assert_eq!(base64_encode(b""), "");
    assert_eq!(base64_encode(b"f"), "Zg==");
    assert_eq!(base64_encode(b"fo"), "Zm8=");
    assert_eq!(base64_encode(b"foo"), "Zm9v");
    assert_eq!(base64_encode(b"foobar"), "Zm9vYmFy");
    assert_eq!(base64_encode(&[0xFF, 0xFE, 0x3E]), "//4+");
}

#[test]
fn osc52_wraps_base64_of_utf8() {
    assert_eq!(osc52_sequence("é"), "\x1b]52;c;w6k=\x07");
}

#[test]
fn right_column_leaves_room_for_the_game() {
    assert_eq!(right_column_width(true, 26, 100), 26);
    assert_eq!(right_column_width(true, 26, 30), 10);
    assert_eq!(right_column_width(true, 26, 10), 0);
    assert_eq!(right_column_width(false, 26, 100), 0);
}

#[test]
fn output_window_live_view_with_prompt() {
    let w = output_window(100, 0, 10, true, false);
    assert_eq!((w.scroll, w.show_prompt, w.start, w.end), (0, true, 91, 100));
}

#[test]
fn output_window_scrolled_and_clamped() {
    let w = output_window(100, 500, 10, true, false);
    assert_eq!((w.scroll, w.show_prompt, w.start, w.end), (99, false, 0, 1));
    let w = output_window(0, 3, 10, false, false);
    assert_eq!((w.scroll, w.start, w.end), (0, 0, 0));
    let w = output_window(50, 0, 10, true, true);
    assert!(!w.show_prompt);
    assert_eq!((w.start, w.end), (40, 50));
}

#[test]
fn latency_levels() {
    assert_eq!(latency_level(None), LatencyLevel::Unknown);
    assert_eq!(latency_level(Some(120)), LatencyLevel::Good);
    assert_eq!(latency_level(Some(121)), LatencyLevel::Slow);
    assert_eq!(latency_level(Some(250)), LatencyLevel::Slow);
    assert_eq!(latency_level(Some(251)), LatencyLevel::Bad);
}

#[test]
fn centered_rect_clips_to_area() {
    assert_eq!(centered_rect(58, 6, 0, 0, 80, 24), (11, 9, 58, 6));
    assert_eq!(centered_rect(58, 6, 2, 1, 40, 4), (2, 1, 40, 4));
}

#[test]
fn options_rect_bounds() {
    assert_eq!(options_rect(2, 0, 0, 100, 40), (27, 16, 46, 7));
    assert_eq!(options_rect(2, 0, 0, 20, 5), (0, 0, 28, 5));
}

#[test]
fn column_layout_shares_height() {
    let panels = vec![
        PanelConfig { kind: PanelKind::Automap, side: Some(SidebarSide::Right), height_pct: 60 },
        PanelConfig { kind: PanelKind::Notes, side: Some(SidebarSide::Right), height_pct: 40 },
    ];
    assert_eq!(column_layout(&panels, SidebarSide::Right, 50), vec![(PanelKind::Automap, 0, 30), (PanelKind::Notes, 30, 20)]);
    assert!(column_layout(&panels, SidebarSide::Left, 50).is_empty());
    assert!(column_layout(&panels, SidebarSide::Right, 1).is_empty());
}

#[test]
fn column_layout_skips_empty_panels() {
    let panels = vec![
        PanelConfig { kind: PanelKind::Automap, side: Some(SidebarSide::Right), height_pct: 0 },
        PanelConfig { kind: PanelKind::Notes, side: Some(SidebarSide::Right), height_pct: 0 },
    ];
    assert_eq!(column_layout(&panels, SidebarSide::Right, 10), vec![(PanelKind::Notes, 0, 10)]);
}

#[test]
fn cursor_parts_split() {
    assert_eq!(cursor_parts("héllo", 1), ("h".to_string(), "é".to_string(), "llo".to_string()));
    assert_eq!(cursor_parts("ab", 2), ("ab".to_string(), " ".to_string(), String::new()));
}

#[test]
fn options_rows_text() {
    let pc = PanelConfig { kind: PanelKind::Automap, side: Some(SidebarSide::Right), height_pct: 35 };
    assert_eq!(options_row(&pc, true), vec!["Map      ", "[ Rt ]", "  35%", "  \u{2190}\u{2192}:vis  +/-:h%"]);
    let hidden = PanelConfig { kind: PanelKind::Notes, side: None, height_pct: 35 };
    assert_eq!(options_row(&hidden, false), vec!["Notes    ", "[ -- ]", "     ", ""]);
    assert_eq!(options_width_row(7, false), vec!["Width   ", "  7", ""]);
}

#[test]
fn status_texts() {
    assert_eq!(scroll_hint(0, 10), "");
    assert_eq!(scroll_hint(3, 10), " \u{2191}3/10 lines \u{2014} PgDn / Ctrl+End to return ");
    assert_eq!(latency_badge(87), " 87ms ");
    assert_eq!(session_text("MUME", "Hero"), " MUME  /  Hero");
}
