//! Key sequences on the game, sidebar and selection screens.

use durthang::config::{Character, Config, Server, SidebarLayout, SidebarSide, Trigger};
use durthang::ui::game::{handle_key, GameAction, GameState};
use durthang::ui::keys::{KeyCode, KeyEvent};
use durthang::ui::selection::{self, build_tree, SelectState};
use durthang::ui::sidebar::{handle_sidebar_key, SidebarKeyResult, SidebarState};
use durthang::ui::style::Color;

fn key(c: KeyCode) -> KeyEvent {
    KeyEvent::new(c)
}

fn type_text(g: &mut GameState, s: &str) {
    for c in s.chars() {
        handle_key(g, key(KeyCode::Char(c)));
    }
}

#[test]
fn typing_and_backspace_restore_input() {
    let mut g = GameState::new();
    type_text(&mut g, "ab");
    assert_eq!(g.input, "ab");
    assert_eq!(g.input_cursor, 2);
    handle_key(&mut g, key(KeyCode::Backspace));
    assert_eq!(g.input, "a");
    assert_eq!(g.input_cursor, 1);
}

#[test]
fn history_up_then_down_restores_live_input() {
    let mut g = GameState::new();
    type_text(&mut g, "look");
    let a = handle_key(&mut g, key(KeyCode::Enter));
    assert!(matches!(a, Some(GameAction::SendLine(l)) if l == "look"));
    type_text(&mut g, "ab");
    handle_key(&mut g, key(KeyCode::Up));
    assert_eq!(g.input, "look");
    handle_key(&mut g, key(KeyCode::Down));
    assert_eq!(g.input, "ab");
    assert_eq!(g.input_cursor, 2);
}

#[test]
fn yank_copies_bottom_line_and_leaves_copy_mode() {
    let mut g = GameState::new();
    g.push_line("hello there");
    handle_key(&mut g, KeyEvent::with_ctrl(KeyCode::Char('y')));
    assert!(g.copy_mode);
    let a = handle_key(&mut g, key(KeyCode::Char('y')));
    assert!(matches!(a, Some(GameAction::CopyToClipboard(t)) if t == "hello there"));
    assert!(!g.copy_mode);
}

#[test]
fn map_pan_left_then_right_returns() {
    let mut g = GameState::new();
    handle_key(&mut g, key(KeyCode::F(6)));
    assert!(g.map_fullscreen);
    handle_key(&mut g, key(KeyCode::Left));
    assert_ne!(g.map_pan, (0, 0, 0));
    handle_key(&mut g, key(KeyCode::Right));
    assert_eq!(g.map_pan, (0, 0, 0));
}

#[test]
fn coloured_trigger_keeps_text() {
    let mut g = GameState::new();
    g.set_triggers(vec![Trigger { id: "t".into(), pattern: "orc".into(), color: Some("red".into()), send: None }]);
    g.push_line("an orc appears");
    let l = &g.lines[0];
    let text: String = l.spans.iter().map(|s| s.text.as_str()).collect();
    assert_eq!(text, "an orc appears");
    assert!(l.spans.iter().all(|s| s.style.fg == Some(Color::Red)));
}

#[test]
fn options_toggle_twice_restores_panel() {
    let mut s = SidebarState::new(SidebarLayout::default());
    s.options_open = true;
    s.options_cursor = 0;
    let before = s.layout.panels[0].side;
    assert_eq!(before, Some(SidebarSide::Right));
    assert!(matches!(handle_sidebar_key(&mut s, key(KeyCode::Right)), SidebarKeyResult::SaveLayout));
    assert_eq!(s.layout.panels[0].side, None);
    handle_sidebar_key(&mut s, key(KeyCode::Left));
    assert_eq!(s.layout.panels[0].side, before);
}

#[test]
fn migration_is_idempotent() {
    let s = SidebarState::new(SidebarLayout {
        right_visible: true,
        right_width: 30,
        panels: vec![],
        notes: vec!["n".into()],
    });
    let again = SidebarState::new(SidebarLayout {
        right_visible: s.layout.right_visible,
        right_width: s.layout.right_width,
        panels: s.layout.panels.clone(),
        notes: s.layout.notes.clone(),
    });
    assert_eq!(again.layout.panels, s.layout.panels);
}

fn one_server_config() -> Config {
    let mut cfg = Config::default();
    cfg.servers.push(Server::new("Alpha", "a.example", 23));
    let sid = cfg.servers[0].id.clone();
    cfg.characters.push(Character::new("Hero", &sid));
    cfg
}

#[test]
fn collapsing_twice_restores_tree() {
    let mut cfg = one_server_config();
    let mut st = SelectState::new();
    assert_eq!(build_tree(&cfg, &st.collapsed).len(), 2);
    selection::handle_key(&mut st, &mut cfg, key(KeyCode::Char(' ')));
    assert_eq!(build_tree(&cfg, &st.collapsed).len(), 1);
    selection::handle_key(&mut st, &mut cfg, key(KeyCode::Char(' ')));
    assert_eq!(build_tree(&cfg, &st.collapsed).len(), 2);
}

#[test]
fn deleting_a_server_removes_its_characters() {
    let mut cfg = one_server_config();
    let mut st = SelectState::new();
    selection::handle_key(&mut st, &mut cfg, key(KeyCode::Char('d')));
    assert!(st.dialog.is_some());
    selection::handle_key(&mut st, &mut cfg, key(KeyCode::Char('y')));
    assert!(cfg.servers.is_empty());
    assert!(cfg.characters.is_empty());
}

#[test]
fn typing_then_backspace_in_dialog_field() {
    let mut cfg = Config::default();
    let mut st = SelectState::new();
    selection::handle_key(&mut st, &mut cfg, key(KeyCode::Char('N')));
    selection::handle_key(&mut st, &mut cfg, key(KeyCode::Char('x')));
    selection::handle_key(&mut st, &mut cfg, key(KeyCode::Backspace));
    let d = st.dialog.as_ref().unwrap().as_text_dialog().unwrap();
    assert_eq!(d.fields[0].value, "");
}
