//! The server / character selection screen.

use durthang::config::{Character, Config, Server};
use durthang::ui::keys::{KeyCode, KeyEvent};
use durthang::ui::selection::{
    build_tree, confirm_texts, dialog_ok, field_line, handle_key, row_texts, selected_row, status_hints, tree_title,
    DeleteTarget, Dialog, DialogField, SelectState, StoreAction, TreeRow,
};

fn key(c: KeyCode) -> KeyEvent {
    KeyEvent::new(c)
}

fn config_two_servers() -> Config {
    let mut cfg = Config::default();
    cfg.servers.push(Server::new("Alpha", "a.example", 23));
    cfg.servers.push(Server::new("Beta", "b.example", 4000));
    cfg.servers[1].tls = true;
    let a = cfg.servers[0].id.clone();
    let mut c = Character::new("Hero", &a);
    c.login = Some("hero1".into());
    cfg.characters.push(c);
    cfg.characters.push(Character::new("Mage", &a));
    cfg
}

#[test]
fn tree_lists_servers_with_their_characters() {
    let cfg = config_two_servers();
    let tree = build_tree(&cfg, &Vec::new());
    assert_eq!(tree.len(), 4);
    assert!(matches!(&tree[0], TreeRow::Server { name, char_count: 2, collapsed: false, .. } if name == "Alpha"));
    assert!(matches!(&tree[1], TreeRow::Character { name, is_last: false, .. } if name == "Hero"));
    assert!(matches!(&tree[2], TreeRow::Character { name, is_last: true, .. } if name == "Mage"));
    assert!(matches!(&tree[3], TreeRow::Server { name, char_count: 0, .. } if name == "Beta"));
}

#[test]
fn collapsed_server_hides_characters() {
    let cfg = config_two_servers();
    let tree = build_tree(&cfg, &vec![cfg.servers[0].id.clone()]);
    assert_eq!(tree.len(), 2);
    assert_eq!(row_texts(&cfg, &tree[0]), vec!["\u{25b6} ", "Alpha", "", "  [2]"]);
}

#[test]
fn row_texts_of_rows() {
    let cfg = config_two_servers();
    let tree = build_tree(&cfg, &Vec::new());
    assert_eq!(row_texts(&cfg, &tree[3]), vec!["\u{25bc} ", "Beta", " [TLS]", ""]);
    assert_eq!(row_texts(&cfg, &tree[1]), vec!["  \u{251c} ", "Hero", " [hero1]"]);
    assert_eq!(row_texts(&cfg, &tree[2]), vec!["  \u{2514} ", "Mage"]);
}

#[test]
fn titles_and_hints() {
    let cfg = config_two_servers();
    assert_eq!(tree_title(&cfg), " Servers: 2   Characters: 2 ");
    assert_eq!(selected_row(7, 4), Some(3));
    assert_eq!(selected_row(1, 4), Some(1));
    assert_eq!(selected_row(0, 0), None);
    assert_eq!(status_hints(&None).starts_with(" \u{2191}\u{2193} move"), true);
    assert_eq!(status_hints(&Some(Dialog::add_server())), " Tab/\u{2191}\u{2193} next field   Enter confirm   Esc cancel");
}

#[test]
fn field_lines_mask_secrets() {
    let mut f = DialogField::secret("Password");
    f.value = "pé".to_string();
    assert_eq!(field_line(&f, true), "\u{25b6} Password: \u{2022}\u{2022}\u{2022}\u{2588}");
    let g = DialogField::prefilled("Port", "23");
    assert_eq!(field_line(&g, false), "  Port: 23");
}

#[test]
fn confirm_dialog_texts() {
    let cfg = config_two_servers();
    let (q, w) = confirm_texts(&DeleteTarget::Server(cfg.servers[0].id.clone()), &cfg);
    assert_eq!(q, "Delete server \"Alpha\"?");
    assert_eq!(w, Some("All associated characters will also be deleted."));
    let (q, w) = confirm_texts(&DeleteTarget::Character("nope".into()), &cfg);
    assert_eq!(q, "Delete character \"?\"?");
    assert!(w.is_none());
}

#[test]
fn adding_a_server_through_the_dialog() {
    let mut cfg = Config::default();
    let mut st = SelectState::new();
    let out = handle_key(&mut st, &mut cfg, key(KeyCode::Char('N')));
    assert!(!out.quit);
    assert!(st.dialog.is_some());
    for ch in "Home".chars() {
        handle_key(&mut st, &mut cfg, key(KeyCode::Char(ch)));
    }
    handle_key(&mut st, &mut cfg, key(KeyCode::Tab));
    for ch in "home.example".chars() {
        handle_key(&mut st, &mut cfg, key(KeyCode::Char(ch)));
    }
    // Enter moves through the remaining fields, then confirms on the last.
    handle_key(&mut st, &mut cfg, key(KeyCode::Enter));
    handle_key(&mut st, &mut cfg, key(KeyCode::Enter));
    assert!(st.dialog.is_some());
    let out = handle_key(&mut st, &mut cfg, key(KeyCode::Enter));
    assert!(st.dialog.is_none());
    assert_eq!(cfg.servers.len(), 1);
    assert_eq!(cfg.servers[0].name, "Home");
    assert_eq!(cfg.servers[0].host, "home.example");
    assert_eq!(cfg.servers[0].port, 23);
    assert!(out.actions.iter().any(|a| matches!(a, StoreAction::SaveConfig)));
}

#[test]
fn quit_keys() {
    let mut cfg = Config::default();
    let mut st = SelectState::new();
    assert!(handle_key(&mut st, &mut cfg, key(KeyCode::Char('q'))).quit);
    assert!(handle_key(&mut st, &mut cfg, KeyEvent::with_ctrl(KeyCode::Char('c'))).quit);
}

#[test]
fn enter_on_character_requests_connection() {
    let mut cfg = config_two_servers();
    let mut st = SelectState::new();
    handle_key(&mut st, &mut cfg, key(KeyCode::Down));
    handle_key(&mut st, &mut cfg, key(KeyCode::Enter));
    let (sid, cid) = st.pending_connect.clone().expect("connection requested");
    assert_eq!(sid, cfg.servers[0].id);
    assert_eq!(cid, Some(cfg.characters[0].id.clone()));
}

#[test]
fn dialog_ok_checks_fields_and_focus() {
    assert!(dialog_ok(&Dialog::add_server()));
    assert!(dialog_ok(&Dialog::add_character("s1")));
    assert!(dialog_ok(&Dialog::ConfirmDelete { target: DeleteTarget::Server("s1".to_string()) }));
    let mut d = Dialog::add_server();
    if let Dialog::AddServer(t) = &mut d {
        t.focused = t.fields.len();
    }
    assert!(!dialog_ok(&d));
    let mut d = Dialog::add_character("s1");
    if let Dialog::AddCharacter { inner, .. } = &mut d {
        inner.fields.pop();
    }
    assert!(!dialog_ok(&d));
}
