//! The application: network events, game actions and sessions.

use durthang::app::{auto_login, App, AppCommand, AppState};
use durthang::config::{Alias, Character, Config, Server};
use durthang::net::NetEvent;
use durthang::ui::game::GameAction;

fn line_text(app: &App, i: usize) -> String {
    app.game.lines[i].spans.iter().map(|s| s.text.as_str()).collect()
}

fn last_line(app: &App) -> String {
    line_text(app, app.game.lines.len() - 1)
}

fn app_with_session() -> App {
    let mut cfg = Config::default();
    cfg.servers.push(Server::new("MUME", "mume.org", 4242));
    let sid = cfg.servers[0].id.clone();
    let mut ch = Character::new("Hero", &sid);
    ch.aliases.push(Alias { name: "k".into(), expansion: "kill".into() });
    cfg.characters.push(ch);
    let cid = cfg.characters[0].id.clone();
    let mut app = App::new(cfg);
    let plan = app.plan_connect(&sid, Some(&cid)).expect("known server and character");
    app.start_session(plan);
    app
}

fn is_save(c: &AppCommand) -> bool {
    matches!(c, AppCommand::SaveConfig)
}

#[test]
fn app_starts_on_selection_screen() {
    let app = App::new(Config::default());
    assert_eq!(app.state, AppState::ServerSelect);
    assert_eq!(AppState::default(), AppState::ServerSelect);
    assert!(app.running);
    assert!(app.connected_char_id.is_none());
}

#[test]
fn quit_stops_the_loop() {
    let mut app = App::new(Config::default());
    app.quit();
    assert!(!app.running);
}

#[test]
fn plan_connect_anonymous_and_unknown() {
    let mut cfg = Config::default();
    cfg.servers.push(Server::new("MUME", "mume.org", 4242));
    let sid = cfg.servers[0].id.clone();
    let app = App::new(cfg);
    let p = app.plan_connect(&sid, None).unwrap();
    assert_eq!(p.host, "mume.org");
    assert_eq!(p.port, 4242);
    assert_eq!(p.char_name, "(anonymous)");
    assert!(p.login.is_none());
    assert!(app.plan_connect("nope", None).is_none());
    assert!(app.plan_connect(&sid, Some("nobody")).is_none());
}

#[test]
fn auto_login_needs_login_or_password() {
    let mut cfg = Config::default();
    cfg.servers.push(Server::new("S", "h", 1));
    let sid = cfg.servers[0].id.clone();
    let ch = Character::new("Hero", &sid);
    let cid = ch.id.clone();
    cfg.characters.push(ch);
    let app = App::new(cfg);
    let plan = app.plan_connect(&sid, Some(&cid)).unwrap();
    assert_eq!(plan.login.as_deref(), Some("Hero"));
    assert!(auto_login(&plan, None).is_none());
    assert_eq!(auto_login(&plan, Some("pw".into())), Some(("Hero".to_string(), Some("pw".to_string()))));
}

#[test]
fn session_loads_character_aliases() {
    let app = app_with_session();
    assert_eq!(app.state, AppState::Game);
    assert!(app.game.connected);
    assert_eq!(app.connected_server.as_deref(), Some("MUME"));
    assert_eq!(app.connected_char.as_deref(), Some("Hero"));
    assert_eq!(app.game.expand_alias("k orc"), "kill orc");
}

#[test]
fn net_events_reach_the_game_screen() {
    let mut app = app_with_session();
    assert!(!app.on_net_event(NetEvent::Line("hello".into())));
    assert_eq!(last_line(&app), "hello");
    assert!(!app.on_net_event(NetEvent::Latency(42)));
    assert_eq!(app.game.latency, Some(42));
    assert!(!app.on_net_event(NetEvent::Prompt("> ".into())));
    assert!(app.game.prompt.is_some());
    assert!(!app.on_net_event(NetEvent::Gmcp("Room.Info {\"num\":7,\"name\":\"Hall\",\"exits\":{}}".into())));
    assert_eq!(app.game.sidebar.automap.current_room_id.as_deref(), Some("7"));
}

#[test]
fn disconnect_event_returns_to_selection() {
    let mut app = app_with_session();
    assert!(app.on_net_event(NetEvent::Disconnected("gone".into())));
    assert_eq!(app.state, AppState::ServerSelect);
    assert!(!app.game.connected);
    assert_eq!(last_line(&app), "-- Disconnected: gone --");
}

#[test]
fn send_line_action_is_forwarded() {
    let mut app = app_with_session();
    let cmds = app.on_game_action(Some(GameAction::SendLine("look".into())));
    assert_eq!(cmds.len(), 1);
    assert!(matches!(&cmds[0], AppCommand::SendLine(l) if l == "look"));
}

#[test]
fn quit_action_disconnects_and_stops() {
    let mut app = app_with_session();
    let cmds = app.on_game_action(Some(GameAction::Quit));
    assert!(matches!(cmds.as_slice(), [AppCommand::Disconnect]));
    assert!(!app.running);
}

#[test]
fn clipboard_action_writes_osc52() {
    let mut app = app_with_session();
    let cmds = app.on_game_action(Some(GameAction::CopyToClipboard("hi".into())));
    assert!(matches!(&cmds[0], AppCommand::WriteTerminal(t) if t == "\x1b]52;c;aGk=\x07"));
}

#[test]
fn alias_actions_update_config_and_game() {
    let mut app = app_with_session();
    let cmds = app.on_game_action(Some(GameAction::AddAlias { name: "n".into(), expansion: "north".into() }));
    assert!(cmds.iter().any(is_save));
    assert_eq!(app.config.characters[0].aliases.len(), 2);
    assert_eq!(app.game.expand_alias("n"), "north");
    assert_eq!(last_line(&app), "\u{00bb} Alias added: n \u{2192} north");
    let cmds = app.on_game_action(Some(GameAction::RemoveAlias("k".into())));
    assert!(cmds.iter().any(is_save));
    assert_eq!(app.game.expand_alias("k"), "k");
    assert_eq!(last_line(&app), "\u{00bb} Alias 'k' removed.");
    let cmds = app.on_game_action(Some(GameAction::RemoveAlias("zz".into())));
    assert!(cmds.is_empty());
    assert_eq!(last_line(&app), "\u{00bb} No alias named 'zz'.");
}

#[test]
fn trigger_actions() {
    let mut app = app_with_session();
    let cmds = app.on_game_action(Some(GameAction::AddTrigger { pattern: "[bad".into(), color: None, send: None }));
    assert!(cmds.is_empty());
    assert!(last_line(&app).starts_with("\u{00bb} Invalid regex pattern: "));
    let cmds = app.on_game_action(Some(GameAction::AddTrigger {
        pattern: "hungry".into(),
        color: Some("red".into()),
        send: Some("eat".into()),
    }));
    assert!(cmds.iter().any(is_save));
    let id = app.config.characters[0].triggers[0].id.clone();
    assert_eq!(last_line(&app), format!("\u{00bb} Trigger [{}] added.", &id[..8]));
    app.on_net_event(NetEvent::Line("You are hungry.".into()));
    let cmds = app.on_game_action(None);
    assert!(matches!(cmds.as_slice(), [AppCommand::SendLine(l)] if l == "eat"));
    assert!(app.game.auto_send_queue.is_empty());
    let cmds = app.on_game_action(Some(GameAction::RemoveTrigger(id[..4].to_string())));
    assert!(cmds.iter().any(is_save));
    assert!(app.config.characters[0].triggers.is_empty());
}

#[test]
fn actions_without_character_do_nothing() {
    let mut app = App::new(Config::default());
    let cmds = app.on_game_action(Some(GameAction::AddAlias { name: "a".into(), expansion: "b".into() }));
    assert!(cmds.is_empty());
    assert!(app.game.lines.is_empty());
}

#[test]
fn save_layout_copies_sidebar_into_character() {
    let mut app = app_with_session();
    app.game.sidebar.layout.right_width = 40;
    let cmds = app.on_game_action(Some(GameAction::SaveSidebarLayout));
    assert!(cmds.iter().any(is_save));
    assert_eq!(app.config.characters[0].sidebar.right_width, 40);
}

#[test]
fn disconnect_action() {
    let mut app = app_with_session();
    let cmds = app.on_game_action(Some(GameAction::Disconnect));
    assert!(matches!(cmds.as_slice(), [AppCommand::Disconnect]));
    assert_eq!(app.state, AppState::ServerSelect);
    assert!(!app.game.connected);
}
