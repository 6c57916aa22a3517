//! Configuration model: servers, characters, sidebar layout defaults and
//! layout migration.

use durthang::config::{
    Alias, Character, Config, PanelConfig, PanelKind, Server, SidebarLayout, SidebarSide, Trigger,
};
use durthang::ui::sidebar::SidebarState;

#[test]
fn server_new_fields() {
    let s = Server::new("MUME", "mume.org", 4242);
    assert_eq!(s.name, "MUME");
    assert_eq!(s.host, "mume.org");
    assert_eq!(s.port, 4242);
    assert!(!s.tls);
    assert!(!s.id.is_empty());
    assert!(s.notes.is_none());
}

#[test]
fn server_ids_are_unique() {
    let a = Server::new("A", "a.example", 23);
    let b = Server::new("B", "b.example", 23);
    assert_ne!(a.id, b.id);
}

#[test]
fn character_effective_login_falls_back_to_name() {
    let c = Character::new("Berejorn", "server-1");
    assert_eq!(c.effective_login(), "Berejorn");
}

#[test]
fn character_effective_login_uses_login_when_set() {
    let mut c = Character::new("Berejorn", "server-1");
    c.login = Some("Pommersche".to_string());
    assert_eq!(c.effective_login(), "Pommersche");
}

#[test]
fn character_new_defaults() {
    let c = Character::new("Hero", "srv");
    assert!(c.aliases.is_empty());
    assert!(c.triggers.is_empty());
    assert!(c.notes.is_none());
    assert!(c.password_hint.is_none());
    assert_eq!(c.server_id, "srv");
}

#[test]
fn config_characters_for_server() {
    let mut cfg = Config::default();
    cfg.servers.push(Server::new("S1", "s1.example", 23));
    cfg.servers.push(Server::new("S2", "s2.example", 23));
    let sid1 = cfg.servers[0].id.clone();
    let sid2 = cfg.servers[1].id.clone();
    cfg.characters.push(Character::new("A", &sid1));
    cfg.characters.push(Character::new("B", &sid1));
    cfg.characters.push(Character::new("C", &sid2));

    let s1_chars = cfg.characters_for_server(&sid1);
    assert_eq!(s1_chars.len(), 2);
    let s2_chars = cfg.characters_for_server(&sid2);
    assert_eq!(s2_chars.len(), 1);
    assert_eq!(s2_chars[0].name, "C");
}

#[test]
fn sidebar_layout_default_is_visible_and_has_two_panels() {
    let layout = SidebarLayout::default();
    assert!(layout.right_visible);
    assert_eq!(layout.right_width, 26);
    assert_eq!(layout.panels.len(), 2);
    assert!(layout.panels.iter().any(|p| p.kind == PanelKind::Automap));
    assert!(layout.panels.iter().any(|p| p.kind == PanelKind::Notes));
    assert!(layout.notes.is_empty());
}

#[test]
fn sidebar_layout_default_panels_on_right_side() {
    let layout = SidebarLayout::default();
    for p in &layout.panels {
        assert_eq!(p.side, Some(SidebarSide::Right), "panel {:?} should be on Right", p.kind);
    }
}

/// The panel a stored layout gives when its `side` was omitted: an automap
/// without a side at full height.
#[test]
fn stale_automap_without_side_is_fixed_on_load() {
    let pc = PanelConfig { kind: PanelKind::Automap, side: None, height_pct: 100 };
    assert_eq!(pc.kind, PanelKind::Automap);
    assert_eq!(pc.side, None, "side should be None when omitted");

    let layout = SidebarLayout {
        right_visible: true,
        right_width: 26,
        panels: vec![pc],
        notes: vec![],
    };
    let state = SidebarState::new(layout);
    let automap = state
        .layout
        .panels
        .iter()
        .find(|p| p.kind == PanelKind::Automap)
        .expect("Automap panel must exist after migration");
    assert_eq!(automap.side, Some(SidebarSide::Right), "migration must set side to Right");
}

#[test]
fn legacy_panels_are_removed_and_defaults_inserted() {
    let layout = SidebarLayout {
        right_visible: true,
        right_width: 26,
        panels: vec![
            PanelConfig { kind: PanelKind::CharSheet, side: Some(SidebarSide::Left), height_pct: 40 },
            PanelConfig { kind: PanelKind::Paperdoll, side: Some(SidebarSide::Left), height_pct: 30 },
            PanelConfig { kind: PanelKind::Inventory, side: Some(SidebarSide::Right), height_pct: 30 },
        ],
        notes: vec![],
    };
    let state = SidebarState::new(layout);
    assert!(
        !state.layout.panels.iter().any(|p| {
            matches!(p.kind, PanelKind::CharSheet | PanelKind::Paperdoll | PanelKind::Inventory)
        }),
        "legacy panels must be removed"
    );
    assert!(state.layout.panels.iter().any(|p| p.kind == PanelKind::Automap));
    assert!(state.layout.panels.iter().any(|p| p.kind == PanelKind::Notes));
}

#[test]
fn migrate_layout_puts_automap_before_notes() {
    let layout = SidebarLayout {
        right_visible: true,
        right_width: 26,
        panels: vec![
            PanelConfig { kind: PanelKind::Notes, side: Some(SidebarSide::Right), height_pct: 65 },
            PanelConfig { kind: PanelKind::Automap, side: Some(SidebarSide::Right), height_pct: 35 },
        ],
        notes: vec![],
    };
    let state = SidebarState::new(layout);
    let ai = state.layout.panels.iter().position(|p| p.kind == PanelKind::Automap).unwrap();
    let ni = state.layout.panels.iter().position(|p| p.kind == PanelKind::Notes).unwrap();
    assert!(ai < ni, "Automap must come before Notes");
}

#[test]
fn trigger_new_sets_pattern_and_empty_optionals() {
    let t = Trigger::new("You are hungry");
    assert_eq!(t.pattern, "You are hungry");
    assert!(t.color.is_none());
    assert!(t.send.is_none());
    assert!(!t.id.is_empty());
}

#[test]
fn trigger_ids_are_unique() {
    let a = Trigger::new("pat");
    let b = Trigger::new("pat");
    assert_ne!(a.id, b.id);
}

// ---------------------------------------------------------------------------
// Further cases
// ---------------------------------------------------------------------------

#[test]
fn trigger_id_is_a_hyphenated_uuid() {
    let t = Trigger::new("x");
    assert_eq!(t.id.len(), 36);
    for (i, c) in t.id.chars().enumerate() {
        if i == 8 || i == 13 || i == 18 || i == 23 {
            assert_eq!(c, '-');
        } else {
            assert!(c.is_ascii_hexdigit() && !c.is_ascii_uppercase());
        }
    }
}

#[test]
fn server_by_id_finds_first_match() {
    let mut cfg = Config::default();
    cfg.servers.push(Server::new("S1", "s1.example", 23));
    cfg.servers.push(Server::new("S2", "s2.example", 24));
    let sid2 = cfg.servers[1].id.clone();
    assert_eq!(cfg.server_by_id(&sid2).unwrap().port, 24);
    assert!(cfg.server_by_id("missing").is_none());
}

#[test]
fn keyring_account_joins_server_and_login() {
    assert_eq!(durthang::config::keyring_account("srv-1", "Hero"), "srv-1/Hero");
}

#[test]
fn panel_labels() {
    assert_eq!(PanelKind::Automap.label(), "Automap");
    assert_eq!(PanelKind::Notes.short_label(), "Notes");
    assert_eq!(PanelKind::CharSheet.short_label(), "Stats");
}

fn config_with_character() -> (Config, String) {
    let mut cfg = Config::default();
    cfg.servers.push(Server::new("S", "s.example", 23));
    let sid = cfg.servers[0].id.clone();
    let ch = Character::new("Hero", &sid);
    let cid = ch.id.clone();
    cfg.characters.push(ch);
    (cfg, cid)
}

#[test]
fn upsert_alias_replaces_same_name_and_appends() {
    let (mut cfg, cid) = config_with_character();
    cfg.characters[0].aliases.push(Alias { name: "k".into(), expansion: "kick".into() });
    cfg.characters[0].aliases.push(Alias { name: "l".into(), expansion: "look".into() });
    assert!(cfg.upsert_alias(&cid, "k", "kill"));
    let a = &cfg.characters[0].aliases;
    assert_eq!(a.len(), 2);
    assert_eq!(a[0].name, "l");
    assert_eq!(a[1].name, "k");
    assert_eq!(a[1].expansion, "kill");
    assert!(!cfg.upsert_alias("nobody", "x", "y"));
}

#[test]
fn remove_alias_reports_whether_removed() {
    let (mut cfg, cid) = config_with_character();
    cfg.characters[0].aliases.push(Alias { name: "k".into(), expansion: "kill".into() });
    assert!(cfg.remove_alias(&cid, "k"));
    assert!(cfg.characters[0].aliases.is_empty());
    assert!(!cfg.remove_alias(&cid, "k"));
}

#[test]
fn remove_triggers_by_id_prefix() {
    let (mut cfg, cid) = config_with_character();
    let t1 = Trigger { id: "abc-1".into(), pattern: "p".into(), color: None, send: None };
    let t2 = Trigger { id: "xyz-2".into(), pattern: "q".into(), color: None, send: None };
    assert!(cfg.add_trigger(&cid, t1));
    assert!(cfg.add_trigger(&cid, t2));
    assert!(cfg.remove_triggers(&cid, "abc"));
    assert_eq!(cfg.characters[0].triggers.len(), 1);
    assert_eq!(cfg.characters[0].triggers[0].id, "xyz-2");
    assert!(!cfg.remove_triggers(&cid, "nope"));
}
