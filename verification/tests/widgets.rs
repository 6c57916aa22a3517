//! The GMCP value store of the sidebar widgets.

use durthang::ui::widgets::WidgetDataStore;

#[test]
fn set_then_get() {
    let mut s = WidgetDataStore::new();
    assert_eq!(s.get("a.b"), None);
    s.set("a.b", "1");
    assert_eq!(s.get("a.b"), Some("1"));
    s.set("a.b", "2");
    assert_eq!(s.get("a.b"), Some("2"));
}

#[test]
fn apply_gmcp_stores_leaves_under_paths() {
    let mut s = WidgetDataStore::new();
    s.apply_gmcp("Char.Vitals {\"hp\":100,\"name\":\"Bob\",\"ok\":true,\"pos\":[3,4],\"x\":null,\"in\":{\"d\":1.5}}");
    assert_eq!(s.get("Char.Vitals.hp"), Some("100"));
    assert_eq!(s.get("Char.Vitals.name"), Some("Bob"));
    assert_eq!(s.get("Char.Vitals.ok"), Some("true"));
    assert_eq!(s.get("Char.Vitals.pos.0"), Some("3"));
    assert_eq!(s.get("Char.Vitals.pos.1"), Some("4"));
    assert_eq!(s.get("Char.Vitals.x"), None);
    assert_eq!(s.get("Char.Vitals.in.d"), Some("1.5"));
}

#[test]
fn apply_gmcp_ignores_bad_messages() {
    let mut s = WidgetDataStore::new();
    s.apply_gmcp("NoSpaceHere");
    s.apply_gmcp("Char.Vitals not json");
    assert_eq!(s.get("NoSpaceHere"), None);
    s.apply_gmcp("Char.Vitals   {\"hp\":5}  ");
    assert_eq!(s.get("Char.Vitals.hp"), Some("5"));
}

#[test]
fn kv_rows_label_by_last_segment() {
    let mut s = WidgetDataStore::new();
    s.set("Char.Vitals.hp", "90");
    s.set("Char.Status.level", "12");
    let keys = vec!["Char.Vitals.hp".to_string(), "Char.Vitals.mp".to_string(), "Char.Status.level".to_string()];
    let rows = s.kv_rows(&keys);
    assert_eq!(rows, vec![("hp    ".to_string(), " 90".to_string()), ("level ".to_string(), " 12".to_string())]);
}

#[test]
fn grid_rows_group_and_sort_by_row() {
    let mut s = WidgetDataStore::new();
    s.set("b.x", "1");
    s.set("a.y.z", "2");
    s.set("b.w", "3");
    s.set("nodot", "4");
    let keys: Vec<String> = ["b.x", "a.y.z", "b.w", "nodot", "c.missing"].iter().map(|k| k.to_string()).collect();
    let g = s.grid_rows(&keys);
    assert_eq!(g.len(), 2);
    assert_eq!(g[0].0.iter().collect::<String>(), "a");
    assert_eq!(g[0].1, vec![("y.z     ".to_string(), "2  ".to_string())]);
    assert_eq!(g[1].0.iter().collect::<String>(), "b");
    assert_eq!(g[1].1, vec![("x       ".to_string(), "1  ".to_string()), ("w       ".to_string(), "3  ".to_string())]);
}
