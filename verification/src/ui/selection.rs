//! The server / character selection screen: a tree of servers with their
//! characters, and the dialogs that add, edit and delete them.
//!
//! Keys: ↑↓ move, Space / ← / → expand or collapse a server, Enter connects
//! (or toggles a server that has characters), `n` adds a character (a
//! server when there is none), `N` adds a server, `e` edits, `d` deletes,
//! `q` quits.

use vstd::prelude::*;

use crate::config::{spec_characters_for_server, Character, Config, Server};
use crate::text::{chars_of, str_eq, string_of};

verus! {

// ---------------------------------------------------------------------------
// Collapsed servers
// ---------------------------------------------------------------------------

/// Whether `id` is among the collapsed server ids.
pub open spec fn is_collapsed(v: Seq<String>, id: Seq<char>) -> bool {
    exists|i: int| 0 <= i < v.len() && (#[trigger] v[i])@ == id
}

/// Whether `id` is among `v`.
fn contains_id(v: &Vec<String>, id: &str) -> (b: bool)
    ensures
        b == is_collapsed(v@, id@),
{
    let mut i: usize = 0;
    while i < v.len()
        invariant
            i <= v@.len(),
            forall|j: int| 0 <= j < i ==> (#[trigger] v@[j])@ != id@,
        decreases v.len() - i,
    {
        if str_eq(v[i].as_str(), id) {
            return true;
        }
        i += 1;
    }
    false
}

/// `v` with every copy of `id` removed.
fn remove_id(v: &Vec<String>, id: &str) -> (r: Vec<String>)
    ensures
        forall|x: Seq<char>| is_collapsed(r@, x) <==> is_collapsed(v@, x) && x != id@,
{
    let mut r: Vec<String> = Vec::new();
    let mut i: usize = 0;
    while i < v.len()
        invariant
            i <= v@.len(),
            forall|x: Seq<char>| is_collapsed(r@, x) <==> (exists|j: int| 0 <= j < i && (#[trigger] v@[j])@ == x) && x != id@,
        decreases v.len() - i,
    {
        if !str_eq(v[i].as_str(), id) {
            let ghost before = r@;
            let s = v[i].clone();
            r.push(s);
            proof {
                assert forall|x: Seq<char>| is_collapsed(r@, x) <==> (exists|j: int| 0 <= j < i + 1 && (#[trigger] v@[j])@ == x) && x != id@ by {
                    if is_collapsed(r@, x) {
                        let k = choose|k: int| 0 <= k < r@.len() && (#[trigger] r@[k])@ == x;
                        if k < before.len() {
                            assert(is_collapsed(before, x));
                        }
                    }
                    if (exists|j: int| 0 <= j < i + 1 && (#[trigger] v@[j])@ == x) && x != id@ {
                        let j = choose|j: int| 0 <= j < i + 1 && (#[trigger] v@[j])@ == x;
                        if j < i {
                            assert(is_collapsed(before, x));
                            let k = choose|k: int| 0 <= k < before.len() && (#[trigger] before[k])@ == x;
                            assert(r@[k] == before[k]);
                        } else {
                            assert(r@[before.len() as int] == s);
                        }
                    }
                }
            }
        } else {
            proof {
                assert forall|x: Seq<char>| is_collapsed(r@, x) <==> (exists|j: int| 0 <= j < i + 1 && (#[trigger] v@[j])@ == x) && x != id@ by {
                    if (exists|j: int| 0 <= j < i + 1 && (#[trigger] v@[j])@ == x) && x != id@ {
                        let j = choose|j: int| 0 <= j < i + 1 && (#[trigger] v@[j])@ == x;
                        if j == i {
                            assert(false);
                        }
                    }
                }
            }
        }
        i += 1;
    }
    r
}

// ---------------------------------------------------------------------------
// The tree
// ---------------------------------------------------------------------------

/// One visible row of the tree.
#[derive(Debug, Clone)]
pub enum TreeRow {
    Server { server_id: String, name: String, collapsed: bool, char_count: usize },
    Character {
        server_id: String,
        char_id: String,
        name: String,
        login: Option<String>,
        hint: Option<String>,
        notes: Option<String>,
        /// Whether this is the last character under its server.
        is_last: bool,
    },
}

/// A tree row as plain values.
pub enum RowView {
    Server(Seq<char>, Seq<char>, bool, nat),
    Character(Seq<char>, Seq<char>, Seq<char>, Option<Seq<char>>, Option<Seq<char>>, Option<Seq<char>>, bool),
}

/// The text of an optional string.
pub open spec fn opt_str(o: Option<String>) -> Option<Seq<char>> {
    match o {
        Some(s) => Some(s@),
        None => None,
    }
}

impl View for TreeRow {
    type V = RowView;

    open spec fn view(&self) -> RowView {
        match self {
            TreeRow::Server { server_id, name, collapsed, char_count } => RowView::Server(
                server_id@,
                name@,
                *collapsed,
                *char_count as nat,
            ),
            TreeRow::Character { server_id, char_id, name, login, hint, notes, is_last } => RowView::Character(
                server_id@,
                char_id@,
                name@,
                opt_str(*login),
                opt_str(*hint),
                opt_str(*notes),
                *is_last,
            ),
        }
    }
}

/// The views of the rows.
pub open spec fn rows_view(v: Seq<TreeRow>) -> Seq<RowView> {
    v.map_values(|r: TreeRow| r@)
}

/// The row of a character under server `sid`.
pub open spec fn char_row(sid: Seq<char>, c: Character, is_last: bool) -> RowView {
    RowView::Character(sid, c.id@, c.name@, opt_str(c.login), opt_str(c.password_hint), opt_str(c.notes), is_last)
}

/// The set of collapsed server ids.
pub open spec fn coll_set(v: Seq<String>) -> Set<Seq<char>> {
    Set::new(|x: Seq<char>| is_collapsed(v, x))
}

/// The rows of one server: its own row, then (unless collapsed) its
/// characters, the last one marked.
pub open spec fn server_rows(s: Server, chars: Seq<Character>, collapsed: Set<Seq<char>>) -> Seq<RowView> {
    let cs = spec_characters_for_server(chars, s.id@);
    let c = collapsed.contains(s.id@);
    let last = if cs.len() > 0 { cs.len() - 1 } else { 0 };
    seq![RowView::Server(s.id@, s.name@, c, cs.len())] + if c {
        Seq::empty()
    } else {
        Seq::new(cs.len(), |i: int| char_row(s.id@, cs[i], i == last))
    }
}

/// The visible tree: each server's rows in configuration order.
pub open spec fn spec_tree(servers: Seq<Server>, chars: Seq<Character>, collapsed: Set<Seq<char>>) -> Seq<RowView>
    decreases servers.len(),
{
    if servers.len() == 0 {
        seq![]
    } else {
        spec_tree(servers.drop_last(), chars, collapsed) + server_rows(servers.last(), chars, collapsed)
    }
}

/// Build the visible tree from the configuration and the collapsed servers.
pub fn build_tree(config: &Config, collapsed: &Vec<String>) -> (r: Vec<TreeRow>)
    ensures
        rows_view(r@) == spec_tree(config.servers@, config.characters@, coll_set(collapsed@)),
{
    let mut rows: Vec<TreeRow> = Vec::new();
    let mut i: usize = 0;
    while i < config.servers.len()
        invariant
            i <= config.servers@.len(),
            rows_view(rows@) == spec_tree(config.servers@.take(i as int), config.characters@, coll_set(collapsed@)),
        decreases config.servers.len() - i,
    {
        proof {
            assert(config.servers@.take(i + 1).drop_last() =~= config.servers@.take(i as int));
        }
        let server = &config.servers[i];
        let chars = config.characters_for_server(server.id.as_str());
        let ghost cs = spec_characters_for_server(config.characters@, server.id@);
        let is_c = contains_id(collapsed, server.id.as_str());
        let ghost before = rows_view(rows@);
        let srow = TreeRow::Server {
            server_id: server.id.clone(),
            name: server.name.clone(),
            collapsed: is_c,
            char_count: chars.len(),
        };
        rows.push(srow);
        proof {
            assert(rows_view(rows@) =~= before.push(srow@));
            assert(chars@.len() == cs.len()) by {
                assert(chars@.map_values(|c: &Character| *c).len() == chars@.len());
            }
        }
        if !is_c {
            let last = if chars.len() > 0 { chars.len() - 1 } else { 0 };
            let mut k: usize = 0;
            while k < chars.len()
                invariant
                    k <= chars@.len(),
                    chars@.len() == cs.len(),
                    chars@.map_values(|c: &Character| *c) == cs,
                    last == (if cs.len() > 0 { cs.len() - 1 } else { 0 }),
                    rows_view(rows@) == before.push(srow@) + Seq::new(k as nat, |j: int| char_row(server.id@, cs[j], j == last)),
                decreases chars.len() - k,
            {
                let ch = chars[k];
                proof {
                    assert(*ch == cs[k as int]);
                }
                let row = TreeRow::Character {
                    server_id: server.id.clone(),
                    char_id: ch.id.clone(),
                    name: ch.name.clone(),
                    login: clone_opt(&ch.login),
                    hint: clone_opt(&ch.password_hint),
                    notes: clone_opt(&ch.notes),
                    is_last: k == last,
                };
                let ghost b2 = rows_view(rows@);
                rows.push(row);
                proof {
                    assert(rows_view(rows@) =~= b2.push(row@));
                    assert(before.push(srow@) + Seq::new((k + 1) as nat, |j: int| char_row(server.id@, cs[j], j == last))
                        =~= (before.push(srow@) + Seq::new(k as nat, |j: int| char_row(server.id@, cs[j], j == last))).push(row@));
                }
                k += 1;
            }
            proof {
                assert(before.push(srow@) + Seq::new(cs.len(), |j: int| char_row(server.id@, cs[j], j == last))
                    =~= before + server_rows(*server, config.characters@, coll_set(collapsed@)));
            }
        } else {
            proof {
                assert(before.push(srow@) =~= before + server_rows(*server, config.characters@, coll_set(collapsed@)));
            }
        }
        i += 1;
    }
    assert(config.servers@.take(config.servers@.len() as int) =~= config.servers@);
    rows
}

/// A copy of an optional string.
fn clone_opt(o: &Option<String>) -> (r: Option<String>)
    ensures
        opt_str(r) == opt_str(*o),
{
    match o {
        Some(s) => Some(s.clone()),
        None => None,
    }
}

} // verus!

verus! {

use crate::ui::keys::{KeyCode, KeyEvent};

// ---------------------------------------------------------------------------
// Dialogs
// ---------------------------------------------------------------------------

/// An editable field of a dialog.
pub struct DialogField {
    pub label: &'static str,
    pub value: String,
    /// Whether the value is shown as asterisks.
    pub masked: bool,
}

/// A field as plain values: label, value, masked.
pub type FieldV = (Seq<char>, Seq<char>, bool);

impl View for DialogField {
    type V = FieldV;

    open spec fn view(&self) -> FieldV {
        (self.label@, self.value@, self.masked)
    }
}

impl DialogField {
    /// An empty field.
    pub fn plain(label: &'static str) -> (f: DialogField)
        ensures
            f@ == (label@, Seq::<char>::empty(), false),
    {
        DialogField { label, value: String::new(), masked: false }
    }

    /// A field holding `value`.
    pub fn prefilled(label: &'static str, value: &str) -> (f: DialogField)
        ensures
            f@ == (label@, value@, false),
    {
        DialogField { label, value: string_of(&chars_of(value)), masked: false }
    }

    /// An empty field whose value is shown as asterisks.
    pub fn secret(label: &'static str) -> (f: DialogField)
        ensures
            f@ == (label@, Seq::<char>::empty(), true),
    {
        DialogField { label, value: String::new(), masked: true }
    }
}

/// A dialog with labelled text fields, one of them focused.
pub struct TextDialog {
    pub title: &'static str,
    pub fields: Vec<DialogField>,
    pub focused: usize,
}

/// The fields of a dialog as plain values.
pub open spec fn fields_view(v: Seq<DialogField>) -> Seq<FieldV> {
    v.map_values(|f: DialogField| f@)
}

/// What a delete dialog deletes.
pub enum DeleteTarget {
    Server(String),
    Character(String),
}

/// The dialogs of the selection screen.
pub enum Dialog {
    AddServer(TextDialog),
    EditServer { server_id: String, inner: TextDialog },
    AddCharacter { server_id: String, inner: TextDialog },
    EditCharacter { char_id: String, inner: TextDialog },
    ConfirmDelete { target: DeleteTarget },
}

/// What kind of dialog, with the id it is about.
pub enum DialogKind {
    AddServer,
    EditServer(Seq<char>),
    AddCharacter(Seq<char>),
    EditCharacter(Seq<char>),
    DeleteServer(Seq<char>),
    DeleteCharacter(Seq<char>),
}

/// A dialog as plain values (a delete dialog has no title or fields).
pub struct DialogV {
    pub kind: DialogKind,
    pub title: Seq<char>,
    pub fields: Seq<FieldV>,
    pub focused: usize,
}

/// A text dialog as plain values.
pub open spec fn text_dialog_view(kind: DialogKind, d: TextDialog) -> DialogV {
    DialogV { kind, title: d.title@, fields: fields_view(d.fields@), focused: d.focused }
}

impl View for Dialog {
    type V = DialogV;

    open spec fn view(&self) -> DialogV {
        match self {
            Dialog::AddServer(d) => text_dialog_view(DialogKind::AddServer, *d),
            Dialog::EditServer { server_id, inner } => text_dialog_view(DialogKind::EditServer(server_id@), *inner),
            Dialog::AddCharacter { server_id, inner } => text_dialog_view(DialogKind::AddCharacter(server_id@), *inner),
            Dialog::EditCharacter { char_id, inner } => text_dialog_view(DialogKind::EditCharacter(char_id@), *inner),
            Dialog::ConfirmDelete { target } => DialogV {
                kind: match target {
                    DeleteTarget::Server(id) => DialogKind::DeleteServer(id@),
                    DeleteTarget::Character(id) => DialogKind::DeleteCharacter(id@),
                },
                title: seq![],
                fields: seq![],
                focused: 0,
            },
        }
    }
}

/// The fields of the add-server dialog.
pub open spec fn add_server_fields() -> Seq<FieldV> {
    seq![("Name"@, seq![], false), ("Host"@, seq![], false), ("Port"@, "23"@, false), ("TLS (y/n)"@, "n"@, false)]
}

/// The fields of the edit-server dialog for `s`.
pub open spec fn edit_server_fields(s: Server) -> Seq<FieldV> {
    seq![
        ("Name"@, s.name@, false),
        ("Host"@, s.host@, false),
        ("Port"@, crate::text::dec_digits(s.port as nat), false),
        ("TLS (y/n)"@, if s.tls { "y"@ } else { "n"@ }, false),
    ]
}

/// The fields of the add-character dialog.
pub open spec fn add_character_fields() -> Seq<FieldV> {
    seq![
        ("Name"@, seq![], false),
        ("Login (empty = same as Name)"@, seq![], false),
        ("Password"@, seq![], true),
        ("Password hint (optional)"@, seq![], false),
        ("Notes (race, class, \u{2026})"@, seq![], false),
    ]
}

/// The text of an optional string, or nothing.
pub open spec fn or_empty(o: Option<String>) -> Seq<char> {
    match o {
        Some(s) => s@,
        None => seq![],
    }
}

/// The fields of the edit-character dialog for `c`.
pub open spec fn edit_character_fields(c: Character) -> Seq<FieldV> {
    seq![
        ("Name"@, c.name@, false),
        ("Login (empty = same as Name)"@, or_empty(c.login), false),
        ("Password (empty = keep current)"@, seq![], true),
        ("Password hint"@, or_empty(c.password_hint), false),
        ("Notes (race, class, \u{2026})"@, or_empty(c.notes), false),
    ]
}

/// The text of an optional string, or nothing.
fn str_or_empty(o: &Option<String>) -> (r: &str)
    ensures
        r@ == or_empty(*o),
{
    match o {
        Some(s) => {
            let r = s.as_str();
            assert(r@ == s@);
            r
        },
        None => {
            proof {
                reveal_strlit("");
            }
            ""
        },
    }
}

impl Dialog {
    /// The dialog that adds a server.
    pub fn add_server() -> (d: Dialog)
        ensures
            d@ == (DialogV { kind: DialogKind::AddServer, title: "Add Server"@, fields: add_server_fields(), focused: 0 }),
    {
        let mut fields: Vec<DialogField> = Vec::new();
        fields.push(DialogField::plain("Name"));
        fields.push(DialogField::plain("Host"));
        fields.push(DialogField::prefilled("Port", "23"));
        fields.push(DialogField::prefilled("TLS (y/n)", "n"));
        let d = Dialog::AddServer(TextDialog { title: "Add Server", fields, focused: 0 });
        assert(fields_view(fields@) =~= add_server_fields());
        d
    }

    /// The dialog that edits server `s`.
    pub fn edit_server(s: &Server) -> (d: Dialog)
        ensures
            d@ == (DialogV { kind: DialogKind::EditServer(s.id@), title: "Edit Server"@, fields: edit_server_fields(*s), focused: 0 }),
    {
        let port = string_of(&crate::text::u64_text(s.port as u64));
        let mut fields: Vec<DialogField> = Vec::new();
        fields.push(DialogField::prefilled("Name", s.name.as_str()));
        fields.push(DialogField::prefilled("Host", s.host.as_str()));
        fields.push(DialogField::prefilled("Port", port.as_str()));
        fields.push(DialogField::prefilled("TLS (y/n)", if s.tls { "y" } else { "n" }));
        let d = Dialog::EditServer {
            server_id: s.id.clone(),
            inner: TextDialog { title: "Edit Server", fields, focused: 0 },
        };
        assert(fields_view(fields@) =~= edit_server_fields(*s));
        d
    }

    /// The dialog that adds a character to server `server_id`.
    pub fn add_character(server_id: &str) -> (d: Dialog)
        ensures
            d@ == (DialogV {
                kind: DialogKind::AddCharacter(server_id@),
                title: "Add Character"@,
                fields: add_character_fields(),
                focused: 0,
            }),
    {
        let mut fields: Vec<DialogField> = Vec::new();
        fields.push(DialogField::plain("Name"));
        fields.push(DialogField::plain("Login (empty = same as Name)"));
        fields.push(DialogField::secret("Password"));
        fields.push(DialogField::plain("Password hint (optional)"));
        fields.push(DialogField::plain("Notes (race, class, \u{2026})"));
        let d = Dialog::AddCharacter {
            server_id: string_of(&chars_of(server_id)),
            inner: TextDialog { title: "Add Character", fields, focused: 0 },
        };
        assert(fields_view(fields@) =~= add_character_fields());
        d
    }

    /// The dialog that edits character `c`.
    pub fn edit_character(c: &Character) -> (d: Dialog)
        ensures
            d@ == (DialogV {
                kind: DialogKind::EditCharacter(c.id@),
                title: "Edit Character"@,
                fields: edit_character_fields(*c),
                focused: 0,
            }),
    {
        let mut fields: Vec<DialogField> = Vec::new();
        fields.push(DialogField::prefilled("Name", c.name.as_str()));
        fields.push(DialogField::prefilled("Login (empty = same as Name)", str_or_empty(&c.login)));
        fields.push(DialogField::secret("Password (empty = keep current)"));
        fields.push(DialogField::prefilled("Password hint", str_or_empty(&c.password_hint)));
        fields.push(DialogField::prefilled("Notes (race, class, \u{2026})", str_or_empty(&c.notes)));
        let d = Dialog::EditCharacter {
            char_id: c.id.clone(),
            inner: TextDialog { title: "Edit Character", fields, focused: 0 },
        };
        assert(fields_view(fields@) =~= edit_character_fields(*c));
        d
    }

    /// The text dialog inside, if this is not a delete dialog.
    pub fn as_text_dialog(&self) -> (r: Option<&TextDialog>)
        ensures
            match r {
                Some(t) => !(self@.kind is DeleteServer || self@.kind is DeleteCharacter) && t.title@ == self@.title
                    && fields_view(t.fields@) == self@.fields && t.focused == self@.focused,
                None => self@.kind is DeleteServer || self@.kind is DeleteCharacter,
            },
    {
        match self {
            Dialog::AddServer(d) => Some(d),
            Dialog::EditServer { inner, .. } => Some(inner),
            Dialog::AddCharacter { inner, .. } => Some(inner),
            Dialog::EditCharacter { inner, .. } => Some(inner),
            Dialog::ConfirmDelete { .. } => None,
        }
    }
}

} // verus!

verus! {

// ---------------------------------------------------------------------------
// Selection state
// ---------------------------------------------------------------------------

/// The state of the selection screen.
pub struct SelectState {
    /// Cursor row in the visible tree.
    pub cursor: usize,
    /// Ids of the servers whose characters are hidden.
    pub collapsed: Vec<String>,
    /// The open dialog, if any.
    pub dialog: Option<Dialog>,
    /// Set by Enter on a character (or a server without characters): the
    /// server id and the character id, if any.
    pub pending_connect: Option<(String, Option<String>)>,
}

/// A pending connection as plain values.
pub open spec fn pending_view(p: Option<(String, Option<String>)>) -> Option<(Seq<char>, Option<Seq<char>>)> {
    match p {
        Some((s, c)) => Some((s@, opt_str(c))),
        None => None,
    }
}

/// The view of an optional dialog.
pub open spec fn dialog_view(d: Option<Dialog>) -> Option<DialogV> {
    match d {
        Some(x) => Some(x@),
        None => None,
    }
}

/// The selection screen as plain values.
pub struct SelectModel {
    pub cursor: usize,
    pub collapsed: Set<Seq<char>>,
    pub dialog: Option<DialogV>,
    pub pending_connect: Option<(Seq<char>, Option<Seq<char>>)>,
}

impl View for SelectState {
    type V = SelectModel;

    open spec fn view(&self) -> SelectModel {
        SelectModel {
            cursor: self.cursor,
            collapsed: coll_set(self.collapsed@),
            dialog: dialog_view(self.dialog),
            pending_connect: pending_view(self.pending_connect),
        }
    }
}

/// The cursor kept within a tree of `len` rows.
pub open spec fn clamped(cursor: usize, len: int) -> usize {
    if len == 0 {
        0
    } else if cursor < len - 1 {
        cursor
    } else {
        (len - 1) as usize
    }
}

/// Index of the first row of server `sid`.
pub open spec fn server_row_index(tree: Seq<RowView>, sid: Seq<char>) -> Option<int>
    decreases tree.len(),
{
    if tree.len() == 0 {
        None
    } else if tree[0] matches RowView::Server(id, _, _, _) && id == sid {
        Some(0)
    } else {
        match server_row_index(tree.drop_first(), sid) {
            Some(i) => Some(i + 1),
            None => None,
        }
    }
}

/// Index of the first row of character `cid`.
pub open spec fn char_row_index(tree: Seq<RowView>, cid: Seq<char>) -> Option<int>
    decreases tree.len(),
{
    if tree.len() == 0 {
        None
    } else if tree[0] matches RowView::Character(_, id, _, _, _, _, _) && id == cid {
        Some(0)
    } else {
        match char_row_index(tree.drop_first(), cid) {
            Some(i) => Some(i + 1),
            None => None,
        }
    }
}

/// The cursor after moving to the row found (if any) and clamping.
pub open spec fn moved_cursor(cursor: usize, found: Option<int>, len: int) -> usize {
    clamped(
        match found {
            Some(i) => i as usize,
            None => cursor,
        },
        len,
    )
}

/// Index of the first row of server `sid`.
fn find_server_row(tree: &Vec<TreeRow>, sid: &str) -> (r: Option<usize>)
    ensures
        match r {
            Some(i) => server_row_index(rows_view(tree@), sid@) == Some(i as int),
            None => server_row_index(rows_view(tree@), sid@) is None,
        },
{
    let ghost t = rows_view(tree@);
    proof { assert(t.skip(0) =~= t); }
    let mut i: usize = 0;
    while i < tree.len()
        invariant
            i <= tree@.len(),
            t == rows_view(tree@),
            server_row_index(t, sid@) == (match server_row_index(t.skip(i as int), sid@) {
                Some(j) => Some(j + i),
                None => None,
            }),
        decreases tree.len() - i,
    {
        let hit = match &tree[i] {
            TreeRow::Server { server_id: id, .. } => str_eq(id.as_str(), sid),
            _ => false,
        };
        proof {
            assert(t.skip(i as int)[0] == t[i as int]);
            assert(t.skip(i as int).drop_first() =~= t.skip(i + 1));
        }
        if hit {
            return Some(i);
        }
        i += 1;
    }
    None
}

/// Index of the first row of character `cid`.
fn find_char_row(tree: &Vec<TreeRow>, cid: &str) -> (r: Option<usize>)
    ensures
        match r {
            Some(i) => char_row_index(rows_view(tree@), cid@) == Some(i as int),
            None => char_row_index(rows_view(tree@), cid@) is None,
        },
{
    let ghost t = rows_view(tree@);
    proof { assert(t.skip(0) =~= t); }
    let mut i: usize = 0;
    while i < tree.len()
        invariant
            i <= tree@.len(),
            t == rows_view(tree@),
            char_row_index(t, cid@) == (match char_row_index(t.skip(i as int), cid@) {
                Some(j) => Some(j + i),
                None => None,
            }),
        decreases tree.len() - i,
    {
        let hit = match &tree[i] {
            TreeRow::Character { char_id: id, .. } => str_eq(id.as_str(), cid),
            _ => false,
        };
        proof {
            assert(t.skip(i as int)[0] == t[i as int]);
            assert(t.skip(i as int).drop_first() =~= t.skip(i + 1));
        }
        if hit {
            return Some(i);
        }
        i += 1;
    }
    None
}

impl SelectState {
    /// The initial screen: cursor on the first row, nothing collapsed, no
    /// dialog, nothing to connect to.
    pub fn new() -> (s: SelectState)
        ensures
            s@.cursor == 0,
            s@.collapsed == Set::<Seq<char>>::empty(),
            s@.dialog is None,
            s@.pending_connect is None,
    {
        let s = SelectState { cursor: 0, collapsed: Vec::new(), dialog: None, pending_connect: None };
        assert(coll_set(s.collapsed@) =~= Set::<Seq<char>>::empty());
        s
    }

    /// Keep the cursor within a tree of `tree_len` rows.
    pub fn clamp(&mut self, tree_len: usize)
        ensures
            final(self)@ == (SelectModel { cursor: clamped(old(self).cursor, tree_len as int), ..old(self)@ }),
    {
        if tree_len == 0 {
            self.cursor = 0;
        } else if self.cursor >= tree_len - 1 {
            self.cursor = tree_len - 1;
        }
    }

    /// Move the cursor to the row of server `server_id`.
    pub fn move_to_server(&mut self, config: &Config, server_id: &str)
        ensures
            ({
                let tree = spec_tree(config.servers@, config.characters@, old(self)@.collapsed);
                final(self)@ == (SelectModel {
                    cursor: moved_cursor(old(self).cursor, server_row_index(tree, server_id@), tree.len() as int),
                    ..old(self)@
                })
            }),
    {
        let tree = build_tree(config, &self.collapsed);
        match find_server_row(&tree, server_id) {
            Some(i) => {
                self.cursor = i;
            },
            None => {},
        }
        self.clamp(tree.len());
    }

    /// Move the cursor to the row of character `char_id`.
    pub fn move_to_char(&mut self, config: &Config, char_id: &str)
        ensures
            ({
                let tree = spec_tree(config.servers@, config.characters@, old(self)@.collapsed);
                final(self)@ == (SelectModel {
                    cursor: moved_cursor(old(self).cursor, char_row_index(tree, char_id@), tree.len() as int),
                    ..old(self)@
                })
            }),
    {
        let tree = build_tree(config, &self.collapsed);
        match find_char_row(&tree, char_id) {
            Some(i) => {
                self.cursor = i;
            },
            None => {},
        }
        self.clamp(tree.len());
    }
}

// ---------------------------------------------------------------------------
// Text input in dialogs
// ---------------------------------------------------------------------------

/// What a key in a text dialog means for the dialog.
#[derive(Debug, Clone, Copy, PartialEq, Eq, Structural)]
pub enum TextInputResult {
    Continue,
    Confirm,
    Cancel,
}

/// A key in a text dialog: Esc cancels; Enter moves to the next field, or
/// confirms on the last; Tab / Down and BackTab / Up move between fields;
/// Backspace deletes the last character of the focused field; a character
/// is appended to it.
pub open spec fn spec_text_input(fields: Seq<FieldV>, focused: usize, code: KeyCode) -> (Seq<FieldV>, usize, TextInputResult) {
    let f = fields[focused as int];
    match code {
        KeyCode::Esc => (fields, focused, TextInputResult::Cancel),
        KeyCode::Enter => if focused + 1 < fields.len() {
            (fields, (focused + 1) as usize, TextInputResult::Continue)
        } else {
            (fields, focused, TextInputResult::Confirm)
        },
        KeyCode::Tab | KeyCode::Down => (
            fields,
            if focused + 1 < fields.len() { (focused + 1) as usize } else { focused },
            TextInputResult::Continue,
        ),
        KeyCode::BackTab | KeyCode::Up => (
            fields,
            if focused > 0 { (focused - 1) as usize } else { focused },
            TextInputResult::Continue,
        ),
        KeyCode::Backspace => (
            fields.update(focused as int, (f.0, if f.1.len() > 0 { f.1.drop_last() } else { f.1 }, f.2)),
            focused,
            TextInputResult::Continue,
        ),
        KeyCode::Char(c) => (fields.update(focused as int, (f.0, f.1.push(c), f.2)), focused, TextInputResult::Continue),
        _ => (fields, focused, TextInputResult::Continue),
    }
}

/// Apply a key to a text dialog.
pub fn text_input(d: &mut TextDialog, key: KeyEvent) -> (r: TextInputResult)
    requires
        old(d).focused < old(d).fields@.len(),
    ensures
        (fields_view(final(d).fields@), final(d).focused, r) == spec_text_input(fields_view(old(d).fields@), old(d).focused, key.code),
        final(d).title == old(d).title,
        final(d).focused < final(d).fields@.len(),
        final(d).fields@.len() == old(d).fields@.len(),
{
    let n = d.fields.len();
    match key.code {
        KeyCode::Esc => TextInputResult::Cancel,
        KeyCode::Enter => {
            if d.focused < n - 1 {
                d.focused += 1;
                TextInputResult::Continue
            } else {
                TextInputResult::Confirm
            }
        },
        KeyCode::Tab | KeyCode::Down => {
            if d.focused < n - 1 {
                d.focused += 1;
            }
            TextInputResult::Continue
        },
        KeyCode::BackTab | KeyCode::Up => {
            if d.focused > 0 {
                d.focused -= 1;
            }
            TextInputResult::Continue
        },
        KeyCode::Backspace | KeyCode::Char(_) => {
            let i = d.focused;
            let f = &d.fields[i];
            let mut v = chars_of(f.value.as_str());
            match key.code {
                KeyCode::Char(c) => {
                    v.push(c);
                },
                _ => {
                    if v.len() > 0 {
                        v.pop();
                    }
                },
            }
            let nf = DialogField { label: f.label, value: string_of(&v), masked: f.masked };
            let ghost before = d.fields@;
            d.fields.set(i, nf);
            proof {
                assert(fields_view(d.fields@) =~= fields_view(before).update(i as int, nf@));
            }
            TextInputResult::Continue
        },
        _ => TextInputResult::Continue,
    }
}

} // verus!

verus! {

use crate::config::{is_uuid_text, spec_default_panels, spec_effective_login};
use crate::text::{trim, unicode_lower};
use crate::ui::style::parse_unsigned;

// ---------------------------------------------------------------------------
// Dialog outcomes
// ---------------------------------------------------------------------------

/// Storage work the selection screen asks for.
pub enum StoreAction {
    /// Write the configuration file.
    SaveConfig,
    /// Store a password in the OS keyring for `server_id` / `login`.
    StorePassword { server_id: String, login: String, password: String },
    /// Remove the password stored for `server_id` / `login`.
    DeletePassword { server_id: String, login: String },
}

/// A storage action as plain values.
pub enum StoreActionV {
    SaveConfig,
    StorePassword(Seq<char>, Seq<char>, Seq<char>),
    DeletePassword(Seq<char>, Seq<char>),
}

impl View for StoreAction {
    type V = StoreActionV;

    open spec fn view(&self) -> StoreActionV {
        match self {
            StoreAction::SaveConfig => StoreActionV::SaveConfig,
            StoreAction::StorePassword { server_id, login, password } => StoreActionV::StorePassword(
                server_id@,
                login@,
                password@,
            ),
            StoreAction::DeletePassword { server_id, login } => StoreActionV::DeletePassword(server_id@, login@),
        }
    }
}

/// The views of storage actions.
pub open spec fn actions_view(v: Seq<StoreAction>) -> Seq<StoreActionV> {
    v.map_values(|a: StoreAction| a@)
}

/// A server as plain values: id, name, host, port, TLS, notes.
pub open spec fn server_view(s: Server) -> (Seq<char>, Seq<char>, Seq<char>, u16, bool, Option<Seq<char>>) {
    (s.id@, s.name@, s.host@, s.port, s.tls, opt_str(s.notes))
}

/// The views of servers.
pub open spec fn servers_view(v: Seq<Server>) -> Seq<(Seq<char>, Seq<char>, Seq<char>, u16, bool, Option<Seq<char>>)> {
    v.map_values(|s: Server| server_view(s))
}

/// The port typed in a dialog: a `u16` once trimmed, else 23.
pub open spec fn typed_port(s: Seq<char>) -> u16 {
    match parse_unsigned(trim(s)) {
        Some(v) => if v <= 65535 {
            v as u16
        } else {
            23
        },
        None => 23,
    }
}

/// Whether a TLS field says yes: `y`, `yes`, `true` or `1` once trimmed and
/// lowercased.
pub open spec fn typed_yes(s: Seq<char>) -> bool {
    let l = unicode_lower(trim(s));
    l == "y"@ || l == "yes"@ || l == "true"@ || l == "1"@
}

/// `Some(s)` unless `s` is empty.
pub open spec fn non_empty(s: Seq<char>) -> Option<Seq<char>> {
    if s.len() > 0 {
        Some(s)
    } else {
        None
    }
}

/// Index of the first character whose id is `id`.
pub open spec fn first_char_with_id(chars: Seq<Character>, id: Seq<char>) -> Option<int>
    decreases chars.len(),
{
    if chars.len() == 0 {
        None
    } else if chars[0].id@ == id {
        Some(0)
    } else {
        match first_char_with_id(chars.drop_first(), id) {
            Some(k) => Some(k + 1),
            None => None,
        }
    }
}

/// The cursor after a deletion: kept on the tree, then moved up one row
/// when it is not on the first.
pub open spec fn cursor_after_delete(cursor: usize, len: int) -> usize {
    let c1 = clamped(cursor, len);
    if c1 > 0 && len > 0 {
        clamped((c1 - 1) as usize, len)
    } else {
        c1
    }
}

/// A character made by the add-character dialog, as the dialog's fields
/// describe it (its id aside).
pub open spec fn new_character_ok(c: Character, server_id: Seq<char>, fields: Seq<FieldV>) -> bool {
    let name = trim(fields[0].1);
    let login = trim(fields[1].1);
    &&& c.name@ == name
    &&& c.server_id@ == server_id
    &&& opt_str(c.login) == (if login.len() > 0 && login != name { Some(login) } else { None })
    &&& opt_str(c.password_hint) == non_empty(trim(fields[3].1))
    &&& opt_str(c.notes) == non_empty(trim(fields[4].1))
    &&& c.aliases@.len() == 0
    &&& c.triggers@.len() == 0
    &&& c.sidebar.right_visible
    &&& c.sidebar.right_width == 26
    &&& c.sidebar.panels@ == spec_default_panels()
    &&& c.sidebar.notes@.len() == 0
    &&& is_uuid_text(c.id@)
}

/// A character after the edit-character dialog: name replaced when one was
/// typed; login kept only when it differs from the name; hint and notes
/// replaced (emptied when blank); the rest unchanged.
pub open spec fn edited_character_ok(old_c: Character, c: Character, fields: Seq<FieldV>) -> bool {
    let new_name = trim(fields[0].1);
    let name = if new_name.len() > 0 { new_name } else { old_c.name@ };
    let login = trim(fields[1].1);
    &&& c.id == old_c.id
    &&& c.server_id == old_c.server_id
    &&& c.name@ == name
    &&& opt_str(c.login) == (if login.len() > 0 && login != name { Some(login) } else { None })
    &&& opt_str(c.password_hint) == non_empty(trim(fields[3].1))
    &&& opt_str(c.notes) == non_empty(trim(fields[4].1))
    &&& c.aliases == old_c.aliases
    &&& c.triggers == old_c.triggers
    &&& c.sidebar == old_c.sidebar
}

/// The keyring work after editing a character: store the password under the
/// new login when one was typed, and then drop the entry under the old login
/// if the login changed.
pub open spec fn edit_password_actions(old_c: Character, c: Character, password: Seq<char>) -> Seq<StoreActionV> {
    if password.len() > 0 {
        let nl = spec_effective_login(c);
        let ol = spec_effective_login(old_c);
        seq![StoreActionV::StorePassword(c.server_id@, nl, password)] + if ol != nl {
            seq![StoreActionV::DeletePassword(c.server_id@, ol)]
        } else {
            seq![]
        }
    } else {
        seq![]
    }
}

/// The server after the edit-server dialog: name and host replaced when
/// typed, port when non-zero, TLS always.
pub open spec fn edited_server(s: Server, fields: Seq<FieldV>) -> (Seq<char>, Seq<char>, Seq<char>, u16, bool, Option<Seq<char>>) {
    let name = trim(fields[0].1);
    let host = trim(fields[1].1);
    let port = typed_port(fields[2].1);
    (
        s.id@,
        if name.len() > 0 { name } else { s.name@ },
        if host.len() > 0 { host } else { s.host@ },
        if port > 0 { port } else { s.port },
        typed_yes(fields[3].1),
        opt_str(s.notes),
    )
}

/// Servers without server `id`.
pub open spec fn without_server(v: Seq<Server>, id: Seq<char>) -> Seq<Server> {
    v.filter(|s: Server| s.id@ != id)
}

/// Characters not of server `id`.
pub open spec fn without_server_chars(v: Seq<Character>, id: Seq<char>) -> Seq<Character> {
    v.filter(|c: Character| c.server_id@ != id)
}

/// Characters without character `id`.
pub open spec fn without_char(v: Seq<Character>, id: Seq<char>) -> Seq<Character> {
    v.filter(|c: Character| c.id@ != id)
}

/// What a text field holds, trimmed.
fn trimmed_field(d: &TextDialog, i: usize) -> (r: Vec<char>)
    requires
        i < d.fields@.len(),
    ensures
        r@ == trim(fields_view(d.fields@)[i as int].1),
{
    let v = chars_of(d.fields[i].value.as_str());
    crate::text::trim_vec(&v)
}

/// The port typed in a field.
fn port_of(v: &Vec<char>) -> (p: u16)
    ensures
        p == typed_port(v@),
{
    let t = crate::text::trim_vec(v);
    match crate::ui::style::parse_unsigned_up_to(&t, 65535) {
        Some(n) => n as u16,
        None => 23,
    }
}

/// Whether a field says yes.
fn yes_of(v: &Vec<char>) -> (b: bool)
    ensures
        b == typed_yes(v@),
{
    let t = crate::text::trim_vec(v);
    let ts = string_of(&t);
    let l = crate::text::to_lowercase(ts.as_str());
    let lv = chars_of(l.as_str());
    let y = chars_of("y");
    let yes = chars_of("yes");
    let tr = chars_of("true");
    let one = chars_of("1");
    crate::text::chars_eq(&lv, &y) || crate::text::chars_eq(&lv, &yes) || crate::text::chars_eq(&lv, &tr)
        || crate::text::chars_eq(&lv, &one)
}

/// `Some` of the text unless it is empty.
fn non_empty_of(v: &Vec<char>) -> (r: Option<String>)
    ensures
        opt_str(r) == non_empty(v@),
{
    if v.len() > 0 {
        Some(string_of(v))
    } else {
        None
    }
}

} // verus!

verus! {

/// Servers without server `id`, in order.
fn drop_server(v: &mut Vec<Server>, id: &str)
    ensures
        final(v)@ == without_server(old(v)@, id@),
{
    let ghost orig = v@;
    let n0 = v.len();
    let mut old_v: Vec<Server> = Vec::new();
    std::mem::swap(&mut old_v, v);
    let mut k: usize = 0;
    assert(orig.skip(0) =~= orig);
    while old_v.len() > 0
        invariant
            k <= orig.len(),
            orig.len() == n0,
            old_v@ == orig.skip(k as int),
            v@ == without_server(orig.take(k as int), id@),
        decreases old_v.len(),
    {
        let x = old_v.remove(0);
        proof {
            assert(orig.take(k + 1).drop_last() =~= orig.take(k as int));
            assert(orig.skip(k as int)[0] == orig[k as int]);
            assert(orig.skip(k as int).remove(0) =~= orig.skip(k + 1));
            reveal_with_fuel(Seq::filter, 1);
        }
        if !str_eq(x.id.as_str(), id) {
            v.push(x);
        }
        k += 1;
    }
    assert(orig.take(k as int) =~= orig);
}

/// Characters for which `keep` holds, in order: those not of server `id`
/// (`by_server`), or not with id `id`.
fn drop_chars(v: &mut Vec<Character>, id: &str, by_server: bool)
    ensures
        final(v)@ == (if by_server { without_server_chars(old(v)@, id@) } else { without_char(old(v)@, id@) }),
{
    let ghost orig = v@;
    let n0 = v.len();
    let mut old_v: Vec<Character> = Vec::new();
    std::mem::swap(&mut old_v, v);
    let mut k: usize = 0;
    assert(orig.skip(0) =~= orig);
    while old_v.len() > 0
        invariant
            k <= orig.len(),
            orig.len() == n0,
            old_v@ == orig.skip(k as int),
            v@ == (if by_server { without_server_chars(orig.take(k as int), id@) } else { without_char(orig.take(k as int), id@) }),
        decreases old_v.len(),
    {
        let x = old_v.remove(0);
        proof {
            assert(orig.take(k + 1).drop_last() =~= orig.take(k as int));
            assert(orig.skip(k as int)[0] == orig[k as int]);
            assert(orig.skip(k as int).remove(0) =~= orig.skip(k + 1));
            reveal_with_fuel(Seq::filter, 1);
        }
        let keep = if by_server { !str_eq(x.server_id.as_str(), id) } else { !str_eq(x.id.as_str(), id) };
        if keep {
            v.push(x);
        }
        k += 1;
    }
    assert(orig.take(k as int) =~= orig);
}

/// The delete dialog: y / Y / Enter delete (a server with its characters),
/// save, and keep the cursor on the tree one row up; n / N / Esc just close.
fn confirm_delete(
    target: &DeleteTarget,
    state: &mut SelectState,
    config: &mut Config,
    key: KeyEvent,
    actions: &mut Vec<StoreAction>,
) -> (close: bool)
    ensures
        ({
            let yes = key.code == KeyCode::Char('y') || key.code == KeyCode::Char('Y') || key.code == KeyCode::Enter;
            let no = key.code == KeyCode::Char('n') || key.code == KeyCode::Char('N') || key.code == KeyCode::Esc;
            if yes {
                let (servers, chars) = match target {
                    DeleteTarget::Server(id) => (without_server(old(config).servers@, id@), without_server_chars(old(config).characters@, id@)),
                    DeleteTarget::Character(id) => (old(config).servers@, without_char(old(config).characters@, id@)),
                };
                &&& close
                &&& final(config).servers@ == servers
                &&& final(config).characters@ == chars
                &&& actions_view(final(actions)@) == actions_view(old(actions)@).push(StoreActionV::SaveConfig)
                &&& final(state)@ == (SelectModel {
                    cursor: cursor_after_delete(old(state).cursor, spec_tree(servers, chars, old(state)@.collapsed).len() as int),
                    ..old(state)@
                })
            } else {
                &&& close == no
                &&& *final(config) == *old(config)
                &&& *final(actions) == *old(actions)
                &&& *final(state) == *old(state)
            }
        }),
{
    let yes = key.code == KeyCode::Char('y') || key.code == KeyCode::Char('Y') || key.code == KeyCode::Enter;
    if yes {
        match target {
            DeleteTarget::Server(id) => {
                drop_chars(&mut config.characters, id.as_str(), true);
                drop_server(&mut config.servers, id.as_str());
            },
            DeleteTarget::Character(id) => {
                drop_chars(&mut config.characters, id.as_str(), false);
            },
        }
        let ghost before = actions@;
        actions.push(StoreAction::SaveConfig);
        proof {
            assert(actions_view(actions@) =~= actions_view(before).push(StoreActionV::SaveConfig));
        }
        let tree_len = build_tree(config, &state.collapsed).len();
        state.clamp(tree_len);
        if state.cursor > 0 && tree_len > 0 {
            state.cursor = state.cursor - 1;
            state.clamp(tree_len);
        }
        return true;
    }
    key.code == KeyCode::Char('n') || key.code == KeyCode::Char('N') || key.code == KeyCode::Esc
}

/// Confirming the add-server dialog: with a name and a host, a server is
/// added (port 23 unless a valid one was typed, TLS when the field says
/// yes), the configuration saved and the cursor moved to it.
fn confirm_add_server(d: &TextDialog, state: &mut SelectState, config: &mut Config, actions: &mut Vec<StoreAction>)
    requires
        d.fields@.len() >= 4,
    ensures
        ({
            let f = fields_view(d.fields@);
            let name = trim(f[0].1);
            let host = trim(f[1].1);
            if name.len() > 0 && host.len() > 0 {
                let s = final(config).servers@.last();
                &&& final(config).servers@.len() == old(config).servers@.len() + 1
                &&& final(config).servers@.drop_last() == old(config).servers@
                &&& s.name@ == name && s.host@ == host && s.port == typed_port(f[2].1) && s.tls == typed_yes(f[3].1)
                &&& s.notes is None && is_uuid_text(s.id@)
                &&& final(config).characters == old(config).characters
                &&& actions_view(final(actions)@) == actions_view(old(actions)@).push(StoreActionV::SaveConfig)
                &&& ({
                    let tree = spec_tree(final(config).servers@, final(config).characters@, old(state)@.collapsed);
                    final(state)@ == (SelectModel {
                        cursor: moved_cursor(old(state).cursor, server_row_index(tree, s.id@), tree.len() as int),
                        ..old(state)@
                    })
                })
            } else {
                &&& *final(config) == *old(config)
                &&& *final(actions) == *old(actions)
                &&& *final(state) == *old(state)
            }
        }),
{
    let name = trimmed_field(d, 0);
    let host = trimmed_field(d, 1);
    let port = port_of(&chars_of(d.fields[2].value.as_str()));
    let tls = yes_of(&chars_of(d.fields[3].value.as_str()));
    if name.len() > 0 && host.len() > 0 {
        let ns = string_of(&name);
        let hs = string_of(&host);
        let mut server = Server::new(ns.as_str(), hs.as_str(), port);
        server.tls = tls;
        let sid = server.id.clone();
        config.servers.push(server);
        assert(config.servers@.drop_last() =~= old(config).servers@);
        let ghost before = actions@;
        actions.push(StoreAction::SaveConfig);
        proof {
            assert(actions_view(actions@) =~= actions_view(before).push(StoreActionV::SaveConfig));
        }
        state.move_to_server(config, sid.as_str());
    }
}

/// Confirming the edit-server dialog: the first server with the id gets the
/// typed values (see `edited_server`); the configuration is saved.
fn confirm_edit_server(
    d: &TextDialog,
    server_id: &String,
    config: &mut Config,
    actions: &mut Vec<StoreAction>,
)
    requires
        d.fields@.len() >= 4,
    ensures
        match crate::config::first_server_with_id(old(config).servers@, server_id@) {
            Some(k) => servers_view(final(config).servers@) == servers_view(old(config).servers@).update(
                k,
                edited_server(old(config).servers@[k], fields_view(d.fields@)),
            ),
            None => final(config).servers == old(config).servers,
        },
        final(config).characters == old(config).characters,
        actions_view(final(actions)@) == actions_view(old(actions)@).push(StoreActionV::SaveConfig),
{
    let name = trimmed_field(d, 0);
    let host = trimmed_field(d, 1);
    let port = port_of(&chars_of(d.fields[2].value.as_str()));
    let tls = yes_of(&chars_of(d.fields[3].value.as_str()));
    let mut k: usize = 0;
    while k < config.servers.len() && !str_eq(config.servers[k].id.as_str(), server_id.as_str())
        invariant
            k <= config.servers@.len(),
            config.servers == old(config).servers,
            config.characters == old(config).characters,
            forall|j: int| 0 <= j < k ==> (#[trigger] config.servers@[j]).id@ != server_id@,
        decreases config.servers.len() - k,
    {
        k += 1;
    }
    proof {
        lemma_first_server_at(config.servers@, server_id@, k as int);
    }
    if k < config.servers.len() {
        let old_s = config.servers.remove(k);
        let new_s = Server {
            id: old_s.id,
            name: if name.len() > 0 { string_of(&name) } else { old_s.name },
            host: if host.len() > 0 { string_of(&host) } else { old_s.host },
            port: if port > 0 { port } else { old_s.port },
            tls,
            notes: old_s.notes,
        };
        config.servers.insert(k, new_s);
        proof {
            assert(servers_view(config.servers@) =~= servers_view(old(config).servers@).update(
                k as int,
                edited_server(old(config).servers@[k as int], fields_view(d.fields@)),
            ));
        }
    }
    let ghost before = actions@;
    actions.push(StoreAction::SaveConfig);
    proof {
        assert(actions_view(actions@) =~= actions_view(before).push(StoreActionV::SaveConfig));
    }
}

proof fn lemma_first_server_at(servers: Seq<Server>, id: Seq<char>, n: int)
    requires
        0 <= n <= servers.len(),
        forall|k: int| 0 <= k < n ==> (#[trigger] servers[k]).id@ != id,
        n < servers.len() ==> servers[n].id@ == id,
    ensures
        n < servers.len() ==> crate::config::first_server_with_id(servers, id) == Some(n),
        n == servers.len() ==> crate::config::first_server_with_id(servers, id) is None,
    decreases n,
{
    if n > 0 {
        assert forall|k: int| 0 <= k < n - 1 implies (#[trigger] servers.drop_first()[k]).id@ != id by {
            assert(servers.drop_first()[k] == servers[k + 1]);
        }
        lemma_first_server_at(servers.drop_first(), id, n - 1);
    }
}

proof fn lemma_first_char_at(chars: Seq<Character>, id: Seq<char>, n: int)
    requires
        0 <= n <= chars.len(),
        forall|k: int| 0 <= k < n ==> (#[trigger] chars[k]).id@ != id,
        n < chars.len() ==> chars[n].id@ == id,
    ensures
        n < chars.len() ==> first_char_with_id(chars, id) == Some(n),
        n == chars.len() ==> first_char_with_id(chars, id) is None,
    decreases n,
{
    if n > 0 {
        assert forall|k: int| 0 <= k < n - 1 implies (#[trigger] chars.drop_first()[k]).id@ != id by {
            assert(chars.drop_first()[k] == chars[k + 1]);
        }
        lemma_first_char_at(chars.drop_first(), id, n - 1);
    }
}

} // verus!

verus! {

/// Confirming the add-character dialog: with a name, a character is added
/// to the server (see `new_character_ok`), its password stored under its
/// login when one was typed, the server expanded, the configuration saved
/// and the cursor moved to it.
fn confirm_add_character(
    d: &TextDialog,
    server_id: &String,
    state: &mut SelectState,
    config: &mut Config,
    actions: &mut Vec<StoreAction>,
)
    requires
        d.fields@.len() >= 5,
    ensures
        ({
            let f = fields_view(d.fields@);
            let name = trim(f[0].1);
            if name.len() > 0 {
                let c = final(config).characters@.last();
                let pw = f[2].1;
                let coll = old(state)@.collapsed.remove(server_id@);
                &&& final(config).characters@.len() == old(config).characters@.len() + 1
                &&& final(config).characters@.drop_last() == old(config).characters@
                &&& new_character_ok(c, server_id@, f)
                &&& final(config).servers == old(config).servers
                &&& actions_view(final(actions)@) == actions_view(old(actions)@) + (if pw.len() > 0 {
                    seq![StoreActionV::StorePassword(server_id@, spec_effective_login(c), pw)]
                } else {
                    seq![]
                }) + seq![StoreActionV::SaveConfig]
                &&& ({
                    let tree = spec_tree(final(config).servers@, final(config).characters@, coll);
                    final(state)@ == (SelectModel {
                        cursor: moved_cursor(old(state).cursor, char_row_index(tree, c.id@), tree.len() as int),
                        collapsed: coll,
                        ..old(state)@
                    })
                })
            } else {
                &&& *final(config) == *old(config)
                &&& *final(actions) == *old(actions)
                &&& *final(state) == *old(state)
            }
        }),
{
    let name = trimmed_field(d, 0);
    let login = trimmed_field(d, 1);
    let password = d.fields[2].value.clone();
    let hint = trimmed_field(d, 3);
    let notes = trimmed_field(d, 4);
    if name.len() == 0 {
        return;
    }
    let ns = string_of(&name);
    let mut ch = Character::new(ns.as_str(), server_id.as_str());
    if login.len() > 0 && !crate::text::chars_eq(&login, &name) {
        ch.login = Some(string_of(&login));
    }
    ch.password_hint = non_empty_of(&hint);
    ch.notes = non_empty_of(&notes);
    let ghost a0 = actions_view(actions@);
    if !password.as_str().is_empty() {
        let effective = string_of(&chars_of(ch.effective_login()));
        let a = StoreAction::StorePassword {
            server_id: server_id.clone(),
            login: effective,
            password: password.clone(),
        };
        actions.push(a);
        proof {
            assert(actions_view(actions@) =~= a0.push(a@));
        }
    }
    let ghost a1 = actions_view(actions@);
    let cid = ch.id.clone();
    let ghost coll0 = state@.collapsed;
    state.collapsed = remove_id(&state.collapsed, server_id.as_str());
    assert(state@.collapsed =~= coll0.remove(server_id@));
    config.characters.push(ch);
    assert(config.characters@.drop_last() =~= old(config).characters@);
    actions.push(StoreAction::SaveConfig);
    proof {
        assert(actions_view(actions@) =~= a1.push(StoreActionV::SaveConfig));
        if password@.len() > 0 {
            assert(a1 =~= a0 + seq![StoreActionV::StorePassword(server_id@, spec_effective_login(config.characters@.last()), password@)]);
        } else {
            assert(a1 =~= a0 + Seq::<StoreActionV>::empty());
        }
    }
    state.move_to_char(config, cid.as_str());
}

/// Confirming the edit-character dialog: the first character with the id
/// is updated (see `edited_character_ok`), its password stored and the
/// old keyring entry dropped as `edit_password_actions` says; the
/// configuration is saved.
fn confirm_edit_character(
    d: &TextDialog,
    char_id: &String,
    config: &mut Config,
    actions: &mut Vec<StoreAction>,
)
    requires
        d.fields@.len() >= 5,
    ensures
        final(config).servers == old(config).servers,
        match first_char_with_id(old(config).characters@, char_id@) {
            Some(k) => {
                &&& final(config).characters@.len() == old(config).characters@.len()
                &&& forall|j: int| 0 <= j < old(config).characters@.len() && j != k ==> final(config).characters@[j] == old(config).characters@[j]
                &&& edited_character_ok(old(config).characters@[k], final(config).characters@[k], fields_view(d.fields@))
                &&& actions_view(final(actions)@) == actions_view(old(actions)@) + edit_password_actions(
                    old(config).characters@[k],
                    final(config).characters@[k],
                    fields_view(d.fields@)[2].1,
                ) + seq![StoreActionV::SaveConfig]
            },
            None => {
                &&& final(config).characters == old(config).characters
                &&& actions_view(final(actions)@) == actions_view(old(actions)@).push(StoreActionV::SaveConfig)
            },
        },
{
    let new_name = trimmed_field(d, 0);
    let login = trimmed_field(d, 1);
    let password = d.fields[2].value.clone();
    let hint = trimmed_field(d, 3);
    let notes = trimmed_field(d, 4);
    let mut k: usize = 0;
    while k < config.characters.len() && !str_eq(config.characters[k].id.as_str(), char_id.as_str())
        invariant
            k <= config.characters@.len(),
            config.characters == old(config).characters,
            config.servers == old(config).servers,
            forall|j: int| 0 <= j < k ==> (#[trigger] config.characters@[j]).id@ != char_id@,
        decreases config.characters.len() - k,
    {
        k += 1;
    }
    proof {
        lemma_first_char_at(config.characters@, char_id@, k as int);
    }
    let ghost a0 = actions_view(actions@);
    if k < config.characters.len() {
        let mut ch = config.characters.remove(k);
        let ghost old_c = ch;
        let server_id = ch.server_id.clone();
        let old_login = string_of(&chars_of(ch.effective_login()));
        if new_name.len() > 0 {
            ch.name = string_of(&new_name);
        }
        let cur_name = chars_of(ch.name.as_str());
        ch.login = if login.len() > 0 && !crate::text::chars_eq(&login, &cur_name) {
            Some(string_of(&login))
        } else {
            None
        };
        ch.password_hint = non_empty_of(&hint);
        ch.notes = non_empty_of(&notes);
        if !password.as_str().is_empty() {
            let new_login = string_of(&chars_of(ch.effective_login()));
            let a = StoreAction::StorePassword {
                server_id: server_id.clone(),
                login: new_login.clone(),
                password: password.clone(),
            };
            actions.push(a);
            let ghost a1 = actions_view(actions@);
            if !str_eq(old_login.as_str(), new_login.as_str()) {
                let b = StoreAction::DeletePassword { server_id: server_id.clone(), login: old_login };
                actions.push(b);
                proof {
                    assert(actions_view(actions@) =~= a1.push(b@));
                }
            }
            proof {
                assert(actions_view(actions@) =~= a0 + edit_password_actions(old_c, ch, password@));
            }
        } else {
            proof {
                assert(actions_view(actions@) =~= a0 + edit_password_actions(old_c, ch, password@));
            }
        }
        config.characters.insert(k, ch);
    }
    let ghost a2 = actions_view(actions@);
    actions.push(StoreAction::SaveConfig);
    proof {
        assert(actions_view(actions@) =~= a2.push(StoreActionV::SaveConfig));
    }
}

} // verus!

verus! {

/// The outcome of confirming a delete dialog of the given kind.
pub open spec fn delete_done(
    kind: DialogKind,
    os: SelectModel,
    ns: SelectModel,
    oc: Config,
    nc: Config,
    oa: Seq<StoreActionV>,
    na: Seq<StoreActionV>,
) -> bool {
    let (servers, chars) = match kind {
        DialogKind::DeleteServer(id) => (without_server(oc.servers@, id), without_server_chars(oc.characters@, id)),
        DialogKind::DeleteCharacter(id) => (oc.servers@, without_char(oc.characters@, id)),
        _ => (oc.servers@, oc.characters@),
    };
    &&& nc.servers@ == servers
    &&& nc.characters@ == chars
    &&& na == oa.push(StoreActionV::SaveConfig)
    &&& ns == (SelectModel { cursor: cursor_after_delete(os.cursor, spec_tree(servers, chars, os.collapsed).len() as int), ..os })
}

/// The outcome of confirming the add-server dialog with fields `f`.
pub open spec fn add_server_done(
    f: Seq<FieldV>,
    os: SelectModel,
    ns: SelectModel,
    oc: Config,
    nc: Config,
    oa: Seq<StoreActionV>,
    na: Seq<StoreActionV>,
) -> bool {
    let name = trim(f[0].1);
    let host = trim(f[1].1);
    if name.len() > 0 && host.len() > 0 {
        let s = nc.servers@.last();
        let tree = spec_tree(nc.servers@, nc.characters@, os.collapsed);
        &&& nc.servers@.len() == oc.servers@.len() + 1
        &&& nc.servers@.drop_last() == oc.servers@
        &&& s.name@ == name && s.host@ == host && s.port == typed_port(f[2].1) && s.tls == typed_yes(f[3].1)
        &&& s.notes is None && is_uuid_text(s.id@)
        &&& nc.characters == oc.characters
        &&& na == oa.push(StoreActionV::SaveConfig)
        &&& ns == (SelectModel { cursor: moved_cursor(os.cursor, server_row_index(tree, s.id@), tree.len() as int), ..os })
    } else {
        nc == oc && na == oa && ns == os
    }
}

/// The outcome of confirming the edit-server dialog for `sid` with fields `f`.
pub open spec fn edit_server_done(
    sid: Seq<char>,
    f: Seq<FieldV>,
    oc: Config,
    nc: Config,
    oa: Seq<StoreActionV>,
    na: Seq<StoreActionV>,
) -> bool {
    &&& match crate::config::first_server_with_id(oc.servers@, sid) {
        Some(k) => servers_view(nc.servers@) == servers_view(oc.servers@).update(k, edited_server(oc.servers@[k], f)),
        None => nc.servers == oc.servers,
    }
    &&& nc.characters == oc.characters
    &&& na == oa.push(StoreActionV::SaveConfig)
}

/// The outcome of confirming the add-character dialog for server `sid` with
/// fields `f`.
pub open spec fn add_character_done(
    sid: Seq<char>,
    f: Seq<FieldV>,
    os: SelectModel,
    ns: SelectModel,
    oc: Config,
    nc: Config,
    oa: Seq<StoreActionV>,
    na: Seq<StoreActionV>,
) -> bool {
    let name = trim(f[0].1);
    if name.len() > 0 {
        let c = nc.characters@.last();
        let pw = f[2].1;
        let coll = os.collapsed.remove(sid);
        let tree = spec_tree(nc.servers@, nc.characters@, coll);
        &&& nc.characters@.len() == oc.characters@.len() + 1
        &&& nc.characters@.drop_last() == oc.characters@
        &&& new_character_ok(c, sid, f)
        &&& nc.servers == oc.servers
        &&& na == oa + (if pw.len() > 0 {
            seq![StoreActionV::StorePassword(sid, spec_effective_login(c), pw)]
        } else {
            seq![]
        }) + seq![StoreActionV::SaveConfig]
        &&& ns == (SelectModel { cursor: moved_cursor(os.cursor, char_row_index(tree, c.id@), tree.len() as int), collapsed: coll, ..os })
    } else {
        nc == oc && na == oa && ns == os
    }
}

/// The outcome of confirming the edit-character dialog for `cid` with
/// fields `f`.
pub open spec fn edit_character_done(
    cid: Seq<char>,
    f: Seq<FieldV>,
    oc: Config,
    nc: Config,
    oa: Seq<StoreActionV>,
    na: Seq<StoreActionV>,
) -> bool {
    &&& nc.servers == oc.servers
    &&& match first_char_with_id(oc.characters@, cid) {
        Some(k) => {
            &&& nc.characters@.len() == oc.characters@.len()
            &&& forall|j: int| 0 <= j < oc.characters@.len() && j != k ==> nc.characters@[j] == oc.characters@[j]
            &&& edited_character_ok(oc.characters@[k], nc.characters@[k], f)
            &&& na == oa + edit_password_actions(oc.characters@[k], nc.characters@[k], f[2].1) + seq![StoreActionV::SaveConfig]
        },
        None => {
            &&& nc.characters == oc.characters
            &&& na == oa.push(StoreActionV::SaveConfig)
        },
    }
}

} // verus!

verus! {

/// A dialog is well formed: a text dialog has the fields its kind reads and
/// its focus is on one of them.
pub open spec fn dialog_wf(d: DialogV) -> bool {
    match d.kind {
        DialogKind::AddServer | DialogKind::EditServer(_) => d.fields.len() >= 4 && d.focused < d.fields.len(),
        DialogKind::AddCharacter(_) | DialogKind::EditCharacter(_) => d.fields.len() >= 5 && d.focused < d.fields.len(),
        _ => true,
    }
}

/// Whether a dialog is well formed (`dialog_wf`): a text dialog has all its
/// fields and its focus on one of them.
pub fn dialog_ok(d: &Dialog) -> (r: bool)
    ensures
        r == dialog_wf(d@),
{
    match d {
        Dialog::AddServer(t) => t.fields.len() >= 4 && t.focused < t.fields.len(),
        Dialog::EditServer { inner, .. } => inner.fields.len() >= 4 && inner.focused < inner.fields.len(),
        Dialog::AddCharacter { inner, .. } => inner.fields.len() >= 5 && inner.focused < inner.fields.len(),
        Dialog::EditCharacter { inner, .. } => inner.fields.len() >= 5 && inner.focused < inner.fields.len(),
        Dialog::ConfirmDelete { .. } => true,
    }
}

/// Whether a key answers yes in a delete dialog.
pub open spec fn is_yes(code: KeyCode) -> bool {
    code == KeyCode::Char('y') || code == KeyCode::Char('Y') || code == KeyCode::Enter
}

/// Whether a key answers no in a delete dialog.
pub open spec fn is_no(code: KeyCode) -> bool {
    code == KeyCode::Char('n') || code == KeyCode::Char('N') || code == KeyCode::Esc
}

/// The outcome of a key in a dialog: whether it closes, and what it did to
/// the dialog, the screen, the configuration and the storage actions.
pub open spec fn dialog_key_ok(
    d: DialogV,
    nd: DialogV,
    key: KeyEvent,
    close: bool,
    os: SelectModel,
    ns: SelectModel,
    oc: Config,
    nc: Config,
    oa: Seq<StoreActionV>,
    na: Seq<StoreActionV>,
) -> bool {
    if d.kind is DeleteServer || d.kind is DeleteCharacter {
        if is_yes(key.code) {
            close && delete_done(d.kind, os, ns, oc, nc, oa, na)
        } else {
            close == is_no(key.code) && ns == os && nc == oc && na == oa
        }
    } else {
        let (f2, foc2, res) = spec_text_input(d.fields, d.focused, key.code);
        &&& nd == (DialogV { fields: f2, focused: foc2, ..d })
        &&& match res {
            TextInputResult::Cancel => close && ns == os && nc == oc && na == oa,
            TextInputResult::Continue => !close && ns == os && nc == oc && na == oa,
            TextInputResult::Confirm => close && match d.kind {
                DialogKind::AddServer => add_server_done(f2, os, ns, oc, nc, oa, na),
                DialogKind::EditServer(sid) => ns == os && edit_server_done(sid, f2, oc, nc, oa, na),
                DialogKind::AddCharacter(sid) => add_character_done(sid, f2, os, ns, oc, nc, oa, na),
                DialogKind::EditCharacter(cid) => ns == os && edit_character_done(cid, f2, oc, nc, oa, na),
                _ => true,
            },
        }
    }
}

/// Handle a key in a dialog; returns whether the dialog closes.
pub fn handle_dialog_key(
    dialog: &mut Dialog,
    state: &mut SelectState,
    config: &mut Config,
    key: KeyEvent,
    actions: &mut Vec<StoreAction>,
) -> (close: bool)
    requires
        dialog_wf(old(dialog)@),
    ensures
        dialog_key_ok(
            old(dialog)@,
            final(dialog)@,
            key,
            close,
            old(state)@,
            final(state)@,
            *old(config),
            *final(config),
            actions_view(old(actions)@),
            actions_view(final(actions)@),
        ),
        dialog_wf(final(dialog)@),
        old(dialog)@.kind is DeleteServer || old(dialog)@.kind is DeleteCharacter ==> final(dialog)@ == old(dialog)@,
{
    match dialog {
        Dialog::ConfirmDelete { target } => confirm_delete(target, state, config, key, actions),
        Dialog::AddServer(d) => {
            match text_input(d, key) {
                TextInputResult::Cancel => true,
                TextInputResult::Continue => false,
                TextInputResult::Confirm => {
                    confirm_add_server(d, state, config, actions);
                    true
                },
            }
        },
        Dialog::EditServer { server_id, inner } => {
            match text_input(inner, key) {
                TextInputResult::Cancel => true,
                TextInputResult::Continue => false,
                TextInputResult::Confirm => {
                    confirm_edit_server(inner, server_id, config, actions);
                    true
                },
            }
        },
        Dialog::AddCharacter { server_id, inner } => {
            match text_input(inner, key) {
                TextInputResult::Cancel => true,
                TextInputResult::Continue => false,
                TextInputResult::Confirm => {
                    confirm_add_character(inner, server_id, state, config, actions);
                    true
                },
            }
        },
        Dialog::EditCharacter { char_id, inner } => {
            match text_input(inner, key) {
                TextInputResult::Cancel => true,
                TextInputResult::Continue => false,
                TextInputResult::Confirm => {
                    confirm_edit_character(inner, char_id, config, actions);
                    true
                },
            }
        },
    }
}

} // verus!

verus! {

/// What a key on the selection screen asks of the caller.
pub struct SelectOutcome {
    /// Whether the application should quit.
    pub quit: bool,
    /// Storage work to do, in order.
    pub actions: Vec<StoreAction>,
}

/// The collapsed set with server `id` toggled.
pub open spec fn toggled(coll: Set<Seq<char>>, id: Seq<char>) -> Set<Seq<char>> {
    if coll.contains(id) {
        coll.remove(id)
    } else {
        coll.insert(id)
    }
}

/// The dialog `n` opens: add a character to the current row's server, or
/// add a server when there is no row.
pub open spec fn add_dialog(current: Option<RowView>) -> DialogV {
    match current {
        Some(RowView::Server(id, _, _, _)) => DialogV {
            kind: DialogKind::AddCharacter(id),
            title: "Add Character"@,
            fields: add_character_fields(),
            focused: 0,
        },
        Some(RowView::Character(sid, _, _, _, _, _, _)) => DialogV {
            kind: DialogKind::AddCharacter(sid),
            title: "Add Character"@,
            fields: add_character_fields(),
            focused: 0,
        },
        None => DialogV { kind: DialogKind::AddServer, title: "Add Server"@, fields: add_server_fields(), focused: 0 },
    }
}

/// The dialog `e` opens for the current row, if its server or character exists.
pub open spec fn edit_dialog(current: Option<RowView>, c: Config) -> Option<DialogV> {
    match current {
        Some(RowView::Server(id, _, _, _)) => match crate::config::first_server_with_id(c.servers@, id) {
            Some(k) => Some(DialogV {
                kind: DialogKind::EditServer(c.servers@[k].id@),
                title: "Edit Server"@,
                fields: edit_server_fields(c.servers@[k]),
                focused: 0,
            }),
            None => None,
        },
        Some(RowView::Character(_, cid, _, _, _, _, _)) => match first_char_with_id(c.characters@, cid) {
            Some(k) => Some(DialogV {
                kind: DialogKind::EditCharacter(c.characters@[k].id@),
                title: "Edit Character"@,
                fields: edit_character_fields(c.characters@[k]),
                focused: 0,
            }),
            None => None,
        },
        None => None,
    }
}

/// A key on the tree (no dialog open): the cursor is first kept on the
/// tree; then q quits, ↑↓ move, Space / ← / → toggle a server, Enter
/// connects to a character (or to a server without characters, else
/// toggles it), n / N / e / d open the add, edit and delete dialogs.
/// Returns the new screen and whether to quit.
pub open spec fn spec_tree_key(s: SelectModel, c: Config, code: KeyCode) -> (SelectModel, bool) {
    let tree = spec_tree(c.servers@, c.characters@, s.collapsed);
    let cur = clamped(s.cursor, tree.len() as int);
    let s0 = SelectModel { cursor: cur, ..s };
    let current: Option<RowView> = if cur < tree.len() { Some(tree[cur as int]) } else { None };
    match code {
        KeyCode::Up => (SelectModel { cursor: if cur > 0 { (cur - 1) as usize } else { cur }, ..s0 }, false),
        KeyCode::Down => (SelectModel { cursor: if cur + 1 < tree.len() { (cur + 1) as usize } else { cur }, ..s0 }, false),
        KeyCode::Left | KeyCode::Right => (
            match current {
                Some(RowView::Server(id, _, _, _)) => SelectModel { collapsed: toggled(s0.collapsed, id), ..s0 },
                _ => s0,
            },
            false,
        ),
        KeyCode::Enter => (
            match current {
                Some(RowView::Server(id, _, _, n)) => if n == 0 {
                    SelectModel { pending_connect: Some((id, None)), ..s0 }
                } else {
                    SelectModel { collapsed: toggled(s0.collapsed, id), ..s0 }
                },
                Some(RowView::Character(sid, cid, _, _, _, _, _)) => SelectModel { pending_connect: Some((sid, Some(cid))), ..s0 },
                None => s0,
            },
            false,
        ),
        KeyCode::Char(ch) => if ch == 'q' {
            (s0, true)
        } else if ch == ' ' {
            (
                match current {
                    Some(RowView::Server(id, _, _, _)) => SelectModel { collapsed: toggled(s0.collapsed, id), ..s0 },
                    _ => s0,
                },
                false,
            )
        } else if ch == 'n' {
            (SelectModel { dialog: Some(add_dialog(current)), ..s0 }, false)
        } else if ch == 'N' {
            (SelectModel { dialog: Some(add_dialog(None)), ..s0 }, false)
        } else if ch == 'e' {
            (SelectModel { dialog: edit_dialog(current, c), ..s0 }, false)
        } else if ch == 'd' {
            (
                match current {
                    Some(RowView::Server(id, _, _, _)) => SelectModel {
                        dialog: Some(DialogV { kind: DialogKind::DeleteServer(id), title: seq![], fields: seq![], focused: 0 }),
                        ..s0
                    },
                    Some(RowView::Character(_, cid, _, _, _, _, _)) => SelectModel {
                        dialog: Some(DialogV { kind: DialogKind::DeleteCharacter(cid), title: seq![], fields: seq![], focused: 0 }),
                        ..s0
                    },
                    None => s0,
                },
                false,
            )
        } else {
            (s0, false)
        },
        _ => (s0, false),
    }
}

/// The collapsed list with server `id` toggled.
fn toggle_collapsed(v: &mut Vec<String>, id: &String)
    ensures
        coll_set(final(v)@) == toggled(coll_set(old(v)@), id@),
{
    if contains_id(v, id.as_str()) {
        let r = remove_id(v, id.as_str());
        *v = r;
        assert(coll_set(v@) =~= coll_set(old(v)@).remove(id@));
    } else {
        let ghost before = v@;
        v.push(id.clone());
        proof {
            assert forall|x: Seq<char>| is_collapsed(v@, x) <==> is_collapsed(before, x) || x == id@ by {
                if is_collapsed(before, x) {
                    let k = choose|k: int| 0 <= k < before.len() && (#[trigger] before[k])@ == x;
                    assert(v@[k] == before[k]);
                }
                if x == id@ {
                    assert(v@[before.len() as int]@ == id@);
                }
                if is_collapsed(v@, x) {
                    let k = choose|k: int| 0 <= k < v@.len() && (#[trigger] v@[k])@ == x;
                    if k < before.len() {
                        assert(v@[k] == before[k]);
                    }
                }
            }
        }
        assert(coll_set(v@) =~= coll_set(before).insert(id@));
    }
}

/// The index of the first server with id `id`.
fn find_server(c: &Config, id: &String) -> (r: Option<usize>)
    ensures
        match r {
            Some(k) => crate::config::first_server_with_id(c.servers@, id@) == Some(k as int) && k < c.servers@.len(),
            None => crate::config::first_server_with_id(c.servers@, id@) is None,
        },
{
    let mut k: usize = 0;
    while k < c.servers.len() && !str_eq(c.servers[k].id.as_str(), id.as_str())
        invariant
            k <= c.servers@.len(),
            forall|j: int| 0 <= j < k ==> (#[trigger] c.servers@[j]).id@ != id@,
        decreases c.servers.len() - k,
    {
        k += 1;
    }
    proof { lemma_first_server_at(c.servers@, id@, k as int); }
    if k < c.servers.len() { Some(k) } else { None }
}

/// The index of the first character with id `id`.
fn find_character(c: &Config, id: &String) -> (r: Option<usize>)
    ensures
        match r {
            Some(k) => first_char_with_id(c.characters@, id@) == Some(k as int) && k < c.characters@.len(),
            None => first_char_with_id(c.characters@, id@) is None,
        },
{
    let mut k: usize = 0;
    while k < c.characters.len() && !str_eq(c.characters[k].id.as_str(), id.as_str())
        invariant
            k <= c.characters@.len(),
            forall|j: int| 0 <= j < k ==> (#[trigger] c.characters@[j]).id@ != id@,
        decreases c.characters.len() - k,
    {
        k += 1;
    }
    proof { lemma_first_char_at(c.characters@, id@, k as int); }
    if k < c.characters.len() { Some(k) } else { None }
}

/// A key on the tree (no dialog open).
fn handle_tree_key(state: &mut SelectState, config: &Config, key: KeyEvent) -> (quit: bool)
    requires
        old(state).dialog is None,
    ensures
        (final(state)@, quit) == spec_tree_key(old(state)@, *config, key.code),
        final(state).dialog matches Some(d) ==> dialog_wf(d@),
{
    let tree = build_tree(config, &state.collapsed);
    state.clamp(tree.len());
    let ghost t = rows_view(tree@);
    let cur = state.cursor;
    match key.code {
        KeyCode::Up => {
            if state.cursor > 0 {
                state.cursor = state.cursor - 1;
            }
            false
        },
        KeyCode::Down => {
            if tree.len() > 0 && state.cursor < tree.len() - 1 {
                state.cursor = state.cursor + 1;
            }
            false
        },
        KeyCode::Char('q') => true,
        KeyCode::Char(' ') | KeyCode::Left | KeyCode::Right => {
            if cur < tree.len() {
                proof { assert(t[cur as int] == tree@[cur as int]@); }
                match &tree[cur] {
                    TreeRow::Server { server_id, .. } => {
                        toggle_collapsed(&mut state.collapsed, server_id);
                    },
                    _ => {},
                }
            }
            false
        },
        KeyCode::Enter => {
            if cur < tree.len() {
                proof { assert(t[cur as int] == tree@[cur as int]@); }
                match &tree[cur] {
                    TreeRow::Server { server_id, char_count, .. } => {
                        if *char_count == 0 {
                            state.pending_connect = Some((server_id.clone(), None));
                        } else {
                            toggle_collapsed(&mut state.collapsed, server_id);
                        }
                    },
                    TreeRow::Character { server_id, char_id, .. } => {
                        state.pending_connect = Some((server_id.clone(), Some(char_id.clone())));
                    },
                }
            }
            false
        },
        KeyCode::Char('n') => {
            let d = if cur < tree.len() {
                proof { assert(t[cur as int] == tree@[cur as int]@); }
                match &tree[cur] {
                    TreeRow::Server { server_id, .. } => Dialog::add_character(server_id.as_str()),
                    TreeRow::Character { server_id, .. } => Dialog::add_character(server_id.as_str()),
                }
            } else {
                Dialog::add_server()
            };
            state.dialog = Some(d);
            false
        },
        KeyCode::Char('N') => {
            state.dialog = Some(Dialog::add_server());
            false
        },
        KeyCode::Char('e') => {
            let d: Option<Dialog> = if cur < tree.len() {
                proof { assert(t[cur as int] == tree@[cur as int]@); }
                match &tree[cur] {
                    TreeRow::Server { server_id, .. } => match find_server(config, server_id) {
                        Some(k) => Some(Dialog::edit_server(&config.servers[k])),
                        None => None,
                    },
                    TreeRow::Character { char_id, .. } => match find_character(config, char_id) {
                        Some(k) => Some(Dialog::edit_character(&config.characters[k])),
                        None => None,
                    },
                }
            } else {
                None
            };
            state.dialog = d;
            false
        },
        KeyCode::Char('d') => {
            if cur < tree.len() {
                proof { assert(t[cur as int] == tree@[cur as int]@); }
                let target = match &tree[cur] {
                    TreeRow::Server { server_id, .. } => DeleteTarget::Server(server_id.clone()),
                    TreeRow::Character { char_id, .. } => DeleteTarget::Character(char_id.clone()),
                };
                state.dialog = Some(Dialog::ConfirmDelete { target });
            }
            false
        },
        _ => false,
    }
}

/// The dialog after a key that does not close it: a text dialog takes the
/// key as text input; a delete dialog stays as it is.
pub open spec fn next_dialog(d: DialogV, key: KeyEvent) -> DialogV {
    if d.kind is DeleteServer || d.kind is DeleteCharacter {
        d
    } else {
        let (f2, foc2, _) = spec_text_input(d.fields, d.focused, key.code);
        DialogV { fields: f2, focused: foc2, ..d }
    }
}

/// Handle a key on the selection screen: Ctrl+C quits; an open dialog
/// takes the key (and is closed when it says so); otherwise the tree does.
pub fn handle_key(state: &mut SelectState, config: &mut Config, key: KeyEvent) -> (out: SelectOutcome)
    requires
        old(state).dialog matches Some(d) ==> dialog_wf(d@),
    ensures
        final(state).dialog matches Some(d) ==> dialog_wf(d@),
        if key.ctrl && key.code == KeyCode::Char('c') {
            out.quit && final(state)@ == old(state)@ && *final(config) == *old(config) && out.actions@.len() == 0
        } else {
            match old(state)@.dialog {
                Some(d) => {
                    &&& !out.quit
                    &&& dialog_key_ok(
                        d,
                        next_dialog(d, key),
                        key,
                        final(state)@.dialog is None,
                        SelectModel { dialog: None, ..old(state)@ },
                        SelectModel { dialog: None, ..final(state)@ },
                        *old(config),
                        *final(config),
                        Seq::empty(),
                        actions_view(out.actions@),
                    )
                    &&& final(state)@.dialog matches Some(nd) ==> nd == next_dialog(d, key)
                },
                None => {
                    &&& (final(state)@, out.quit) == spec_tree_key(old(state)@, *old(config), key.code)
                    &&& *final(config) == *old(config)
                    &&& out.actions@.len() == 0
                },
            }
        },
{
    let mut actions: Vec<StoreAction> = Vec::new();
    if key.ctrl && key.code == KeyCode::Char('c') {
        return SelectOutcome { quit: true, actions };
    }
    let taken = state.dialog.take();
    match taken {
        Some(mut dialog) => {
            let ghost s1 = state@;
            assert(s1 == (SelectModel { dialog: None, ..old(state)@ }));
            assert(dialog@ == old(state)@.dialog->0);
            let close = handle_dialog_key(&mut dialog, state, config, key, &mut actions);
            let ghost ns = state@;
            assert(ns.dialog is None);
            let ghost nd = dialog@;
            if !close {
                state.dialog = Some(dialog);
            }
            proof {
                assert(actions_view(Seq::<StoreAction>::empty()) =~= Seq::<StoreActionV>::empty());
                let d0 = old(state)@.dialog->0;
                if d0.kind is DeleteServer || d0.kind is DeleteCharacter {
                    assert(nd == d0);
                }
            }
            SelectOutcome { quit: false, actions }
        },
        None => {
            let quit = handle_tree_key(state, config, key);
            SelectOutcome { quit, actions }
        },
    }
}

} // verus!

verus! {

// ---------------------------------------------------------------------------
// Laws
// ---------------------------------------------------------------------------

/// Expanding or collapsing a server twice leaves the collapsed set as it was.
pub proof fn law_toggle_twice(coll: Set<Seq<char>>, id: Seq<char>)
    ensures
        toggled(toggled(coll, id), id) == coll,
{
    if coll.contains(id) {
        assert(coll.remove(id).insert(id) =~= coll);
    } else {
        assert(coll.insert(id).remove(id) =~= coll);
    }
}

/// Deleting a server leaves no server with its id and no character of it.
pub proof fn law_delete_server_removes_characters(servers: Seq<Server>, chars: Seq<Character>, id: Seq<char>)
    ensures
        forall|i: int| 0 <= i < without_server(servers, id).len() ==> (#[trigger] without_server(servers, id)[i]).id@ != id,
        forall|i: int| 0 <= i < without_server_chars(chars, id).len() ==> (#[trigger] without_server_chars(chars, id)[i]).server_id@ != id,
{
    let ps = |s: Server| s.id@ != id;
    let pc = |c: Character| c.server_id@ != id;
    assert forall|i: int| 0 <= i < without_server(servers, id).len() implies (#[trigger] without_server(servers, id)[i]).id@ != id by {
        servers.filter_lemma(ps);
    }
    assert forall|i: int| 0 <= i < without_server_chars(chars, id).len() implies (#[trigger] without_server_chars(chars, id)[i]).server_id@ != id by {
        chars.filter_lemma(pc);
    }
}

/// After clamping, the cursor is on a row of a non-empty tree.
pub proof fn law_clamped_in_tree(cursor: usize, len: int)
    requires
        0 < len <= usize::MAX,
    ensures
        clamped(cursor, len) < len,
{
}

/// In a text dialog, typing a character and deleting it with Backspace
/// restores the field.
pub proof fn law_type_then_backspace_in_field(fields: Seq<FieldV>, focused: usize, c: char)
    requires
        focused < fields.len(),
    ensures
        ({
            let (f1, foc1, _) = spec_text_input(fields, focused, KeyCode::Char(c));
            spec_text_input(f1, foc1, KeyCode::Backspace).0 == fields
        }),
{
    let f = fields[focused as int];
    assert(f.1.push(c).drop_last() =~= f.1);
    assert(fields.update(focused as int, (f.0, f.1.push(c), f.2)).update(focused as int, (f.0, f.1, f.2)) =~= fields);
}

// ---------------------------------------------------------------------------
// Texts of the selection screen
// ---------------------------------------------------------------------------

fn push_str(v: &Vec<char>, s: &str) -> (r: Vec<char>)
    ensures
        r@ == v@ + s@,
{
    crate::text::concat_vec(v, &chars_of(s))
}

/// Whether server `id` of `servers` uses TLS (false for an unknown id).
pub open spec fn server_tls(servers: Seq<Server>, id: Seq<char>) -> bool {
    match crate::config::first_server_with_id(servers, id) {
        Some(k) => servers[k].tls,
        None => false,
    }
}

/// The texts of a tree row, in the order they are drawn.  A server row:
/// expand marker, name, TLS badge, and for a collapsed server its number
/// of characters.  A character row: tree connector, name, then the login,
/// the notes and the password hint where present.
pub open spec fn spec_row_texts(servers: Seq<Server>, row: RowView) -> Seq<Seq<char>> {
    match row {
        RowView::Server(id, name, collapsed, n) => seq![
            if collapsed { "\u{25b6} "@ } else { "\u{25bc} "@ },
            name,
            if server_tls(servers, id) { " [TLS]"@ } else { ""@ },
            if collapsed { "  ["@ + crate::text::dec_digits(n) + "]"@ } else { ""@ },
        ],
        RowView::Character(_sid, _cid, name, login, hint, notes, is_last) => {
            let base = seq![if is_last { "  \u{2514} "@ } else { "  \u{251c} "@ }, name];
            let a = match login {
                Some(l) => base.push(" ["@ + l + "]"@),
                None => base,
            };
            let b = match notes {
                Some(n) => a.push("  \u{27e8}"@ + n + "\u{27e9}"@),
                None => a,
            };
            match hint {
                Some(h) => b.push("  (hint: "@ + h + ")"@),
                None => b,
            }
        },
    }
}

/// The texts of a tree row (see `spec_row_texts`).
pub fn row_texts(config: &Config, row: &TreeRow) -> (r: Vec<String>)
    ensures
        r@.map_values(|x: String| x@) == spec_row_texts(config.servers@, row@),
{
    let mut out: Vec<String> = Vec::new();
    match row {
        TreeRow::Server { server_id, name, collapsed, char_count } => {
            let tls = match config.server_by_id(server_id.as_str()) {
                Some(s) => s.tls,
                None => false,
            };
            out.push(string_of(&chars_of(if *collapsed { "\u{25b6} " } else { "\u{25bc} " })));
            out.push(name.clone());
            out.push(string_of(&chars_of(if tls { " [TLS]" } else { "" })));
            if *collapsed {
                let open = chars_of("  [");
                let num = crate::text::u64_text(*char_count as u64);
                let with_num = crate::text::concat_vec(&open, &num);
                out.push(string_of(&push_str(&with_num, "]")));
            } else {
                out.push(string_of(&chars_of("")));
            }
        },
        TreeRow::Character { name, login, hint, notes, is_last, .. } => {
            out.push(string_of(&chars_of(if *is_last { "  \u{2514} " } else { "  \u{251c} " })));
            out.push(name.clone());
            match login {
                Some(l) => {
                    let a = push_str(&chars_of(" ["), l.as_str());
                    out.push(string_of(&push_str(&a, "]")));
                },
                None => {},
            }
            match notes {
                Some(n) => {
                    let a = push_str(&chars_of("  \u{27e8}"), n.as_str());
                    out.push(string_of(&push_str(&a, "\u{27e9}")));
                },
                None => {},
            }
            match hint {
                Some(h) => {
                    let a = push_str(&chars_of("  (hint: "), h.as_str());
                    out.push(string_of(&push_str(&a, ")")));
                },
                None => {},
            }
        },
    }
    assert(out@.map_values(|x: String| x@) =~= spec_row_texts(config.servers@, row@));
    out
}

/// The title of the server tree: the numbers of servers and characters.
pub fn tree_title(config: &Config) -> (r: String)
    ensures
        r@ == " Servers: "@ + crate::text::dec_digits(config.servers@.len()) + "   Characters: "@
            + crate::text::dec_digits(config.characters@.len()) + " "@,
{
    let a = chars_of(" Servers: ");
    let b = crate::text::concat_vec(&a, &crate::text::u64_text(config.servers.len() as u64));
    let c = push_str(&b, "   Characters: ");
    let d = crate::text::concat_vec(&c, &crate::text::u64_text(config.characters.len() as u64));
    string_of(&push_str(&d, " "))
}

/// The highlighted row of a tree of `len` rows: the cursor, kept on the
/// last row; none for an empty tree.
pub fn selected_row(cursor: usize, len: usize) -> (r: Option<usize>)
    ensures
        r == if len == 0 { None } else if cursor < len { Some(cursor) } else { Some((len - 1) as usize) },
{
    if len == 0 {
        None
    } else if cursor < len {
        Some(cursor)
    } else {
        Some(len - 1)
    }
}

/// `n` copies of `c`.
pub open spec fn repeat_char(c: char, n: nat) -> Seq<char> {
    Seq::new(n, |i: int| c)
}

/// The line of a dialog field: a marker on the focused field, the label,
/// the value (masked values as one bullet per byte), and a block cursor on
/// the focused field.
pub open spec fn spec_field_line(f: FieldV, focused: bool) -> Seq<char> {
    let (label, value, masked) = f;
    (if focused { "\u{25b6} "@ } else { "  "@ }) + label + ": "@
        + (if masked { repeat_char('\u{2022}', crate::text::byte_len(value)) } else { value })
        + (if focused { "\u{2588}"@ } else { ""@ })
}

/// The line of a dialog field (see `spec_field_line`).
pub fn field_line(f: &DialogField, focused: bool) -> (r: String)
    requires
        crate::text::byte_len(f.value@) <= usize::MAX,
    ensures
        r@ == spec_field_line(f@, focused),
{
    let a = chars_of(if focused { "\u{25b6} " } else { "  " });
    let b = push_str(&a, f.label);
    let c = push_str(&b, ": ");
    let value = chars_of(f.value.as_str());
    let shown: Vec<char> = if f.masked {
        let n = crate::text::prefix_byte_len(&value, value.len());
        proof {
            assert(value@.take(value@.len() as int) =~= value@);
        }
        let mut m: Vec<char> = Vec::new();
        let mut i: usize = 0;
        while i < n
            invariant
                i <= n,
                m@ == repeat_char('\u{2022}', i as nat),
            decreases n - i,
        {
            m.push('\u{2022}');
            assert(m@ =~= repeat_char('\u{2022}', (i + 1) as nat));
            i += 1;
        }
        m
    } else {
        value
    };
    let d = crate::text::concat_vec(&c, &shown);
    let e = push_str(&d, if focused { "\u{2588}" } else { "" });
    string_of(&e)
}

/// The key hints of the selection screen's status bar.
pub fn status_hints(dialog: &Option<Dialog>) -> (r: &'static str)
    ensures
        r@ == match dialog {
            None => " \u{2191}\u{2193} move   Space/\u{2190}/\u{25ba} expand/collapse   n add char   N add server   e edit   d delete   Enter connect/toggle   q quit"@,
            Some(Dialog::ConfirmDelete { .. }) => " y yes   n / Esc no"@,
            Some(_) => " Tab/\u{2191}\u{2193} next field   Enter confirm   Esc cancel"@,
        },
{
    match dialog {
        None => " \u{2191}\u{2193} move   Space/\u{2190}/\u{25ba} expand/collapse   n add char   N add server   e edit   d delete   Enter connect/toggle   q quit",
        Some(Dialog::ConfirmDelete { .. }) => " y yes   n / Esc no",
        Some(_) => " Tab/\u{2191}\u{2193} next field   Enter confirm   Esc cancel",
    }
}

/// The question of the delete dialog and, for a server, the warning that
/// its characters go too; an unknown entry is named `?`.
pub fn confirm_texts(target: &DeleteTarget, config: &Config) -> (r: (String, Option<&'static str>))
    ensures
        match target {
            DeleteTarget::Server(id) => {
                &&& r.0@ == "Delete server \""@ + (match crate::config::first_server_with_id(config.servers@, id@) {
                    Some(k) => config.servers@[k].name@,
                    None => "?"@,
                }) + "\"?"@
                &&& r.1 matches Some(w) && w@ == "All associated characters will also be deleted."@
            },
            DeleteTarget::Character(id) => {
                &&& r.0@ == "Delete character \""@ + (match crate::config::first_character_with_id(config.characters@, id@) {
                    Some(k) => config.characters@[k].name@,
                    None => "?"@,
                }) + "\"?"@
                &&& r.1 is None
            },
        },
{
    match target {
        DeleteTarget::Server(id) => {
            let name = match config.server_by_id(id.as_str()) {
                Some(s) => chars_of(s.name.as_str()),
                None => chars_of("?"),
            };
            let a = crate::text::concat_vec(&chars_of("Delete server \""), &name);
            (string_of(&push_str(&a, "\"?")), Some("All associated characters will also be deleted."))
        },
        DeleteTarget::Character(id) => {
            let name = match config.character_index(id.as_str()) {
                Some(k) => chars_of(config.characters[k].name.as_str()),
                None => chars_of("?"),
            };
            let a = crate::text::concat_vec(&chars_of("Delete character \""), &name);
            (string_of(&push_str(&a, "\"?")), None)
        },
    }
}

} // verus!
