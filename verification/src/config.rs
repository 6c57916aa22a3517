//! Configuration data model: servers, characters, aliases, triggers and the
//! per-character sidebar layout.
use vstd::prelude::*;

use crate::text::{str_eq, string_of, chars_of};

verus! {

/// The text form of a random version-4 UUID: 36 characters, lower-case
/// hexadecimal digits with hyphens at positions 8, 13, 18 and 23.
pub open spec fn is_uuid_text(s: Seq<char>) -> bool {
    &&& s.len() == 36
    &&& forall|i: int|
        0 <= i < 36 ==> if i == 8 || i == 13 || i == 18 || i == 23 {
            #[trigger] s[i] == '-'
        } else {
            ('0' <= s[i] && s[i] <= '9') || ('a' <= s[i] && s[i] <= 'f')
        }
}

/// A fresh random identifier: `uuid::Uuid::new_v4().to_string()`.
///
/// The value is random; the contract states only its shape, which the
/// crate's hyphenated lower-case formatter fixes.  That two calls give
/// different values is not stated.
#[verifier::external_body]
pub(crate) fn new_uuid_string() -> (s: String)
    ensures
        is_uuid_text(s@),
{
    uuid::Uuid::new_v4().to_string()
}

/// A command alias: replaces `name` (or a line starting with `name`) with
/// `expansion` before the line is sent to the server.
#[derive(Debug, Clone)]
pub struct Alias {
    pub name: String,
    pub expansion: String,
}

/// A trigger: when an incoming line matches `pattern`, optionally re-colour
/// it and/or auto-send a command back to the server.
#[derive(Debug, Clone)]
pub struct Trigger {
    pub id: String,
    /// A regular expression matched against the raw line.
    pub pattern: String,
    /// Named colour applied as foreground when the line matches.
    pub color: Option<String>,
    /// Command sent to the server when a line matches.
    pub send: Option<String>,
}

impl Trigger {
    /// A trigger for `pattern` with a fresh id and no colour or command.
    pub fn new(pattern: &str) -> (t: Trigger)
        ensures
            t.pattern@ == pattern@,
            t.color is None,
            t.send is None,
            is_uuid_text(t.id@),
    {
        let p = chars_of(pattern);
        Trigger { id: new_uuid_string(), pattern: string_of(&p), color: None, send: None }
    }
}

/// Identifies one of the sidebar panels.
#[derive(Debug, Clone, Copy, PartialEq, Eq, Structural, Hash)]
pub enum PanelKind {
    CharSheet,
    Paperdoll,
    Inventory,
    Automap,
    Notes,
}

/// The compact name of a panel kind, for narrow rows.
pub open spec fn spec_short_label(k: PanelKind) -> Seq<char> {
    match k {
        PanelKind::CharSheet => "Stats"@,
        PanelKind::Paperdoll => "Wear"@,
        PanelKind::Inventory => "Inv"@,
        PanelKind::Automap => "Map"@,
        PanelKind::Notes => "Notes"@,
    }
}

impl PanelKind {
    /// Human-readable panel name.
    pub fn label(&self) -> (s: &'static str)
        ensures
            s@ == match *self {
                PanelKind::CharSheet => "Character Sheet"@,
                PanelKind::Paperdoll => "Paperdoll"@,
                PanelKind::Inventory => "Inventory"@,
                PanelKind::Automap => "Automap"@,
                PanelKind::Notes => "Notes"@,
            },
    {
        match self {
            PanelKind::CharSheet => "Character Sheet",
            PanelKind::Paperdoll => "Paperdoll",
            PanelKind::Inventory => "Inventory",
            PanelKind::Automap => "Automap",
            PanelKind::Notes => "Notes",
        }
    }

    /// Short label used in the sidebar tab bar.
    pub fn short_label(&self) -> (s: &'static str)
        ensures
            s@ == spec_short_label(*self),
    {
        match self {
            PanelKind::CharSheet => "Stats",
            PanelKind::Paperdoll => "Wear",
            PanelKind::Inventory => "Inv",
            PanelKind::Automap => "Map",
            PanelKind::Notes => "Notes",
        }
    }
}

/// Which sidebar column a panel is assigned to.
#[derive(Debug, Clone, Copy, PartialEq, Eq, Structural, Hash)]
pub enum SidebarSide {
    Left,
    Right,
}

/// Per-panel configuration: sidebar assignment and relative height.
#[derive(Debug, Clone, Copy, PartialEq, Eq, Structural)]
pub struct PanelConfig {
    pub kind: PanelKind,
    /// Which sidebar column.  `None` = not displayed.
    pub side: Option<SidebarSide>,
    /// Relative height expressed as a percentage (1–100).
    pub height_pct: u8,
}

/// Height share of a panel whose configuration omits it.
pub fn default_panel_height_pct() -> (h: u8)
    ensures
        h == 50,
{
    50
}

/// Whether the right sidebar is shown when the configuration omits it.
pub fn default_right_visible() -> (b: bool)
    ensures
        b,
{
    true
}

/// Right sidebar width when the configuration omits it.
pub fn default_right_width() -> (w: u16)
    ensures
        w == 26,
{
    26
}

/// The panels of a fresh layout: the automap above the notes, both on the right.
pub open spec fn spec_default_panels() -> Seq<PanelConfig> {
    seq![
        PanelConfig { kind: PanelKind::Automap, side: Some(SidebarSide::Right), height_pct: 35 },
        PanelConfig { kind: PanelKind::Notes, side: Some(SidebarSide::Right), height_pct: 65 },
    ]
}

/// The panels of a fresh layout.
pub fn default_panels() -> (v: Vec<PanelConfig>)
    ensures
        v@ == spec_default_panels(),
{
    let mut v: Vec<PanelConfig> = Vec::new();
    v.push(PanelConfig { kind: PanelKind::Automap, side: Some(SidebarSide::Right), height_pct: 35 });
    v.push(PanelConfig { kind: PanelKind::Notes, side: Some(SidebarSide::Right), height_pct: 65 });
    assert(v@ =~= spec_default_panels());
    v
}

/// Per-character sidebar layout persisted in the config file.
#[derive(Debug, Clone)]
pub struct SidebarLayout {
    /// Whether the right sidebar column is shown.
    pub right_visible: bool,
    /// Width of the right sidebar column in terminal characters.
    pub right_width: u16,
    /// Panel configurations (kind, side assignment, relative height).
    pub panels: Vec<PanelConfig>,
    /// User notes shown in the notes panel.
    pub notes: Vec<String>,
}

impl Default for SidebarLayout {
    fn default() -> (l: Self)
        ensures
            l.right_visible,
            l.right_width == 26,
            l.panels@ == spec_default_panels(),
            l.notes@.len() == 0,
    {
        SidebarLayout {
            right_visible: default_right_visible(),
            right_width: default_right_width(),
            panels: default_panels(),
            notes: Vec::new(),
        }
    }
}

/// A MUD server entry stored in the config file.
#[derive(Debug, Clone)]
pub struct Server {
    pub id: String,
    pub name: String,
    pub host: String,
    pub port: u16,
    /// Whether to use TLS for this server connection.
    pub tls: bool,
    pub notes: Option<String>,
}

impl Server {
    /// A plain-TCP server entry with a fresh id and no notes.
    pub fn new(name: &str, host: &str, port: u16) -> (s: Server)
        ensures
            s.name@ == name@,
            s.host@ == host@,
            s.port == port,
            !s.tls,
            s.notes is None,
            is_uuid_text(s.id@),
    {
        let n = chars_of(name);
        let h = chars_of(host);
        Server {
            id: new_uuid_string(),
            name: string_of(&n),
            host: string_of(&h),
            port,
            tls: false,
            notes: None,
        }
    }
}

/// A character belonging to a server.
/// The actual password is stored in the OS keyring, never here.
#[derive(Debug, Clone)]
pub struct Character {
    pub id: String,
    /// Display name shown in the UI.
    pub name: String,
    pub server_id: String,
    /// The username typed at the MUD's login prompt; `name` when absent.
    pub login: Option<String>,
    /// Optional human-readable reminder — never the actual password.
    pub password_hint: Option<String>,
    /// Free-form notes (e.g. race, class, level).
    pub notes: Option<String>,
    /// Command aliases stored per character.
    pub aliases: Vec<Alias>,
    /// Trigger rules stored per character.
    pub triggers: Vec<Trigger>,
    /// Sidebar layout for this character.
    pub sidebar: SidebarLayout,
}

/// The login a character uses at the MUD prompt.
pub open spec fn spec_effective_login(c: Character) -> Seq<char> {
    match c.login {
        Some(l) => l@,
        None => c.name@,
    }
}

impl Character {
    /// A character of `server_id` with a fresh id, the default layout and
    /// nothing else set.
    pub fn new(name: &str, server_id: &str) -> (c: Character)
        ensures
            c.name@ == name@,
            c.server_id@ == server_id@,
            c.login is None,
            c.password_hint is None,
            c.notes is None,
            c.aliases@.len() == 0,
            c.triggers@.len() == 0,
            c.sidebar.right_visible,
            c.sidebar.right_width == 26,
            c.sidebar.panels@ == spec_default_panels(),
            c.sidebar.notes@.len() == 0,
            is_uuid_text(c.id@),
    {
        let n = chars_of(name);
        let s = chars_of(server_id);
        Character {
            id: new_uuid_string(),
            name: string_of(&n),
            server_id: string_of(&s),
            login: None,
            password_hint: None,
            notes: None,
            aliases: Vec::new(),
            triggers: Vec::new(),
            sidebar: SidebarLayout::default(),
        }
    }

    /// Returns the login name to use at the MUD prompt (falls back to `name`).
    pub fn effective_login(&self) -> (s: &str)
        ensures
            s@ == spec_effective_login(*self),
    {
        match &self.login {
            Some(l) => l.as_str(),
            None => self.name.as_str(),
        }
    }
}

/// Root configuration.
#[derive(Debug)]
pub struct Config {
    pub servers: Vec<Server>,
    pub characters: Vec<Character>,
}

impl Default for Config {
    fn default() -> (c: Self)
        ensures
            c.servers@.len() == 0,
            c.characters@.len() == 0,
    {
        Config { servers: Vec::new(), characters: Vec::new() }
    }
}

/// Index of the first server whose id is `id`.
pub open spec fn first_server_with_id(servers: Seq<Server>, id: Seq<char>) -> Option<int>
    decreases servers.len(),
{
    if servers.len() == 0 {
        None
    } else if servers[0].id@ == id {
        Some(0)
    } else {
        match first_server_with_id(servers.drop_first(), id) {
            Some(k) => Some(k + 1),
            None => None,
        }
    }
}

proof fn lemma_first_server(servers: Seq<Server>, id: Seq<char>, n: int)
    requires
        0 <= n <= servers.len(),
        forall|k: int| 0 <= k < n ==> (#[trigger] servers[k]).id@ != id,
    ensures
        n < servers.len() && servers[n].id@ == id ==> first_server_with_id(servers, id) == Some(n),
        n == servers.len() ==> first_server_with_id(servers, id) is None,
    decreases n,
{
    if n > 0 {
        assert(servers[0].id@ != id);
        assert forall|k: int| 0 <= k < n - 1 implies (#[trigger] servers.drop_first()[k]).id@ != id by {
            assert(servers.drop_first()[k] == servers[k + 1]);
        }
        lemma_first_server(servers.drop_first(), id, n - 1);
    }
}

/// The characters of `server_id`, in configuration order.
pub open spec fn spec_characters_for_server(chars: Seq<Character>, server_id: Seq<char>) -> Seq<Character> {
    chars.filter(|c: Character| c.server_id@ == server_id)
}

impl Config {
    /// Look up a server by id: the first server whose id is `id`.
    pub fn server_by_id(&self, id: &str) -> (r: Option<&Server>)
        ensures
            match first_server_with_id(self.servers@, id@) {
                Some(k) => r == Some(&self.servers@[k]),
                None => r is None,
            },
    {
        let mut i: usize = 0;
        while i < self.servers.len()
            invariant
                i <= self.servers.len(),
                forall|k: int| 0 <= k < i ==> (#[trigger] self.servers@[k]).id@ != id@,
            decreases self.servers.len() - i,
        {
            if str_eq(self.servers[i].id.as_str(), id) {
                proof {
                    lemma_first_server(self.servers@, id@, i as int);
                }
                return Some(&self.servers[i]);
            }
            i += 1;
        }
        proof {
            lemma_first_server(self.servers@, id@, i as int);
        }
        None
    }

    /// Return all characters that belong to a given server, in order.
    pub fn characters_for_server(&self, server_id: &str) -> (r: Vec<&Character>)
        ensures
            r@.map_values(|c: &Character| *c) == spec_characters_for_server(self.characters@, server_id@),
    {
        let mut r: Vec<&Character> = Vec::new();
        let mut i: usize = 0;
        while i < self.characters.len()
            invariant
                i <= self.characters.len(),
                r@.map_values(|c: &Character| *c) == spec_characters_for_server(
                    self.characters@.take(i as int),
                    server_id@,
                ),
            decreases self.characters.len() - i,
        {
            let ghost before = r@;
            let c = &self.characters[i];
            reveal_with_fuel(Seq::filter, 1);
            assert(self.characters@.take(i + 1).drop_last() =~= self.characters@.take(i as int));
            if str_eq(c.server_id.as_str(), server_id) {
                r.push(c);
                assert(r@.map_values(|c: &Character| *c) =~= before.map_values(|c: &Character| *c).push(*c));
            } else {
                assert(r@ == before);
            }
            i += 1;
        }
        assert(self.characters@.take(self.characters.len() as int) =~= self.characters@);
        r
    }
}

/// The service name under which passwords are kept in the OS keyring.
pub const KEYRING_SERVICE: &'static str = "durthang";

/// The keyring account name for a character: `"<server_id>/<login>"`.
pub fn keyring_account(server_id: &str, character_name: &str) -> (s: String)
    ensures
        s@ == server_id@ + seq!['/'] + character_name@,
{
    let mut v = chars_of(server_id);
    v.push('/');
    let n = chars_of(character_name);
    let w = crate::text::concat_vec(&v, &n);
    string_of(&w)
}

/// Index of the first character whose id is `id`.
pub open spec fn first_character_with_id(chars: Seq<Character>, id: Seq<char>) -> Option<int>
    decreases chars.len(),
{
    if chars.len() == 0 {
        None
    } else if chars[0].id@ == id {
        Some(0)
    } else {
        match first_character_with_id(chars.drop_first(), id) {
            Some(k) => Some(k + 1),
            None => None,
        }
    }
}

proof fn lemma_first_character(chars: Seq<Character>, id: Seq<char>, n: int)
    requires
        0 <= n <= chars.len(),
        forall|k: int| 0 <= k < n ==> (#[trigger] chars[k]).id@ != id,
    ensures
        n < chars.len() && chars[n].id@ == id ==> first_character_with_id(chars, id) == Some(n),
        n == chars.len() ==> first_character_with_id(chars, id) is None,
    decreases n,
{
    if n > 0 {
        assert(chars[0].id@ != id);
        assert forall|k: int| 0 <= k < n - 1 implies (#[trigger] chars.drop_first()[k]).id@ != id by {
            assert(chars.drop_first()[k] == chars[k + 1]);
        }
        lemma_first_character(chars.drop_first(), id, n - 1);
    }
}

proof fn lemma_first_character_bound(chars: Seq<Character>, id: Seq<char>)
    ensures
        first_character_with_id(chars, id) matches Some(k) ==> 0 <= k < chars.len() && chars[k].id@ == id,
    decreases chars.len(),
{
    if chars.len() > 0 {
        lemma_first_character_bound(chars.drop_first(), id);
    }
}

/// The aliases of `a` not named `name`, in order.
pub open spec fn aliases_without(a: Seq<Alias>, name: Seq<char>) -> Seq<Alias> {
    a.filter(|x: Alias| x.name@ != name)
}

/// The triggers of `t` whose id does not start with `prefix`, in order.
pub open spec fn triggers_without(t: Seq<Trigger>, prefix: Seq<char>) -> Seq<Trigger> {
    t.filter(|x: Trigger| !crate::text::starts_with(x.id@, prefix))
}

/// The character list after character `k` became `c`.
pub open spec fn replaced(chars: Seq<Character>, k: int, c: Character) -> Seq<Character> {
    chars.update(k, c)
}

/// `after` is `before` with alias `name` → `expansion` stored for the
/// character `char_id`: aliases of that name removed, the new one last.
/// Without such a character nothing changes.
pub open spec fn alias_upserted(before: Config, after: Config, char_id: Seq<char>, name: Seq<char>, expansion: Seq<char>) -> bool {
    &&& after.servers == before.servers
    &&& match first_character_with_id(before.characters@, char_id) {
        None => after.characters == before.characters,
        Some(k) => {
            let c = before.characters@[k];
            let a = after.characters@[k].aliases@;
            &&& after.characters@ == replaced(before.characters@, k, Character { aliases: after.characters@[k].aliases, ..c })
            &&& a.len() > 0
            &&& a.drop_last() == aliases_without(c.aliases@, name)
            &&& a.last().name@ == name
            &&& a.last().expansion@ == expansion
        },
    }
}

/// `after` is `before` without the aliases named `name` of the character
/// `char_id`; `removed` tells whether there was one.
pub open spec fn alias_removed(before: Config, after: Config, char_id: Seq<char>, name: Seq<char>, removed: bool) -> bool {
    &&& after.servers == before.servers
    &&& match first_character_with_id(before.characters@, char_id) {
        None => !removed && after.characters == before.characters,
        Some(k) => {
            let c = before.characters@[k];
            let a = aliases_without(c.aliases@, name);
            &&& removed == (a.len() < c.aliases@.len())
            &&& after.characters@ == replaced(before.characters@, k, Character { aliases: after.characters@[k].aliases, ..c })
            &&& after.characters@[k].aliases@ == a
        },
    }
}

/// `after` is `before` with `t` appended to the triggers of the character
/// `char_id`.  Without such a character nothing changes.
pub open spec fn trigger_added(before: Config, after: Config, char_id: Seq<char>, t: Trigger) -> bool {
    &&& after.servers == before.servers
    &&& match first_character_with_id(before.characters@, char_id) {
        None => after.characters == before.characters,
        Some(k) => {
            let c = before.characters@[k];
            &&& after.characters@ == replaced(before.characters@, k, Character { triggers: after.characters@[k].triggers, ..c })
            &&& after.characters@[k].triggers@ == c.triggers@.push(t)
        },
    }
}

/// `after` is `before` without the triggers of the character `char_id`
/// whose id starts with `prefix`; `removed` tells whether there was one.
pub open spec fn triggers_removed(before: Config, after: Config, char_id: Seq<char>, prefix: Seq<char>, removed: bool) -> bool {
    &&& after.servers == before.servers
    &&& match first_character_with_id(before.characters@, char_id) {
        None => !removed && after.characters == before.characters,
        Some(k) => {
            let c = before.characters@[k];
            let t = triggers_without(c.triggers@, prefix);
            &&& removed == (t.len() < c.triggers@.len())
            &&& after.characters@ == replaced(before.characters@, k, Character { triggers: after.characters@[k].triggers, ..c })
            &&& after.characters@[k].triggers@ == t
        },
    }
}

/// `after` is `before` with `layout` as the sidebar layout of the
/// character `char_id`.  Without such a character nothing changes.
pub open spec fn layout_set(before: Config, after: Config, char_id: Seq<char>, layout: SidebarLayout) -> bool {
    &&& after.servers == before.servers
    &&& match first_character_with_id(before.characters@, char_id) {
        None => after.characters == before.characters,
        Some(k) => after.characters@ == replaced(before.characters@, k, Character { sidebar: layout, ..before.characters@[k] }),
    }
}

fn copy_alias(a: &Alias) -> (r: Alias)
    ensures
        r == *a,
{
    Alias { name: a.name.clone(), expansion: a.expansion.clone() }
}

fn copy_opt_string(o: &Option<String>) -> (r: Option<String>)
    ensures
        r == *o,
{
    match o {
        Some(x) => Some(x.clone()),
        None => None,
    }
}

fn copy_trigger(t: &Trigger) -> (r: Trigger)
    ensures
        r == *t,
{
    Trigger {
        id: t.id.clone(),
        pattern: t.pattern.clone(),
        color: copy_opt_string(&t.color),
        send: copy_opt_string(&t.send),
    }
}

/// A copy of an alias list.
pub fn copy_aliases(a: &Vec<Alias>) -> (r: Vec<Alias>)
    ensures
        r@ == a@,
{
    let mut r: Vec<Alias> = Vec::new();
    let mut i: usize = 0;
    while i < a.len()
        invariant
            i <= a@.len(),
            r@ == a@.take(i as int),
        decreases a.len() - i,
    {
        r.push(copy_alias(&a[i]));
        assert(a@.take(i + 1) =~= a@.take(i as int).push(a@[i as int]));
        i += 1;
    }
    assert(a@.take(a@.len() as int) =~= a@);
    r
}

/// A copy of a trigger list.
pub fn copy_triggers(t: &Vec<Trigger>) -> (r: Vec<Trigger>)
    ensures
        r@ == t@,
{
    let mut r: Vec<Trigger> = Vec::new();
    let mut i: usize = 0;
    while i < t.len()
        invariant
            i <= t@.len(),
            r@ == t@.take(i as int),
        decreases t.len() - i,
    {
        r.push(copy_trigger(&t[i]));
        assert(t@.take(i + 1) =~= t@.take(i as int).push(t@[i as int]));
        i += 1;
    }
    assert(t@.take(t@.len() as int) =~= t@);
    r
}

/// A copy of a sidebar layout.
pub fn copy_layout(l: &SidebarLayout) -> (r: SidebarLayout)
    ensures
        r.right_visible == l.right_visible,
        r.right_width == l.right_width,
        r.panels@ == l.panels@,
        r.notes@ == l.notes@,
{
    let mut panels: Vec<PanelConfig> = Vec::new();
    let mut i: usize = 0;
    while i < l.panels.len()
        invariant
            i <= l.panels@.len(),
            panels@ == l.panels@.take(i as int),
        decreases l.panels.len() - i,
    {
        panels.push(l.panels[i]);
        assert(l.panels@.take(i + 1) =~= l.panels@.take(i as int).push(l.panels@[i as int]));
        i += 1;
    }
    assert(l.panels@.take(l.panels@.len() as int) =~= l.panels@);
    let mut notes: Vec<String> = Vec::new();
    let mut j: usize = 0;
    while j < l.notes.len()
        invariant
            j <= l.notes@.len(),
            notes@ == l.notes@.take(j as int),
        decreases l.notes.len() - j,
    {
        notes.push(l.notes[j].clone());
        assert(l.notes@.take(j + 1) =~= l.notes@.take(j as int).push(l.notes@[j as int]));
        j += 1;
    }
    assert(l.notes@.take(l.notes@.len() as int) =~= l.notes@);
    SidebarLayout { right_visible: l.right_visible, right_width: l.right_width, panels, notes }
}

fn filter_aliases(a: &Vec<Alias>, name: &str) -> (r: Vec<Alias>)
    ensures
        r@ == aliases_without(a@, name@),
{
    let mut r: Vec<Alias> = Vec::new();
    let mut i: usize = 0;
    while i < a.len()
        invariant
            i <= a@.len(),
            r@ == aliases_without(a@.take(i as int), name@),
        decreases a.len() - i,
    {
        reveal_with_fuel(Seq::filter, 1);
        assert(a@.take(i + 1).drop_last() =~= a@.take(i as int));
        if !str_eq(a[i].name.as_str(), name) {
            r.push(copy_alias(&a[i]));
        }
        i += 1;
    }
    assert(a@.take(a@.len() as int) =~= a@);
    r
}

fn filter_triggers(t: &Vec<Trigger>, prefix: &str) -> (r: Vec<Trigger>)
    ensures
        r@ == triggers_without(t@, prefix@),
{
    let p = chars_of(prefix);
    let mut r: Vec<Trigger> = Vec::new();
    let mut i: usize = 0;
    while i < t.len()
        invariant
            i <= t@.len(),
            p@ == prefix@,
            r@ == triggers_without(t@.take(i as int), prefix@),
        decreases t.len() - i,
    {
        reveal_with_fuel(Seq::filter, 1);
        assert(t@.take(i + 1).drop_last() =~= t@.take(i as int));
        let id = chars_of(t[i].id.as_str());
        if !crate::text::starts_with_vec(&id, &p) {
            r.push(copy_trigger(&t[i]));
        }
        i += 1;
    }
    assert(t@.take(t@.len() as int) =~= t@);
    r
}

impl Config {
    /// The index of the first character whose id is `id`.
    pub fn character_index(&self, id: &str) -> (r: Option<usize>)
        ensures
            match first_character_with_id(self.characters@, id@) {
                Some(k) => r matches Some(i) && i as int == k && k < self.characters@.len(),
                None => r is None,
            },
    {
        let mut i: usize = 0;
        while i < self.characters.len()
            invariant
                i <= self.characters.len(),
                forall|k: int| 0 <= k < i ==> (#[trigger] self.characters@[k]).id@ != id@,
            decreases self.characters.len() - i,
        {
            if str_eq(self.characters[i].id.as_str(), id) {
                proof {
                    lemma_first_character(self.characters@, id@, i as int);
                }
                return Some(i);
            }
            i += 1;
        }
        proof {
            lemma_first_character(self.characters@, id@, i as int);
        }
        None
    }

    fn replace_character(&mut self, k: usize, c: Character)
        requires
            k < old(self).characters@.len(),
        ensures
            final(self).servers == old(self).servers,
            final(self).characters@ == replaced(old(self).characters@, k as int, c),
    {
        let mut chars: Vec<Character> = Vec::new();
        std::mem::swap(&mut chars, &mut self.characters);
        let ghost before = chars@;
        let _ = chars.remove(k);
        chars.insert(k, c);
        assert(chars@ =~= before.update(k as int, c));
        self.characters = chars;
    }

    fn take_character(&mut self, k: usize) -> (c: Character)
        requires
            k < old(self).characters@.len(),
        ensures
            c == old(self).characters@[k as int],
            final(self).servers == old(self).servers,
            final(self).characters@ == old(self).characters@.update(k as int, final(self).characters@[k as int]),
    {
        let mut chars: Vec<Character> = Vec::new();
        std::mem::swap(&mut chars, &mut self.characters);
        let ghost before = chars@;
        let c = chars.remove(k);
        chars.insert(k, Character {
            id: String::new(),
            name: String::new(),
            server_id: String::new(),
            login: None,
            password_hint: None,
            notes: None,
            aliases: Vec::new(),
            triggers: Vec::new(),
            sidebar: SidebarLayout { right_visible: false, right_width: 0, panels: Vec::new(), notes: Vec::new() },
        });
        assert(chars@ =~= before.update(k as int, chars@[k as int]));
        self.characters = chars;
        c
    }

    /// Stores alias `name` → `expansion` for the character `char_id`,
    /// replacing aliases of that name; the new alias goes last.  Returns
    /// whether the character exists; without it nothing changes.
    pub fn upsert_alias(&mut self, char_id: &str, name: &str, expansion: &str) -> (found: bool)
        ensures
            found == first_character_with_id(old(self).characters@, char_id@) is Some,
            alias_upserted(*old(self), *final(self), char_id@, name@, expansion@),
    {
        proof { lemma_first_character_bound(self.characters@, char_id@); }
        match self.character_index(char_id) {
            None => false,
            Some(k) => {
                let ghost old_c = self.characters@[k as int];
                let ghost orig = self.characters@;
                let mut c = self.take_character(k);
                let mut a = filter_aliases(&c.aliases, name);
                let ghost kept = a@;
                a.push(Alias { name: string_of(&chars_of(name)), expansion: string_of(&chars_of(expansion)) });
                assert(a@.drop_last() =~= kept);
                c.aliases = a;
                self.replace_character(k, c);
                assert(self.characters@ =~= replaced(orig, k as int, self.characters@[k as int]));
                true
            },
        }
    }

    /// Removes the aliases named `name` of the character `char_id`.  Returns
    /// whether one was removed.
    pub fn remove_alias(&mut self, char_id: &str, name: &str) -> (removed: bool)
        ensures
            alias_removed(*old(self), *final(self), char_id@, name@, removed),
    {
        proof { lemma_first_character_bound(self.characters@, char_id@); }
        match self.character_index(char_id) {
            None => false,
            Some(k) => {
                let ghost orig = self.characters@;
                let mut c = self.take_character(k);
                let before = c.aliases.len();
                let a = filter_aliases(&c.aliases, name);
                let removed = a.len() < before;
                c.aliases = a;
                self.replace_character(k, c);
                assert(self.characters@ =~= replaced(orig, k as int, self.characters@[k as int]));
                removed
            },
        }
    }

    /// Appends `t` to the triggers of the character `char_id`.  Returns
    /// whether the character exists; without it nothing changes.
    pub fn add_trigger(&mut self, char_id: &str, t: Trigger) -> (found: bool)
        ensures
            found == first_character_with_id(old(self).characters@, char_id@) is Some,
            trigger_added(*old(self), *final(self), char_id@, t),
    {
        proof { lemma_first_character_bound(self.characters@, char_id@); }
        match self.character_index(char_id) {
            None => false,
            Some(k) => {
                let ghost orig = self.characters@;
                let mut c = self.take_character(k);
                c.triggers.push(t);
                self.replace_character(k, c);
                assert(self.characters@ =~= replaced(orig, k as int, self.characters@[k as int]));
                true
            },
        }
    }

    /// Removes the triggers of the character `char_id` whose id starts with
    /// `prefix`.  Returns whether one was removed.
    pub fn remove_triggers(&mut self, char_id: &str, prefix: &str) -> (removed: bool)
        ensures
            triggers_removed(*old(self), *final(self), char_id@, prefix@, removed),
    {
        proof { lemma_first_character_bound(self.characters@, char_id@); }
        match self.character_index(char_id) {
            None => false,
            Some(k) => {
                let ghost orig = self.characters@;
                let mut c = self.take_character(k);
                let before = c.triggers.len();
                let t = filter_triggers(&c.triggers, prefix);
                let removed = t.len() < before;
                c.triggers = t;
                self.replace_character(k, c);
                assert(self.characters@ =~= replaced(orig, k as int, self.characters@[k as int]));
                removed
            },
        }
    }

    /// Stores `layout` as the sidebar layout of the character `char_id`.
    /// Returns whether the character exists; without it nothing changes.
    pub fn set_sidebar_layout(&mut self, char_id: &str, layout: SidebarLayout) -> (found: bool)
        ensures
            found == first_character_with_id(old(self).characters@, char_id@) is Some,
            layout_set(*old(self), *final(self), char_id@, layout),
    {
        proof { lemma_first_character_bound(self.characters@, char_id@); }
        match self.character_index(char_id) {
            None => false,
            Some(k) => {
                let ghost orig = self.characters@;
                let mut c = self.take_character(k);
                c.sidebar = layout;
                self.replace_character(k, c);
                assert(self.characters@ =~= replaced(orig, k as int, self.characters@[k as int]));
                true
            },
        }
    }
}

} // verus!
