//! Sidebar panel system: the automap minimap and the user's notes.
//!
//! Keys while a panel has focus: Esc / F1 give focus back to the game input,
//! Tab cycles the focused panel, `o` opens the options overlay (↑↓ to pick a
//! row, ← → to show / hide a panel or change the width, `+` / `-` to change a
//! panel's height share, Esc to save and close).

use vstd::prelude::*;
use vstd::string::StringSliceAdditionalSpecFns;

use crate::config::{PanelConfig, PanelKind, SidebarLayout, SidebarSide};
use crate::map::{
    opt_view, spec_apply_exits_heuristic, spec_apply_room_info, spec_link_rooms,
    spec_parse_room_info_from_gmcp, spec_set_room_position, spec_strip_ansi, Direction, RoomView,
    WorldMap,
};
use crate::text::{byte_len, byte_len_within, char_utf8_len, chars_of, lemma_byte_len_prefix_mono, prefix_byte_len, string_of, utf8_width};
use crate::ui::keys::{KeyCode, KeyEvent};

verus! {

/// What [`handle_sidebar_key`] asks of the game key handler.
#[derive(Debug, Clone, Copy, PartialEq, Eq, Structural)]
pub enum SidebarKeyResult {
    /// The key was fully handled.
    Consumed,
    /// The key was not recognised; the caller may use it.
    Unhandled,
    /// Focus goes back to the game input.
    FocusGame,
    /// A layout property changed; the caller should persist it.
    SaveLayout,
}

/// Sidebar state: layout, focus, the automap and the notes editor.
pub struct SidebarState {
    /// Layout configuration (panel order, width, visibility, notes).
    pub layout: SidebarLayout,
    /// Which panel has keyboard focus; `None` when the game has it.
    pub focused_panel: Option<PanelKind>,
    /// Whether the options overlay is open.
    pub options_open: bool,
    /// Automap world state.
    pub automap: WorldMap,
    /// Cursor row within the focused panel's list.
    pub panel_cursor: usize,
    /// Cursor row in the options overlay.
    pub options_cursor: usize,
    /// Whether the notes panel is in text-editing mode.
    pub notes_editing: bool,
    /// Set while a brand-new note is being written (Esc then removes it).
    pub notes_is_new: bool,
    /// Inline edit buffer for the note being written.
    pub notes_edit_buf: String,
    /// Byte offset of the cursor inside `notes_edit_buf`.
    pub notes_edit_cursor: usize,
}

/// The sidebar state without the automap, as plain values.
pub struct SidebarModel {
    pub right_visible: bool,
    pub right_width: u16,
    pub panels: Seq<PanelConfig>,
    pub notes: Seq<Seq<char>>,
    pub focused_panel: Option<PanelKind>,
    pub options_open: bool,
    pub panel_cursor: usize,
    pub options_cursor: usize,
    pub notes_editing: bool,
    pub notes_is_new: bool,
    pub edit_buf: Seq<char>,
    pub edit_cursor: usize,
}

/// The texts of a sequence of strings.
pub open spec fn strings_view(v: Seq<String>) -> Seq<Seq<char>> {
    v.map_values(|s: String| s@)
}

impl View for SidebarState {
    type V = SidebarModel;

    open spec fn view(&self) -> SidebarModel {
        SidebarModel {
            right_visible: self.layout.right_visible,
            right_width: self.layout.right_width,
            panels: self.layout.panels@,
            notes: strings_view(self.layout.notes@),
            focused_panel: self.focused_panel,
            options_open: self.options_open,
            panel_cursor: self.panel_cursor,
            options_cursor: self.options_cursor,
            notes_editing: self.notes_editing,
            notes_is_new: self.notes_is_new,
            edit_buf: self.notes_edit_buf@,
            edit_cursor: self.notes_edit_cursor,
        }
    }
}

/// `b` is the byte offset at which a character of `s` starts, or the end of `s`.
pub open spec fn is_boundary(s: Seq<char>, b: int) -> bool {
    exists|k: int| 0 <= k <= s.len() && byte_len(s.take(k)) == b
}

/// The character index at byte offset `b` of `s` (meaningful when
/// `is_boundary(s, b)`).
pub open spec fn boundary_index(s: Seq<char>, b: int) -> int {
    choose|k: int| 0 <= k <= s.len() && byte_len(s.take(k)) == b
}

/// The sidebar is well formed: while a note is being edited, the cursor sits
/// on a character boundary of the edit buffer.
pub open spec fn sidebar_wf(m: SidebarModel) -> bool {
    m.notes_editing ==> is_boundary(m.edit_buf, m.edit_cursor as int)
}

/// The texts involved fit the machine: every note, and the edit buffer with
/// one more character, has a byte length that fits in `usize`.
pub open spec fn sidebar_fits(m: SidebarModel) -> bool {
    &&& byte_len(m.edit_buf) + 4 <= usize::MAX
    &&& m.panels.len() < usize::MAX
    &&& forall|i: int| 0 <= i < m.notes.len() ==> byte_len(#[trigger] m.notes[i]) + 4 <= usize::MAX
}

/// Whether byte offset `b` starts a character of `s` or is its end.
pub fn boundary_ok(s: &String, b: usize) -> (r: bool)
    ensures
        r == is_boundary(s@, b as int),
{
    let v = chars_of(s.as_str());
    let mut i: usize = 0;
    let mut n: usize = 0;
    while i < v.len()
        invariant
            i <= v@.len(),
            v@ == s@,
            n == byte_len(v@.take(i as int)),
            n <= b,
            forall|j: int| 0 <= j < i ==> byte_len(#[trigger] v@.take(j)) != b,
        decreases v.len() - i,
    {
        if n == b {
            return true;
        }
        proof {
            assert(v@.take(i + 1).drop_last() =~= v@.take(i as int));
        }
        let w = char_utf8_len(v[i]);
        if w > b - n {
            proof {
                assert forall|k: int| 0 <= k <= v@.len() implies byte_len(#[trigger] v@.take(k)) != b by {
                    if k > i + 1 {
                        lemma_byte_len_prefix_mono(v@, i + 1, k);
                    }
                }
            }
            return false;
        }
        n = n + w;
        i = i + 1;
    }
    if n == b {
        true
    } else {
        proof {
            assert forall|k: int| 0 <= k <= v@.len() implies byte_len(#[trigger] v@.take(k)) != b by {}
        }
        false
    }
}

/// Whether the sidebar meets `sidebar_wf` and `sidebar_fits`, which the key
/// handlers ask of it.
pub fn sidebar_ready(state: &SidebarState) -> (r: bool)
    ensures
        r == (sidebar_wf(state@) && sidebar_fits(state@)),
{
    if state.notes_editing && !boundary_ok(&state.notes_edit_buf, state.notes_edit_cursor) {
        return false;
    }
    let eb = chars_of(state.notes_edit_buf.as_str());
    if !byte_len_within(&eb, usize::MAX - 4) {
        return false;
    }
    if state.layout.panels.len() == usize::MAX {
        return false;
    }
    let mut i: usize = 0;
    while i < state.layout.notes.len()
        invariant
            i <= state.layout.notes@.len(),
            forall|j: int| 0 <= j < i ==> byte_len(#[trigger] strings_view(state.layout.notes@)[j]) + 4 <= usize::MAX,
        decreases state.layout.notes.len() - i,
    {
        let nv = chars_of(state.layout.notes[i].as_str());
        if !byte_len_within(&nv, usize::MAX - 4) {
            assert(strings_view(state.layout.notes@)[i as int] == nv@);
            assert(byte_len(state@.notes[i as int]) + 4 > usize::MAX);
            return false;
        }
        i = i + 1;
    }
    true
}

/// Byte offsets of character starts determine the character index.
pub proof fn lemma_boundary_index(s: Seq<char>, k: int)
    requires
        0 <= k <= s.len(),
    ensures
        is_boundary(s, byte_len(s.take(k)) as int),
        boundary_index(s, byte_len(s.take(k)) as int) == k,
{
    let b = byte_len(s.take(k)) as int;
    assert(0 <= k <= s.len() && byte_len(s.take(k)) == b);
    let j = boundary_index(s, b);
    if j < k {
        lemma_byte_len_prefix_mono(s, j, k);
    } else if k < j {
        lemma_byte_len_prefix_mono(s, k, j);
    }
}

// ---------------------------------------------------------------------------
// Layout migration
// ---------------------------------------------------------------------------

/// The panel kinds the sidebar still shows.
pub open spec fn is_active_kind(k: PanelKind) -> bool {
    k == PanelKind::Automap || k == PanelKind::Notes
}

/// The panels of active kinds, in order, each moved to the right side.
pub open spec fn active_panels(s: Seq<PanelConfig>) -> Seq<PanelConfig>
    decreases s.len(),
{
    if s.len() == 0 {
        seq![]
    } else {
        let r = active_panels(s.drop_last());
        if is_active_kind(s.last().kind) {
            r.push(PanelConfig { side: Some(SidebarSide::Right), ..s.last() })
        } else {
            r
        }
    }
}

/// The kinds of a panel sequence.
pub open spec fn panel_kinds(s: Seq<PanelConfig>) -> Seq<PanelKind> {
    s.map_values(|p: PanelConfig| p.kind)
}

/// `i` is the first index at which `x` occurs in `s`.
pub open spec fn is_first_index<A>(s: Seq<A>, x: A, i: int) -> bool {
    &&& 0 <= i < s.len()
    &&& s[i] == x
    &&& forall|j: int| 0 <= j < i ==> s[j] != x
}

/// The first index at which `x` occurs in `s` (meaningful when it occurs).
pub open spec fn first_index<A>(s: Seq<A>, x: A) -> int {
    choose|i: int| is_first_index(s, x, i)
}

/// The automap panel a migrated layout gets when it has none.
pub open spec fn automap_panel() -> PanelConfig {
    PanelConfig { kind: PanelKind::Automap, side: Some(SidebarSide::Right), height_pct: 35 }
}

/// The notes panel a migrated layout gets when it has none.
pub open spec fn notes_panel() -> PanelConfig {
    PanelConfig { kind: PanelKind::Notes, side: Some(SidebarSide::Right), height_pct: 65 }
}

/// Panels after migration: legacy kinds dropped and the rest moved to the
/// right side; an automap panel put first and a notes panel put last where
/// missing; the first automap and the first notes panel swapped when the
/// notes panel came first.
pub open spec fn spec_migrate_panels(s: Seq<PanelConfig>) -> Seq<PanelConfig> {
    let kept = active_panels(s);
    let a = if panel_kinds(kept).contains(PanelKind::Automap) {
        kept
    } else {
        seq![automap_panel()] + kept
    };
    let b = if panel_kinds(a).contains(PanelKind::Notes) {
        a
    } else {
        a.push(notes_panel())
    };
    let ai = first_index(panel_kinds(b), PanelKind::Automap);
    let ni = first_index(panel_kinds(b), PanelKind::Notes);
    if ai > ni {
        b.update(ai, b[ni]).update(ni, b[ai])
    } else {
        b
    }
}

/// A first index is unique.
pub proof fn lemma_first_index_unique<A>(s: Seq<A>, x: A, i: int)
    requires
        is_first_index(s, x, i),
    ensures
        first_index(s, x) == i,
{
    let j = first_index(s, x);
    assert(is_first_index(s, x, j));
    if j < i {
        assert(s[j] != x);
    } else if i < j {
        assert(s[i] != x);
    }
}

/// Anything that occurs has a first index.
pub proof fn lemma_first_index_exists<A>(s: Seq<A>, x: A, i: int)
    requires
        0 <= i < s.len(),
        s[i] == x,
    ensures
        is_first_index(s, x, first_index(s, x)),
        first_index(s, x) <= i,
    decreases i,
{
    if forall|j: int| 0 <= j < i ==> s[j] != x {
        assert(is_first_index(s, x, i));
        lemma_first_index_unique(s, x, i);
    } else {
        let j = choose|j: int| 0 <= j < i && s[j] == x;
        lemma_first_index_exists(s, x, j);
    }
}

/// Position of the first panel of kind `k`, if any.
fn find_kind(v: &Vec<PanelConfig>, k: PanelKind) -> (r: Option<usize>)
    ensures
        match r {
            Some(i) => is_first_index(panel_kinds(v@), k, i as int) && first_index(panel_kinds(v@), k) == i,
            None => !panel_kinds(v@).contains(k),
        },
{
    let mut i: usize = 0;
    while i < v.len()
        invariant
            i <= v@.len(),
            forall|j: int| 0 <= j < i ==> v@[j].kind != k,
        decreases v.len() - i,
    {
        if v[i].kind == k {
            proof {
                assert(is_first_index(panel_kinds(v@), k, i as int));
                lemma_first_index_unique(panel_kinds(v@), k, i as int);
            }
            return Some(i);
        }
        i += 1;
    }
    proof {
        if panel_kinds(v@).contains(k) {
            let j = choose|j: int| 0 <= j < panel_kinds(v@).len() && panel_kinds(v@)[j] == k;
            assert(v@[j].kind == k);
        }
    }
    None
}

/// Remove legacy panel kinds and make sure an automap panel and a notes panel
/// are present on the right side, the automap first.
fn migrate_layout(layout: &mut SidebarLayout)
    ensures
        final(layout).panels@ == spec_migrate_panels(old(layout).panels@),
        final(layout).right_visible == old(layout).right_visible,
        final(layout).right_width == old(layout).right_width,
        final(layout).notes@ == old(layout).notes@,
{
    let ghost s = layout.panels@;
    let mut kept: Vec<PanelConfig> = Vec::new();
    let mut i: usize = 0;
    while i < layout.panels.len()
        invariant
            i <= s.len(),
            layout.panels@ == s,
            kept@ == active_panels(s.take(i as int)),
        decreases s.len() - i,
    {
        let p = layout.panels[i];
        proof {
            assert(s.take(i + 1).drop_last() =~= s.take(i as int));
        }
        if p.kind == PanelKind::Automap || p.kind == PanelKind::Notes {
            kept.push(PanelConfig { kind: p.kind, side: Some(SidebarSide::Right), height_pct: p.height_pct });
        }
        i += 1;
    }
    assert(s.take(s.len() as int) =~= s);
    let ghost k0 = kept@;
    if find_kind(&kept, PanelKind::Automap).is_none() {
        kept.insert(0, PanelConfig { kind: PanelKind::Automap, side: Some(SidebarSide::Right), height_pct: 35 });
        assert(kept@ =~= seq![automap_panel()] + k0);
    }
    let ghost k1 = kept@;
    if find_kind(&kept, PanelKind::Notes).is_none() {
        kept.push(PanelConfig { kind: PanelKind::Notes, side: Some(SidebarSide::Right), height_pct: 65 });
    }
    let ghost k2 = kept@;
    let ai = find_kind(&kept, PanelKind::Automap);
    let ni = find_kind(&kept, PanelKind::Notes);
    proof {
        assert(panel_kinds(k1).contains(PanelKind::Automap)) by {
            if !panel_kinds(k0).contains(PanelKind::Automap) {
                assert(panel_kinds(k1)[0] == PanelKind::Automap);
            }
        }
        assert(panel_kinds(k2).contains(PanelKind::Automap)) by {
            let j = choose|j: int| 0 <= j < panel_kinds(k1).len() && panel_kinds(k1)[j] == PanelKind::Automap;
            assert(panel_kinds(k2)[j] == PanelKind::Automap);
        }
        assert(panel_kinds(k2).contains(PanelKind::Notes)) by {
            if !panel_kinds(k1).contains(PanelKind::Notes) {
                assert(panel_kinds(k2)[k2.len() - 1] == PanelKind::Notes);
            }
        }
    }
    match (ai, ni) {
        (Some(a), Some(n)) => {
            if a > n {
                let pa = kept[a];
                let pn = kept[n];
                kept.set(a, pn);
                kept.set(n, pa);
            }
        },
        _ => {},
    }
    layout.panels = kept;
}

/// The sidebar of a stored layout, migrated; nothing focused, no overlay,
/// no editing.
pub open spec fn sidebar_for(layout: SidebarLayout) -> SidebarModel {
    SidebarModel {
        right_visible: layout.right_visible,
        right_width: layout.right_width,
        panels: spec_migrate_panels(layout.panels@),
        notes: strings_view(layout.notes@),
        focused_panel: None,
        options_open: false,
        panel_cursor: 0,
        options_cursor: 0,
        notes_editing: false,
        notes_is_new: false,
        edit_buf: Seq::empty(),
        edit_cursor: 0,
    }
}

impl SidebarState {
    /// Sidebar state for a layout, migrated; nothing focused, no overlay, no
    /// editing, an empty automap.
    pub fn new(layout: SidebarLayout) -> (s: SidebarState)
        ensures
            s@ == sidebar_for(layout),
            s.automap.rooms@ == Map::<Seq<char>, RoomView>::empty(),
            s.automap.current_room_id is None,
            sidebar_wf(s@),
    {
        let mut layout = layout;
        migrate_layout(&mut layout);
        SidebarState {
            layout,
            focused_panel: None,
            options_open: false,
            automap: WorldMap::default(),
            panel_cursor: 0,
            options_cursor: 0,
            notes_editing: false,
            notes_is_new: false,
            notes_edit_buf: String::new(),
            notes_edit_cursor: 0,
        }
    }

    /// Whether any panel is assigned to the given sidebar side.
    pub fn has_side_panels(&self, side: &SidebarSide) -> (b: bool)
        ensures
            b == exists|i: int| 0 <= i < self.layout.panels@.len() && self.layout.panels@[i].side == Some(*side),
    {
        let mut i: usize = 0;
        while i < self.layout.panels.len()
            invariant
                i <= self.layout.panels@.len(),
                forall|j: int| 0 <= j < i ==> self.layout.panels@[j].side != Some(*side),
            decreases self.layout.panels.len() - i,
        {
            if self.layout.panels[i].side == Some(*side) {
                return true;
            }
            i += 1;
        }
        false
    }

    /// Toggle the right sidebar's visibility; a no-op when no panel is on the
    /// right.  Hiding it takes focus away from a right-side panel.  Returns
    /// whether the layout changed.
    pub fn toggle_right(&mut self) -> (changed: bool)
        ensures
            changed == has_right_panels(old(self)@.panels),
            final(self)@ == spec_toggle_right(old(self)@),
            final(self).automap == old(self).automap,
    {
        if self.has_side_panels(&SidebarSide::Right) {
            self.layout.right_visible = !self.layout.right_visible;
            if !self.layout.right_visible {
                match self.focused_panel {
                    Some(fp) => {
                        let mut on_right = false;
                        let mut i: usize = 0;
                        while i < self.layout.panels.len()
                            invariant
                                i <= self.layout.panels@.len(),
                                on_right == exists|j: int| 0 <= j < i && self.layout.panels@[j].kind == fp
                                    && self.layout.panels@[j].side == Some(SidebarSide::Right),
                            decreases self.layout.panels.len() - i,
                        {
                            let p = self.layout.panels[i];
                            if p.kind == fp && p.side == Some(SidebarSide::Right) {
                                on_right = true;
                            }
                            i += 1;
                        }
                        if on_right {
                            self.focused_panel = None;
                        }
                    },
                    None => {},
                }
            }
            true
        } else {
            false
        }
    }

    /// Move keyboard focus to the next panel shown on the right sidebar,
    /// wrapping around; from no focus, or a panel not shown, to the first.
    /// Clears focus when no panel is shown; either way `panel_cursor` goes
    /// back to 0.
    pub fn focus_next_panel(&mut self)
        ensures
            final(self)@ == spec_focus_next(old(self)@),
            final(self).automap == old(self).automap,
    {
        let mut visible: Vec<PanelKind> = Vec::new();
        if self.layout.right_visible {
            let mut i: usize = 0;
            while i < self.layout.panels.len()
                invariant
                    i <= self.layout.panels@.len(),
                    self.layout.right_visible,
                    visible@ == right_kinds(self.layout.panels@.take(i as int)),
                decreases self.layout.panels.len() - i,
            {
                proof {
                    assert(self.layout.panels@.take(i + 1).drop_last() =~= self.layout.panels@.take(i as int));
                }
                let p = self.layout.panels[i];
                if p.side == Some(SidebarSide::Right) {
                    visible.push(p.kind);
                }
                i += 1;
            }
            assert(self.layout.panels@.take(self.layout.panels@.len() as int) =~= self.layout.panels@);
        }
        if visible.len() == 0 {
            self.focused_panel = None;
            self.panel_cursor = 0;
            return;
        }
        let next = match self.focused_panel {
            None => visible[0],
            Some(cur) => {
                let mut pos: Option<usize> = None;
                let mut j: usize = 0;
                while j < visible.len()
                    invariant
                        j <= visible@.len(),
                        pos is None ==> forall|t: int| 0 <= t < j ==> visible@[t] != cur,
                        pos matches Some(p) ==> is_first_index(visible@, cur, p as int),
                    decreases visible.len() - j,
                {
                    if pos.is_none() && visible[j] == cur {
                        pos = Some(j);
                    }
                    j += 1;
                }
                match pos {
                    None => {
                        proof {
                            if exists|t: int| is_first_index(visible@, cur, t) {
                                let t = choose|t: int| is_first_index(visible@, cur, t);
                                assert(visible@[t] != cur);
                            }
                        }
                        visible[0]
                    },
                    Some(i) => {
                        proof {
                            lemma_first_index_unique(visible@, cur, i as int);
                        }
                        let next_i = (i + 1) % visible.len();
                        visible[next_i]
                    },
                }
            },
        };
        self.focused_panel = Some(next);
        self.panel_cursor = 0;
    }

    /// Feed a GMCP message to the automap; returns whether it was a room
    /// update.
    pub fn map_apply_gmcp(&mut self, msg: &str) -> (b: bool)
        ensures
            b == spec_parse_room_info_from_gmcp(msg@) is Some,
            match spec_parse_room_info_from_gmcp(msg@) {
                Some((id, name, exits)) => final(self).automap.rooms@ == spec_apply_room_info(
                    old(self).automap.rooms@,
                    opt_view(old(self).automap.current_room_id),
                    id,
                    name,
                    exits,
                ) && opt_view(final(self).automap.current_room_id) == Some(id),
                None => final(self).automap.rooms@ == old(self).automap.rooms@
                    && final(self).automap.current_room_id == old(self).automap.current_room_id,
            },
            final(self)@ == old(self)@,
    {
        self.automap.apply_gmcp_message(msg)
    }

    /// Feed a line of server output to the automap's exit heuristic.
    pub fn map_apply_output_line(&mut self, raw: &str)
        ensures
            (final(self).automap.rooms@, opt_view(final(self).automap.current_room_id))
                == spec_apply_exits_heuristic(
                old(self).automap.rooms@,
                opt_view(old(self).automap.current_room_id),
                spec_strip_ansi(raw@),
            ),
            final(self)@ == old(self)@,
    {
        self.automap.apply_exits_heuristic_from_output(raw);
    }

    /// Place an automap room at the given coordinates.
    pub fn map_set_position(&mut self, room_id: &str, x: i32, y: i32, z: i32)
        ensures
            final(self).automap.rooms@ == spec_set_room_position(old(self).automap.rooms@, room_id@, x, y, z),
            final(self).automap.current_room_id == old(self).automap.current_room_id,
            final(self)@ == old(self)@,
    {
        self.automap.set_room_position(room_id, x, y, z);
    }

    /// Link two automap rooms in both directions.
    pub fn map_link_rooms(&mut self, from_id: &str, dir: Direction, to_id: &str)
        ensures
            final(self).automap.rooms@ == spec_link_rooms(old(self).automap.rooms@, from_id@, dir, to_id@),
            final(self).automap.current_room_id == old(self).automap.current_room_id,
            final(self)@ == old(self)@,
    {
        self.automap.link_rooms(from_id, dir, to_id);
    }

    /// The automap's current room id.
    pub fn map_current_room_id(&self) -> (r: Option<String>)
        ensures
            opt_view(r) == opt_view(self.automap.current_room_id),
    {
        match &self.automap.current_room_id {
            Some(s) => Some(s.clone()),
            None => None,
        }
    }

    /// Number of rows in the focused panel's list: the notes when the notes
    /// panel has focus, otherwise none.
    pub fn active_panel_len(&self) -> (n: usize)
        ensures
            n == spec_active_panel_len(self@),
    {
        match self.focused_panel {
            Some(PanelKind::Notes) => self.layout.notes.len(),
            _ => 0,
        }
    }
}

/// The sidebar of the default layout, with nothing focused or open.
pub open spec fn default_sidebar() -> SidebarModel {
    SidebarModel {
        right_visible: true,
        right_width: 26,
        panels: spec_migrate_panels(crate::config::spec_default_panels()),
        notes: Seq::empty(),
        focused_panel: None,
        options_open: false,
        panel_cursor: 0,
        options_cursor: 0,
        notes_editing: false,
        notes_is_new: false,
        edit_buf: Seq::empty(),
        edit_cursor: 0,
    }
}

impl Default for SidebarState {
    fn default() -> (s: SidebarState)
        ensures
            s@ == default_sidebar(),
            s.automap.rooms@ == Map::<Seq<char>, RoomView>::empty(),
            s.automap.current_room_id is None,
            sidebar_wf(s@),
    {
        let s = SidebarState::new(SidebarLayout::default());
        assert(s@.notes =~= Seq::<Seq<char>>::empty());
        s
    }
}

/// Whether any panel sits on the right side.
pub open spec fn has_right_panels(panels: Seq<PanelConfig>) -> bool {
    exists|i: int| 0 <= i < panels.len() && panels[i].side == Some(SidebarSide::Right)
}

/// The sidebar after a right-visibility toggle.
pub open spec fn spec_toggle_right(m: SidebarModel) -> SidebarModel {
    if !has_right_panels(m.panels) {
        m
    } else {
        let vis = !m.right_visible;
        let unfocus = !vis && match m.focused_panel {
            Some(fp) => exists|j: int| 0 <= j < m.panels.len() && m.panels[j].kind == fp
                && m.panels[j].side == Some(SidebarSide::Right),
            None => false,
        };
        SidebarModel {
            right_visible: vis,
            focused_panel: if unfocus { None } else { m.focused_panel },
            ..m
        }
    }
}

/// Kinds of the panels on the right side, in order.
pub open spec fn right_kinds(s: Seq<PanelConfig>) -> Seq<PanelKind>
    decreases s.len(),
{
    if s.len() == 0 {
        seq![]
    } else {
        let r = right_kinds(s.drop_last());
        if s.last().side == Some(SidebarSide::Right) {
            r.push(s.last().kind)
        } else {
            r
        }
    }
}

/// Kinds of the panels shown: those on the right side while it is visible.
pub open spec fn visible_kinds(m: SidebarModel) -> Seq<PanelKind> {
    if m.right_visible {
        right_kinds(m.panels)
    } else {
        seq![]
    }
}

/// The panel focused after `focus_next_panel`.
pub open spec fn next_focus(vis: Seq<PanelKind>, cur: Option<PanelKind>) -> PanelKind {
    match cur {
        Some(c) => if vis.contains(c) {
            vis[(first_index(vis, c) + 1) % (vis.len() as int)]
        } else {
            vis[0]
        },
        None => vis[0],
    }
}

/// The sidebar after `focus_next_panel`.
pub open spec fn spec_focus_next(m: SidebarModel) -> SidebarModel {
    let vis = visible_kinds(m);
    if vis.len() == 0 {
        SidebarModel { focused_panel: None, panel_cursor: 0, ..m }
    } else {
        SidebarModel { focused_panel: Some(next_focus(vis, m.focused_panel)), panel_cursor: 0, ..m }
    }
}

/// Rows in the focused panel's list.
pub open spec fn spec_active_panel_len(m: SidebarModel) -> int {
    if m.focused_panel == Some(PanelKind::Notes) {
        m.notes.len() as int
    } else {
        0
    }
}


// ---------------------------------------------------------------------------
// Key handling
// ---------------------------------------------------------------------------

/// Keys while a panel has focus and neither the overlay nor the editor is open.
pub open spec fn spec_panel_key(m: SidebarModel, code: KeyCode) -> (SidebarModel, SidebarKeyResult) {
    let nf = m.focused_panel == Some(PanelKind::Notes);
    let panel_len = spec_active_panel_len(m);
    let pc = m.panel_cursor as int;
    let n = m.notes.len() as int;
    match code {
        KeyCode::Esc => (m, SidebarKeyResult::FocusGame),
        KeyCode::F(f) => if f == 1 {
            (m, SidebarKeyResult::FocusGame)
        } else {
            (m, SidebarKeyResult::Unhandled)
        },
        KeyCode::Tab => (spec_focus_next(m), SidebarKeyResult::Consumed),
        KeyCode::Up => (
            SidebarModel { panel_cursor: if pc > 0 { (pc - 1) as usize } else { m.panel_cursor }, ..m },
            SidebarKeyResult::Consumed,
        ),
        KeyCode::Down => (
            SidebarModel {
                panel_cursor: if panel_len > 0 && pc + 1 < panel_len { (pc + 1) as usize } else { m.panel_cursor },
                ..m
            },
            SidebarKeyResult::Consumed,
        ),
        KeyCode::Enter => if nf {
            spec_edit_selected(m)
        } else {
            (m, SidebarKeyResult::Unhandled)
        },
        KeyCode::Delete => if nf {
            spec_delete_selected(m)
        } else {
            (m, SidebarKeyResult::Unhandled)
        },
        KeyCode::Char(c) => if c == 'o' {
            (SidebarModel { options_open: true, options_cursor: 0, ..m }, SidebarKeyResult::Consumed)
        } else if (c == 'a' || c == 'n') && nf {
            (
                SidebarModel {
                    notes: m.notes.push(seq![]),
                    panel_cursor: n as usize,
                    notes_editing: true,
                    notes_is_new: true,
                    edit_buf: seq![],
                    edit_cursor: 0,
                    ..m
                },
                SidebarKeyResult::Consumed,
            )
        } else if c == 'e' && nf {
            spec_edit_selected(m)
        } else if c == 'd' && nf {
            spec_delete_selected(m)
        } else if c == 'K' && nf {
            if pc > 0 && pc < n {
                (
                    SidebarModel {
                        notes: m.notes.update(pc - 1, m.notes[pc]).update(pc, m.notes[pc - 1]),
                        panel_cursor: (pc - 1) as usize,
                        ..m
                    },
                    SidebarKeyResult::SaveLayout,
                )
            } else {
                (m, SidebarKeyResult::Consumed)
            }
        } else if c == 'J' && nf {
            if pc + 1 < n {
                (
                    SidebarModel {
                        notes: m.notes.update(pc, m.notes[pc + 1]).update(pc + 1, m.notes[pc]),
                        panel_cursor: (pc + 1) as usize,
                        ..m
                    },
                    SidebarKeyResult::SaveLayout,
                )
            } else {
                (m, SidebarKeyResult::Consumed)
            }
        } else {
            (m, SidebarKeyResult::Unhandled)
        },
        _ => (m, SidebarKeyResult::Unhandled),
    }
}

/// Start editing the selected note, cursor at its end.
pub open spec fn spec_edit_selected(m: SidebarModel) -> (SidebarModel, SidebarKeyResult) {
    let pc = m.panel_cursor as int;
    if pc < m.notes.len() {
        (
            SidebarModel {
                notes_editing: true,
                notes_is_new: false,
                edit_buf: m.notes[pc],
                edit_cursor: byte_len(m.notes[pc]) as usize,
                ..m
            },
            SidebarKeyResult::Consumed,
        )
    } else {
        (m, SidebarKeyResult::Consumed)
    }
}

/// Delete the selected note, keeping the cursor on the list.
pub open spec fn spec_delete_selected(m: SidebarModel) -> (SidebarModel, SidebarKeyResult) {
    let pc = m.panel_cursor as int;
    if pc < m.notes.len() {
        let notes = m.notes.remove(pc);
        (
            SidebarModel {
                notes,
                panel_cursor: if pc > 0 && pc >= notes.len() { (pc - 1) as usize } else { m.panel_cursor },
                ..m
            },
            SidebarKeyResult::SaveLayout,
        )
    } else {
        (m, SidebarKeyResult::Consumed)
    }
}

/// Keys while a note is being edited.  The cursor is a byte offset; it moves
/// by whole characters.
pub open spec fn spec_notes_edit_key(m: SidebarModel, code: KeyCode) -> (SidebarModel, SidebarKeyResult) {
    let s = m.edit_buf;
    let b = m.edit_cursor as int;
    let k = boundary_index(s, b);
    let pc = m.panel_cursor as int;
    match code {
        KeyCode::Enter => if pc < m.notes.len() {
            (
                SidebarModel {
                    notes: m.notes.update(pc, s),
                    edit_buf: seq![],
                    notes_editing: false,
                    edit_cursor: 0,
                    ..m
                },
                SidebarKeyResult::SaveLayout,
            )
        } else {
            (SidebarModel { notes_editing: false, edit_cursor: 0, ..m }, SidebarKeyResult::SaveLayout)
        },
        KeyCode::Esc => if m.notes_is_new && pc < m.notes.len() {
            (
                SidebarModel {
                    notes: m.notes.remove(pc),
                    panel_cursor: if pc > 0 { (pc - 1) as usize } else { m.panel_cursor },
                    notes_editing: false,
                    edit_cursor: 0,
                    ..m
                },
                SidebarKeyResult::SaveLayout,
            )
        } else {
            (SidebarModel { notes_editing: false, edit_cursor: 0, ..m }, SidebarKeyResult::Consumed)
        },
        KeyCode::Backspace => if b > 0 {
            (
                SidebarModel { edit_buf: s.remove(k - 1), edit_cursor: byte_len(s.take(k - 1)) as usize, ..m },
                SidebarKeyResult::Consumed,
            )
        } else {
            (m, SidebarKeyResult::Consumed)
        },
        KeyCode::Delete => if b < byte_len(s) {
            (SidebarModel { edit_buf: s.remove(k), ..m }, SidebarKeyResult::Consumed)
        } else {
            (m, SidebarKeyResult::Consumed)
        },
        KeyCode::Left => if b > 0 {
            (SidebarModel { edit_cursor: byte_len(s.take(k - 1)) as usize, ..m }, SidebarKeyResult::Consumed)
        } else {
            (m, SidebarKeyResult::Consumed)
        },
        KeyCode::Right => if b < byte_len(s) {
            (SidebarModel { edit_cursor: byte_len(s.take(k + 1)) as usize, ..m }, SidebarKeyResult::Consumed)
        } else {
            (m, SidebarKeyResult::Consumed)
        },
        KeyCode::Home => (SidebarModel { edit_cursor: 0, ..m }, SidebarKeyResult::Consumed),
        KeyCode::End => (SidebarModel { edit_cursor: byte_len(s) as usize, ..m }, SidebarKeyResult::Consumed),
        KeyCode::Char(c) => (
            SidebarModel { edit_buf: s.insert(k, c), edit_cursor: (b + utf8_width(c)) as usize, ..m },
            SidebarKeyResult::Consumed,
        ),
        _ => (m, SidebarKeyResult::Consumed),
    }
}

/// Visibility toggle of a panel in the options overlay: hidden panels go to
/// the right side, shown ones are hidden.
pub open spec fn toggled_side(side: Option<SidebarSide>) -> Option<SidebarSide> {
    match side {
        None => Some(SidebarSide::Right),
        Some(_) => None,
    }
}

/// Keys while the options overlay is open.  Rows: one per panel, then the
/// width row, then the close row.
pub open spec fn spec_options_key(m: SidebarModel, code: KeyCode) -> (SidebarModel, SidebarKeyResult) {
    let n = m.panels.len() as int;
    let oc = m.options_cursor as int;
    match code {
        KeyCode::Esc => (SidebarModel { options_open: false, ..m }, SidebarKeyResult::SaveLayout),
        KeyCode::Up => (
            SidebarModel { options_cursor: if oc > 0 { (oc - 1) as usize } else { m.options_cursor }, ..m },
            SidebarKeyResult::Consumed,
        ),
        KeyCode::Down => (
            SidebarModel { options_cursor: if oc + 1 < n + 2 { (oc + 1) as usize } else { m.options_cursor }, ..m },
            SidebarKeyResult::Consumed,
        ),
        KeyCode::Enter => spec_options_select(m),
        KeyCode::Right => if oc < n {
            (
                SidebarModel { panels: m.panels.update(oc, PanelConfig { side: toggled_side(m.panels[oc].side), ..m.panels[oc] }), ..m },
                SidebarKeyResult::SaveLayout,
            )
        } else if oc == n && m.right_width < 60 {
            (SidebarModel { right_width: (m.right_width + 1) as u16, ..m }, SidebarKeyResult::SaveLayout)
        } else {
            (m, SidebarKeyResult::Consumed)
        },
        KeyCode::Left => if oc < n {
            (
                SidebarModel { panels: m.panels.update(oc, PanelConfig { side: toggled_side(m.panels[oc].side), ..m.panels[oc] }), ..m },
                SidebarKeyResult::SaveLayout,
            )
        } else if oc == n && m.right_width > 12 {
            (SidebarModel { right_width: (m.right_width - 1) as u16, ..m }, SidebarKeyResult::SaveLayout)
        } else {
            (m, SidebarKeyResult::Consumed)
        },
        KeyCode::Char(c) => if c == 'q' {
            (SidebarModel { options_open: false, ..m }, SidebarKeyResult::SaveLayout)
        } else if c == ' ' {
            spec_options_select(m)
        } else if c == '+' || c == '=' {
            if oc < n {
                let h = m.panels[oc].height_pct;
                let h2: u8 = if h + 5 > 100 { 100 } else { (h + 5) as u8 };
                (SidebarModel { panels: m.panels.update(oc, PanelConfig { height_pct: h2, ..m.panels[oc] }), ..m }, SidebarKeyResult::SaveLayout)
            } else {
                (m, SidebarKeyResult::Consumed)
            }
        } else if c == '-' {
            if oc < n {
                let h = m.panels[oc].height_pct;
                let h2: u8 = if h < 10 { 5 } else { (h - 5) as u8 };
                (SidebarModel { panels: m.panels.update(oc, PanelConfig { height_pct: h2, ..m.panels[oc] }), ..m }, SidebarKeyResult::SaveLayout)
            } else {
                (m, SidebarKeyResult::Consumed)
            }
        } else {
            (m, SidebarKeyResult::Unhandled)
        },
        _ => (m, SidebarKeyResult::Unhandled),
    }
}

/// Enter / space in the options overlay: the close row closes it.
pub open spec fn spec_options_select(m: SidebarModel) -> (SidebarModel, SidebarKeyResult) {
    if m.options_cursor as int == m.panels.len() + 1 {
        (SidebarModel { options_open: false, ..m }, SidebarKeyResult::SaveLayout)
    } else {
        (m, SidebarKeyResult::Consumed)
    }
}

/// A key while a sidebar panel has focus: the options overlay takes it when
/// open, else the notes editor when editing, else the panel.
pub open spec fn spec_sidebar_key(m: SidebarModel, key: KeyEvent) -> (SidebarModel, SidebarKeyResult) {
    if m.options_open {
        spec_options_key(m, key.code)
    } else if m.notes_editing {
        spec_notes_edit_key(m, key.code)
    } else {
        spec_panel_key(m, key.code)
    }
}


/// Character index of a byte offset that starts a character (or ends `v`).
pub(crate) fn char_index_of_byte(v: &Vec<char>, b: usize) -> (k: usize)
    requires
        is_boundary(v@, b as int),
        byte_len(v@) <= usize::MAX,
    ensures
        k <= v@.len(),
        byte_len(v@.take(k as int)) == b,
        boundary_index(v@, b as int) == k,
{
    let ghost kk = choose|k: int| 0 <= k <= v@.len() && byte_len(v@.take(k)) == b;
    let mut k: usize = 0;
    let mut n: usize = 0;
    while n < b
        invariant
            0 <= kk <= v@.len(),
            byte_len(v@.take(kk)) == b,
            byte_len(v@) <= usize::MAX,
            k <= kk,
            n == byte_len(v@.take(k as int)),
            v@.len() == v.len(),
        decreases kk - k,
    {
        proof {
            if k == kk {
                assert(false);
            }
            assert(v@.take(k + 1).drop_last() =~= v@.take(k as int));
            if k + 1 < kk {
                lemma_byte_len_prefix_mono(v@, k + 1, kk);
            }
        }
        n = n + char_utf8_len(v[k]);
        k = k + 1;
    }
    proof {
        if k < kk {
            lemma_byte_len_prefix_mono(v@, k as int, kk);
        }
        lemma_boundary_index(v@, k as int);
    }
    k
}

proof fn lemma_strings_view_push(v: Seq<String>, x: String)
    ensures
        strings_view(v.push(x)) =~= strings_view(v).push(x@),
{
}

proof fn lemma_strings_view_update(v: Seq<String>, i: int, x: String)
    requires
        0 <= i < v.len(),
    ensures
        strings_view(v.update(i, x)) =~= strings_view(v).update(i, x@),
{
}

proof fn lemma_strings_view_remove(v: Seq<String>, i: int)
    requires
        0 <= i < v.len(),
    ensures
        strings_view(v.remove(i)) =~= strings_view(v).remove(i),
{
}

/// Keys while a note is being edited.
fn handle_notes_edit_key(state: &mut SidebarState, key: KeyEvent) -> (r: SidebarKeyResult)
    requires
        old(state).notes_editing,
        !old(state).options_open,
        sidebar_wf(old(state)@),
        sidebar_fits(old(state)@),
    ensures
        (final(state)@, r) == spec_notes_edit_key(old(state)@, key.code),
        final(state).automap == old(state).automap,
        sidebar_wf(final(state)@),
{
    let ghost m = state@;
    let ghost s = state@.edit_buf;
    let ghost b = state.notes_edit_cursor as int;
    match key.code {
        KeyCode::Enter => {
            let idx = state.panel_cursor;
            if idx < state.layout.notes.len() {
                let buf = state.notes_edit_buf.clone();
                state.notes_edit_buf = String::new();
                proof { lemma_strings_view_update(state.layout.notes@, idx as int, buf); }
                state.layout.notes.set(idx, buf);
            }
            state.notes_editing = false;
            state.notes_edit_cursor = 0;
            SidebarKeyResult::SaveLayout
        },
        KeyCode::Esc => {
            if state.notes_is_new && state.panel_cursor < state.layout.notes.len() {
                proof { lemma_strings_view_remove(state.layout.notes@, state.panel_cursor as int); }
                state.layout.notes.remove(state.panel_cursor);
                if state.panel_cursor > 0 {
                    state.panel_cursor -= 1;
                }
                state.notes_editing = false;
                state.notes_edit_cursor = 0;
                return SidebarKeyResult::SaveLayout;
            }
            state.notes_editing = false;
            state.notes_edit_cursor = 0;
            SidebarKeyResult::Consumed
        },
        KeyCode::Backspace => {
            if state.notes_edit_cursor > 0 {
                let mut v = chars_of(state.notes_edit_buf.as_str());
                let k = char_index_of_byte(&v, state.notes_edit_cursor);
                let pos = prefix_byte_len(&v, k - 1);
                proof {
                    lemma_boundary_index(v@.remove(k - 1), k - 1);
                    assert(v@.remove(k - 1).take(k - 1) =~= v@.take(k - 1));
                }
                v.remove(k - 1);
                state.notes_edit_buf = string_of(&v);
                state.notes_edit_cursor = pos;
            }
            SidebarKeyResult::Consumed
        },
        KeyCode::Delete => {
            let mut v = chars_of(state.notes_edit_buf.as_str());
            let len = prefix_byte_len(&v, v.len());
            proof { assert(v@.take(v@.len() as int) =~= v@); }
            if state.notes_edit_cursor < len {
                let k = char_index_of_byte(&v, state.notes_edit_cursor);
                proof {
                    if k == v@.len() {
                        assert(false);
                    }
                    lemma_boundary_index(v@.remove(k as int), k as int);
                    assert(v@.remove(k as int).take(k as int) =~= v@.take(k as int));
                }
                v.remove(k);
                state.notes_edit_buf = string_of(&v);
            }
            SidebarKeyResult::Consumed
        },
        KeyCode::Left => {
            if state.notes_edit_cursor > 0 {
                let v = chars_of(state.notes_edit_buf.as_str());
                let k = char_index_of_byte(&v, state.notes_edit_cursor);
                proof { lemma_boundary_index(v@, k - 1); }
                state.notes_edit_cursor = prefix_byte_len(&v, k - 1);
            }
            SidebarKeyResult::Consumed
        },
        KeyCode::Right => {
            let v = chars_of(state.notes_edit_buf.as_str());
            let len = prefix_byte_len(&v, v.len());
            proof { assert(v@.take(v@.len() as int) =~= v@); }
            if state.notes_edit_cursor < len {
                let k = char_index_of_byte(&v, state.notes_edit_cursor);
                proof {
                    if k == v@.len() {
                        assert(false);
                    }
                    lemma_boundary_index(v@, k + 1);
                }
                state.notes_edit_cursor = prefix_byte_len(&v, k + 1);
            }
            SidebarKeyResult::Consumed
        },
        KeyCode::Home => {
            state.notes_edit_cursor = 0;
            proof { lemma_boundary_index(state.notes_edit_buf@, 0); }
            SidebarKeyResult::Consumed
        },
        KeyCode::End => {
            let v = chars_of(state.notes_edit_buf.as_str());
            proof {
                assert(v@.take(v@.len() as int) =~= v@);
                lemma_boundary_index(v@, v@.len() as int);
            }
            state.notes_edit_cursor = prefix_byte_len(&v, v.len());
            SidebarKeyResult::Consumed
        },
        KeyCode::Char(c) => {
            let mut v = chars_of(state.notes_edit_buf.as_str());
            let k = char_index_of_byte(&v, state.notes_edit_cursor);
            let w = char_utf8_len(c);
            proof {
                if k < v@.len() {
                    lemma_byte_len_prefix_mono(v@, k as int, v@.len() as int);
                }
                assert(v@.take(v@.len() as int) =~= v@);
                let t = v@.insert(k as int, c);
                assert(t.take(k + 1).drop_last() =~= v@.take(k as int));
                lemma_boundary_index(t, k + 1);
            }
            v.insert(k, c);
            state.notes_edit_buf = string_of(&v);
            state.notes_edit_cursor = state.notes_edit_cursor + w;
            SidebarKeyResult::Consumed
        },
        _ => SidebarKeyResult::Consumed,
    }
}

/// Keys while the options overlay is open.
fn handle_options_key(state: &mut SidebarState, key: KeyEvent) -> (r: SidebarKeyResult)
    requires
        old(state).options_open,
        old(state).layout.panels@.len() < usize::MAX,
    ensures
        (final(state)@, r) == spec_options_key(old(state)@, key.code),
        final(state).automap == old(state).automap,
{
    let n_panels = state.layout.panels.len();
    match key.code {
        KeyCode::Esc | KeyCode::Char('q') => {
            state.options_open = false;
            SidebarKeyResult::SaveLayout
        },
        KeyCode::Up => {
            if state.options_cursor > 0 {
                state.options_cursor -= 1;
            }
            SidebarKeyResult::Consumed
        },
        KeyCode::Down => {
            if state.options_cursor <= n_panels {
                state.options_cursor += 1;
            }
            SidebarKeyResult::Consumed
        },
        KeyCode::Enter | KeyCode::Char(' ') => {
            if state.options_cursor > n_panels && state.options_cursor - 1 == n_panels {
                state.options_open = false;
                return SidebarKeyResult::SaveLayout;
            }
            SidebarKeyResult::Consumed
        },
        KeyCode::Right | KeyCode::Left => {
            let i = state.options_cursor;
            let right = key.code == KeyCode::Right;
            if i < n_panels {
                let p = state.layout.panels[i];
                let side = match p.side {
                    None => Some(SidebarSide::Right),
                    Some(_) => None,
                };
                state.layout.panels.set(i, PanelConfig { kind: p.kind, side, height_pct: p.height_pct });
                SidebarKeyResult::SaveLayout
            } else if i == n_panels && right && state.layout.right_width < 60 {
                state.layout.right_width += 1;
                SidebarKeyResult::SaveLayout
            } else if i == n_panels && !right && state.layout.right_width > 12 {
                state.layout.right_width -= 1;
                SidebarKeyResult::SaveLayout
            } else {
                SidebarKeyResult::Consumed
            }
        },
        KeyCode::Char('+') | KeyCode::Char('=') | KeyCode::Char('-') => {
            let i = state.options_cursor;
            if i < n_panels {
                let p = state.layout.panels[i];
                let h = p.height_pct;
                let h2: u8 = if key.code == KeyCode::Char('-') {
                    if h < 10 { 5 } else { h - 5 }
                } else {
                    if h > 95 { 100 } else { h + 5 }
                };
                state.layout.panels.set(i, PanelConfig { kind: p.kind, side: p.side, height_pct: h2 });
                SidebarKeyResult::SaveLayout
            } else {
                SidebarKeyResult::Consumed
            }
        },
        _ => SidebarKeyResult::Unhandled,
    }
}

/// Start editing the selected note.
fn edit_selected(state: &mut SidebarState) -> (r: SidebarKeyResult)
    requires
        sidebar_fits(old(state)@),
        !old(state).notes_editing,
    ensures
        (final(state)@, r) == spec_edit_selected(old(state)@),
        final(state).automap == old(state).automap,
        final(state)@.notes_editing ==> is_boundary(final(state)@.edit_buf, final(state)@.edit_cursor as int),
        !old(state)@.notes_editing && !final(state)@.notes_editing ==> final(state)@ == old(state)@,
{
    if state.panel_cursor < state.layout.notes.len() {
        let existing = state.layout.notes[state.panel_cursor].clone();
        let v = chars_of(existing.as_str());
        proof {
            assert(existing@ == state@.notes[state.panel_cursor as int]);
            assert(v@.take(v@.len() as int) =~= v@);
            lemma_boundary_index(v@, v@.len() as int);
        }
        let len = prefix_byte_len(&v, v.len());
        state.notes_editing = true;
        state.notes_is_new = false;
        state.notes_edit_buf = existing;
        state.notes_edit_cursor = len;
    }
    SidebarKeyResult::Consumed
}

/// Delete the selected note.
fn delete_selected(state: &mut SidebarState) -> (r: SidebarKeyResult)
    ensures
        (final(state)@, r) == spec_delete_selected(old(state)@),
        final(state).automap == old(state).automap,
{
    if state.panel_cursor < state.layout.notes.len() {
        proof { lemma_strings_view_remove(state.layout.notes@, state.panel_cursor as int); }
        state.layout.notes.remove(state.panel_cursor);
        if state.panel_cursor > 0 && state.panel_cursor >= state.layout.notes.len() {
            state.panel_cursor -= 1;
        }
        return SidebarKeyResult::SaveLayout;
    }
    SidebarKeyResult::Consumed
}

/// Process a key while a sidebar panel has focus.
pub fn handle_sidebar_key(state: &mut SidebarState, key: KeyEvent) -> (r: SidebarKeyResult)
    requires
        sidebar_wf(old(state)@),
        sidebar_fits(old(state)@),
    ensures
        (final(state)@, r) == spec_sidebar_key(old(state)@, key),
        final(state).automap == old(state).automap,
        sidebar_wf(final(state)@),
{
    if state.options_open {
        return handle_options_key(state, key);
    }
    if state.notes_editing {
        return handle_notes_edit_key(state, key);
    }
    let panel_len = state.active_panel_len();
    let nf = state.focused_panel == Some(PanelKind::Notes);
    match key.code {
        KeyCode::Esc | KeyCode::F(1) => SidebarKeyResult::FocusGame,
        KeyCode::Tab => {
            state.focus_next_panel();
            SidebarKeyResult::Consumed
        },
        KeyCode::Up => {
            if state.panel_cursor > 0 {
                state.panel_cursor -= 1;
            }
            SidebarKeyResult::Consumed
        },
        KeyCode::Down => {
            if panel_len > 0 && state.panel_cursor < panel_len - 1 {
                state.panel_cursor += 1;
            }
            SidebarKeyResult::Consumed
        },
        KeyCode::Enter => {
            if nf {
                edit_selected(state)
            } else {
                SidebarKeyResult::Unhandled
            }
        },
        KeyCode::Delete => {
            if nf {
                delete_selected(state)
            } else {
                SidebarKeyResult::Unhandled
            }
        },
        KeyCode::Char(c) => {
            if c == 'o' {
                state.options_open = true;
                state.options_cursor = 0;
                SidebarKeyResult::Consumed
            } else if (c == 'a' || c == 'n') && nf {
                let idx = state.layout.notes.len();
                let empty = String::new();
                proof { lemma_strings_view_push(state.layout.notes@, empty); }
                state.layout.notes.push(empty);
                state.panel_cursor = idx;
                state.notes_editing = true;
                state.notes_is_new = true;
                state.notes_edit_buf = String::new();
                state.notes_edit_cursor = 0;
                proof { lemma_boundary_index(state.notes_edit_buf@, 0); }
                SidebarKeyResult::Consumed
            } else if c == 'e' && nf {
                edit_selected(state)
            } else if c == 'd' && nf {
                delete_selected(state)
            } else if c == 'K' && nf {
                let i = state.panel_cursor;
                if i > 0 && i < state.layout.notes.len() {
                    let a = state.layout.notes[i - 1].clone();
                    let b = state.layout.notes[i].clone();
                    proof { lemma_strings_view_update(state.layout.notes@, i - 1, b); }
                    state.layout.notes.set(i - 1, b);
                    proof { lemma_strings_view_update(state.layout.notes@, i as int, a); }
                    state.layout.notes.set(i, a);
                    state.panel_cursor -= 1;
                    return SidebarKeyResult::SaveLayout;
                }
                SidebarKeyResult::Consumed
            } else if c == 'J' && nf {
                let i = state.panel_cursor;
                if state.layout.notes.len() > 0 && i < state.layout.notes.len() - 1 {
                    let a = state.layout.notes[i].clone();
                    let b = state.layout.notes[i + 1].clone();
                    proof { lemma_strings_view_update(state.layout.notes@, i as int, b); }
                    state.layout.notes.set(i, b);
                    proof { lemma_strings_view_update(state.layout.notes@, i + 1, a); }
                    state.layout.notes.set(i + 1, a);
                    state.panel_cursor += 1;
                    return SidebarKeyResult::SaveLayout;
                }
                SidebarKeyResult::Consumed
            } else {
                SidebarKeyResult::Unhandled
            }
        },
        _ => SidebarKeyResult::Unhandled,
    }
}


// ---------------------------------------------------------------------------
// Laws
// ---------------------------------------------------------------------------

/// Every panel kept by `active_panels` is of an active kind and on the right.
proof fn lemma_active_panels_shape(s: Seq<PanelConfig>)
    ensures
        forall|i: int| 0 <= i < active_panels(s).len() ==> is_active_kind(#[trigger] active_panels(s)[i].kind)
            && active_panels(s)[i].side == Some(SidebarSide::Right),
    decreases s.len(),
{
    if s.len() > 0 {
        lemma_active_panels_shape(s.drop_last());
    }
}

/// A layout already of active kinds on the right keeps all its panels.
proof fn lemma_active_panels_keeps(s: Seq<PanelConfig>)
    requires
        forall|i: int| 0 <= i < s.len() ==> is_active_kind(#[trigger] s[i].kind) && s[i].side == Some(SidebarSide::Right),
    ensures
        active_panels(s) == s,
    decreases s.len(),
{
    if s.len() > 0 {
        lemma_active_panels_keeps(s.drop_last());
        assert(s.drop_last().push(s.last()) =~= s);
    }
}

/// After migration, the layout shows only automap and notes panels, all on
/// the right side; both are present, and the first automap panel comes
/// before the first notes panel.
pub proof fn law_migrated_layout_shape(s: Seq<PanelConfig>)
    ensures
        ({
            let r = spec_migrate_panels(s);
            &&& forall|i: int| 0 <= i < r.len() ==> is_active_kind(#[trigger] r[i].kind) && r[i].side == Some(SidebarSide::Right)
            &&& panel_kinds(r).contains(PanelKind::Automap)
            &&& panel_kinds(r).contains(PanelKind::Notes)
            &&& first_index(panel_kinds(r), PanelKind::Automap) < first_index(panel_kinds(r), PanelKind::Notes)
        }),
{
    let kept = active_panels(s);
    lemma_active_panels_shape(s);
    let a = if panel_kinds(kept).contains(PanelKind::Automap) {
        kept
    } else {
        seq![automap_panel()] + kept
    };
    assert(panel_kinds(a).contains(PanelKind::Automap)) by {
        if !panel_kinds(kept).contains(PanelKind::Automap) {
            assert(panel_kinds(a)[0] == PanelKind::Automap);
        }
    }
    assert forall|i: int| 0 <= i < a.len() implies is_active_kind(#[trigger] a[i].kind) && a[i].side == Some(SidebarSide::Right) by {
        if !panel_kinds(kept).contains(PanelKind::Automap) && i > 0 {
            assert(a[i] == kept[i - 1]);
        }
    }
    let b = if panel_kinds(a).contains(PanelKind::Notes) {
        a
    } else {
        a.push(notes_panel())
    };
    let ka = choose|j: int| 0 <= j < panel_kinds(a).len() && panel_kinds(a)[j] == PanelKind::Automap;
    assert(panel_kinds(b)[ka] == PanelKind::Automap);
    let kn = if panel_kinds(a).contains(PanelKind::Notes) {
        choose|j: int| 0 <= j < panel_kinds(a).len() && panel_kinds(a)[j] == PanelKind::Notes
    } else {
        a.len() as int
    };
    assert(panel_kinds(b)[kn] == PanelKind::Notes);
    lemma_first_index_exists(panel_kinds(b), PanelKind::Automap, ka);
    lemma_first_index_exists(panel_kinds(b), PanelKind::Notes, kn);
    let ai = first_index(panel_kinds(b), PanelKind::Automap);
    let ni = first_index(panel_kinds(b), PanelKind::Notes);
    assert(b[ai].kind == PanelKind::Automap);
    assert(b[ni].kind == PanelKind::Notes);
    let r = spec_migrate_panels(s);
    if ai > ni {
        assert(r == b.update(ai, b[ni]).update(ni, b[ai]));
        let kr = panel_kinds(r);
        assert(kr[ni] == PanelKind::Automap);
        assert(kr[ai] == PanelKind::Notes);
        assert(is_first_index(kr, PanelKind::Automap, first_index(kr, PanelKind::Automap))) by {
            lemma_first_index_exists(kr, PanelKind::Automap, ni);
        }
        lemma_first_index_exists(kr, PanelKind::Notes, ai);
        let fa = first_index(kr, PanelKind::Automap);
        let fn_ = first_index(kr, PanelKind::Notes);
        assert(fa <= ni);
        if fn_ <= ni {
            if fn_ < ni {
                assert(kr[fn_] == panel_kinds(b)[fn_]);
            }
            assert(false);
        }
    } else {
        assert(r == b);
        if ai == ni {
            assert(false);
        }
    }
}

/// Migration is idempotent: a migrated layout migrates to itself.
pub proof fn law_migrate_idempotent(s: Seq<PanelConfig>)
    ensures
        spec_migrate_panels(spec_migrate_panels(s)) == spec_migrate_panels(s),
{
    let r = spec_migrate_panels(s);
    law_migrated_layout_shape(s);
    lemma_active_panels_keeps(r);
}

/// Toggling the right sidebar twice restores its visibility and leaves the
/// panels and notes as they were.
pub proof fn law_toggle_right_twice(m: SidebarModel)
    ensures
        spec_toggle_right(spec_toggle_right(m)).right_visible == m.right_visible,
        spec_toggle_right(spec_toggle_right(m)).panels == m.panels,
        spec_toggle_right(spec_toggle_right(m)).notes == m.notes,
{
}

/// Moving focus always puts the cursor back on the first row, and with no
/// panel shown it leaves nothing focused.
pub proof fn law_focus_next_resets_cursor(m: SidebarModel)
    ensures
        spec_focus_next(m).panel_cursor == 0,
        visible_kinds(m).len() == 0 ==> spec_focus_next(m).focused_panel is None,
{
}

/// Focus cycling: from no focus the first shown panel gets focus, and from
/// the `i`-th shown panel the next one, wrapping around at the end.
pub proof fn law_focus_next_cycles(m: SidebarModel, i: int)
    requires
        visible_kinds(m).len() > 0,
        visible_kinds(m).no_duplicates(),
        0 <= i < visible_kinds(m).len(),
    ensures
        spec_focus_next(SidebarModel { focused_panel: None, ..m }).focused_panel == Some(visible_kinds(m)[0]),
        spec_focus_next(SidebarModel { focused_panel: Some(visible_kinds(m)[i]), ..m }).focused_panel
            == Some(visible_kinds(m)[(i + 1) % (visible_kinds(m).len() as int)]),
{
    let vis = visible_kinds(m);
    assert(is_first_index(vis, vis[i], i));
    lemma_first_index_unique(vis, vis[i], i);
    assert(vis.contains(vis[i]));
    let m1 = SidebarModel { focused_panel: Some(vis[i]), ..m };
    assert(visible_kinds(m1) == vis);
}

/// Typing a character in the notes editor and then deleting it with
/// Backspace restores the text and the cursor.
pub proof fn law_insert_then_backspace(m: SidebarModel, c: char)
    requires
        m.notes_editing,
        sidebar_wf(m),
        sidebar_fits(m),
    ensures
        ({
            let m1 = spec_notes_edit_key(m, KeyCode::Char(c)).0;
            let m2 = spec_notes_edit_key(m1, KeyCode::Backspace).0;
            m2.edit_buf == m.edit_buf && m2.edit_cursor == m.edit_cursor
        }),
{
    let s = m.edit_buf;
    let b = m.edit_cursor as int;
    let k = boundary_index(s, b);
    assert(0 <= k <= s.len() && byte_len(s.take(k)) == b);
    if k < s.len() {
        lemma_byte_len_prefix_mono(s, k, s.len() as int);
    }
    assert(s.take(s.len() as int) =~= s);
    let t = s.insert(k, c);
    assert(t.take(k + 1).drop_last() =~= s.take(k));
    assert(t.take(k + 1).last() == c);
    assert(byte_len(t.take(k + 1)) == b + utf8_width(c));
    lemma_boundary_index(t, k + 1);
    let m1 = spec_notes_edit_key(m, KeyCode::Char(c)).0;
    assert(m1.edit_buf == t);
    assert(m1.edit_cursor as int == b + utf8_width(c));
    assert(boundary_index(t, m1.edit_cursor as int) == k + 1);
    assert(t.remove(k) =~= s);
    assert(t.take(k) =~= s.take(k));
}

/// In the notes editor, Left then Right returns the cursor to where it was
/// (when it was not at the start).
pub proof fn law_left_then_right(m: SidebarModel)
    requires
        m.notes_editing,
        sidebar_wf(m),
        sidebar_fits(m),
        m.edit_cursor > 0,
    ensures
        ({
            let m1 = spec_notes_edit_key(m, KeyCode::Left).0;
            spec_notes_edit_key(m1, KeyCode::Right).0.edit_cursor == m.edit_cursor
        }),
{
    let s = m.edit_buf;
    let k = boundary_index(s, m.edit_cursor as int);
    if k == 0 {
        assert(s.take(0) =~= Seq::<char>::empty());
        assert(false);
    }
    lemma_boundary_index(s, k - 1);
    lemma_byte_len_prefix_mono(s, k - 1, k);
    if k < s.len() {
        lemma_byte_len_prefix_mono(s, k, s.len() as int);
    }
    assert(s.take(s.len() as int) =~= s);
}

/// In the options overlay, → then ← on a panel row restores that panel's
/// visibility (for a panel hidden or on the right side).
pub proof fn law_options_toggle_twice(m: SidebarModel)
    requires
        m.options_open,
        (m.options_cursor as int) < m.panels.len(),
        m.panels[m.options_cursor as int].side != Some(SidebarSide::Left),
    ensures
        spec_options_key(spec_options_key(m, KeyCode::Right).0, KeyCode::Left).0.panels == m.panels,
{
    let i = m.options_cursor as int;
    let p = m.panels[i];
    let q = PanelConfig { side: toggled_side(p.side), ..p };
    let m1 = spec_options_key(m, KeyCode::Right).0;
    assert(m1.panels == m.panels.update(i, q));
    assert(m1.options_cursor == m.options_cursor);
    assert(m1.panels[i] == q);
    assert(toggled_side(q.side) == p.side) by {
        match p.side {
            None => {},
            Some(x) => {
                assert(x == SidebarSide::Right);
            },
        }
    }
    assert(PanelConfig { side: toggled_side(q.side), ..q } == p);
    assert(m.panels.update(i, q).update(i, p) =~= m.panels);
}

} // verus!
