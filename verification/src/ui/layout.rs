//! Screen geometry of the game and selection screens: how the terminal is
//! divided, which scrollback lines are visible, and how tall each sidebar
//! panel is.
use vstd::prelude::*;

use crate::config::{PanelConfig, PanelKind, SidebarSide};
use crate::text::{byte_len, chars_of, slice_vec, string_of};
use crate::ui::sidebar::{boundary_index, char_index_of_byte, is_boundary};

verus! {

/// Narrowest game column the right sidebar leaves.
pub const MIN_GAME_WIDTH: u16 = 20;

/// Width of the right sidebar: its configured width, leaving at least
/// `MIN_GAME_WIDTH` columns to the game (0 when it is not shown).
pub fn right_column_width(show: bool, configured: u16, content_width: u16) -> (w: u16)
    ensures
        w as int == if !show {
            0
        } else {
            let room = if content_width >= MIN_GAME_WIDTH { content_width - MIN_GAME_WIDTH } else { 0 };
            if configured < room { configured as int } else { room as int }
        },
{
    if !show {
        return 0;
    }
    let room = content_width.saturating_sub(MIN_GAME_WIDTH);
    if configured < room { configured } else { room }
}

/// Which scrollback lines the output area shows.
#[derive(Debug, Clone, Copy, PartialEq, Eq, Structural)]
pub struct OutputWindow {
    /// Lines scrolled up from the bottom, at most to the first line.
    pub scroll: usize,
    /// Whether the pending prompt is shown below the lines.
    pub show_prompt: bool,
    /// First visible line.
    pub start: usize,
    /// One past the last visible line.
    pub end: usize,
}

/// `a - b`, or 0 when `b > a`.
pub open spec fn sat_sub(a: int, b: int) -> int {
    if a >= b { a - b } else { 0 }
}

/// The visible window of a scrollback of `len` lines in an area `rows`
/// tall: the scroll offset is clamped to the first line; the prompt is
/// shown only in the live view outside copy mode and then takes a row; the
/// window ends `scroll` lines above the bottom.
pub open spec fn spec_output_window(len: usize, scroll_offset: usize, rows: usize, has_prompt: bool, copy_mode: bool) -> OutputWindow {
    let max = sat_sub(len as int, 1);
    let scroll = if (scroll_offset as int) < max { scroll_offset as int } else { max };
    let show = has_prompt && scroll == 0 && !copy_mode;
    let avail = sat_sub(rows as int, if show { 1 } else { 0 });
    let end = sat_sub(len as int, scroll);
    let start = sat_sub(end, avail);
    OutputWindow { scroll: scroll as usize, show_prompt: show, start: start as usize, end: end as usize }
}

/// The visible window of the scrollback (see `spec_output_window`).
pub fn output_window(len: usize, scroll_offset: usize, rows: usize, has_prompt: bool, copy_mode: bool) -> (w: OutputWindow)
    ensures
        w == spec_output_window(len, scroll_offset, rows, has_prompt, copy_mode),
        w.start <= w.end <= len,
{
    let max = len.saturating_sub(1);
    let scroll = if scroll_offset < max { scroll_offset } else { max };
    let show = has_prompt && scroll == 0 && !copy_mode;
    let avail = rows.saturating_sub(if show { 1 } else { 0 });
    let end = len.saturating_sub(scroll);
    let start = end.saturating_sub(avail);
    OutputWindow { scroll, show_prompt: show, start, end }
}

/// How a latency reading is coloured in the status bar.
#[derive(Debug, Clone, Copy, PartialEq, Eq, Structural)]
pub enum LatencyLevel {
    /// Up to 120 ms.
    Good,
    /// Up to 250 ms.
    Slow,
    /// Above 250 ms.
    Bad,
    /// No reading yet.
    Unknown,
}

/// The colour class of a latency reading.
pub fn latency_level(ms: Option<u64>) -> (l: LatencyLevel)
    ensures
        l == match ms {
            None => LatencyLevel::Unknown,
            Some(v) => if v <= 120 {
                LatencyLevel::Good
            } else if v <= 250 {
                LatencyLevel::Slow
            } else {
                LatencyLevel::Bad
            },
        },
{
    match ms {
        None => LatencyLevel::Unknown,
        Some(v) => if v <= 120 {
            LatencyLevel::Good
        } else if v <= 250 {
            LatencyLevel::Slow
        } else {
            LatencyLevel::Bad
        },
    }
}

/// A `width` × `height` box centred in the area at (`ax`, `ay`) of size
/// `aw` × `ah`, clipped to the area: `(x, y, width, height)`.
pub fn centered_rect(width: u16, height: u16, ax: u16, ay: u16, aw: u16, ah: u16) -> (r: (u16, u16, u16, u16))
    requires
        ax + aw <= u16::MAX,
        ay + ah <= u16::MAX,
    ensures
        r.0 == ax + sat_sub(aw as int, width as int) / 2,
        r.1 == ay + sat_sub(ah as int, height as int) / 2,
        r.2 == if width < aw { width } else { aw },
        r.3 == if height < ah { height } else { ah },
{
    let x = ax + aw.saturating_sub(width) / 2;
    let y = ay + ah.saturating_sub(height) / 2;
    (x, y, if width < aw { width } else { aw }, if height < ah { height } else { ah })
}

/// The box of the sidebar options overlay in an area of `aw` × `ah` at
/// (`ax`, `ay`): one row per panel plus five, at most the area's height;
/// between 28 and 46 columns wide, and no wider than the area unless that
/// is under 28; centred.
pub fn options_rect(n_panels: usize, ax: u16, ay: u16, aw: u16, ah: u16) -> (r: (u16, u16, u16, u16))
    requires
        n_panels + 5 <= u16::MAX,
        ax + aw <= u16::MAX,
        ay + ah <= u16::MAX,
    ensures
        r.3 == if n_panels + 5 < ah { n_panels + 5 } else { ah as int },
        r.2 == if aw > 46 { 46 } else if aw < 28 { 28 } else { aw },
        r.0 == ax + sat_sub(aw as int, r.2 as int) / 2,
        r.1 == ay + sat_sub(ah as int, r.3 as int) / 2,
{
    let want_h = n_panels as u16 + 5;
    let h = if want_h < ah { want_h } else { ah };
    let w = if aw > 46 { 46 } else if aw < 28 { 28 } else { aw };
    let x = ax + aw.saturating_sub(w) / 2;
    let y = ay + ah.saturating_sub(h) / 2;
    (x, y, w, h)
}

/// The height shares of the panels on `side`, in order.
pub open spec fn side_pcts(panels: Seq<PanelConfig>, side: SidebarSide) -> Seq<PanelConfig> {
    panels.filter(|p: PanelConfig| p.side == Some(side))
}

/// Sum of the height shares.
pub open spec fn pct_sum(ps: Seq<PanelConfig>) -> int
    decreases ps.len(),
{
    if ps.len() == 0 { 0 } else { pct_sum(ps.drop_last()) + ps.last().height_pct }
}

/// The panels of a column from the `i`-th on, placed from row `y` of a
/// column `avail` rows tall: each takes `avail * share / total` rows, the
/// last one what is left; a panel of no rows is skipped, and placing stops
/// at the first that would not fit.  Each entry is kind, first row and
/// height.
pub open spec fn stack_from(ps: Seq<PanelConfig>, avail: int, total: int, i: int, y: int) -> Seq<(PanelKind, u16, u16)>
    decreases ps.len() - i,
{
    if i >= ps.len() || i < 0 {
        seq![]
    } else {
        let h = if i == ps.len() - 1 { sat_sub(avail, y) } else { avail * ps[i].height_pct / total };
        if h == 0 {
            stack_from(ps, avail, total, i + 1, y)
        } else if y + h > avail {
            seq![]
        } else {
            seq![(ps[i].kind, y as u16, h as u16)] + stack_from(ps, avail, total, i + 1, y + h)
        }
    }
}

/// The panels of the `side` column of a sidebar `avail` rows tall, with
/// their first row and height (nothing when the column has no panel or is
/// under two rows).
pub open spec fn spec_column_layout(panels: Seq<PanelConfig>, side: SidebarSide, avail: u16) -> Seq<(PanelKind, u16, u16)> {
    let ps = side_pcts(panels, side);
    if ps.len() == 0 || avail < 2 {
        seq![]
    } else {
        let s = pct_sum(ps);
        stack_from(ps, avail as int, if s > 0 { s } else { 1 }, 0, 0)
    }
}

proof fn lemma_pct_sum_bounds(ps: Seq<PanelConfig>)
    ensures
        0 <= pct_sum(ps) <= 255 * ps.len(),
        forall|i: int| 0 <= i < ps.len() ==> (#[trigger] ps[i]).height_pct <= pct_sum(ps),
    decreases ps.len(),
{
    if ps.len() > 0 {
        lemma_pct_sum_bounds(ps.drop_last());
        assert forall|i: int| 0 <= i < ps.len() implies (#[trigger] ps[i]).height_pct <= pct_sum(ps) by {
            if i < ps.len() - 1 {
                assert(ps.drop_last()[i] == ps[i]);
            }
        }
    }
}

/// The panels of one sidebar column with their first row and height (see
/// `spec_column_layout`); rows count from the column's top.
pub fn column_layout(panels: &Vec<PanelConfig>, side: SidebarSide, avail: u16) -> (r: Vec<(PanelKind, u16, u16)>)
    requires
        panels@.len() <= u32::MAX,
    ensures
        r@ == spec_column_layout(panels@, side, avail),
{
    let mut ps: Vec<PanelConfig> = Vec::new();
    let mut i: usize = 0;
    while i < panels.len()
        invariant
            i <= panels@.len(),
            ps@ == side_pcts(panels@.take(i as int), side),
        decreases panels.len() - i,
    {
        reveal_with_fuel(Seq::filter, 1);
        assert(panels@.take(i + 1).drop_last() =~= panels@.take(i as int));
        if panels[i].side == Some(side) {
            ps.push(panels[i]);
        }
        i += 1;
    }
    assert(panels@.take(panels@.len() as int) =~= panels@);
    let mut out: Vec<(PanelKind, u16, u16)> = Vec::new();
    if ps.len() == 0 || avail < 2 {
        assert(out@ =~= Seq::<(PanelKind, u16, u16)>::empty());
        return out;
    }
    proof {
        ps@.filter_lemma(|p: PanelConfig| p.side == Some(side));
        lemma_pct_sum_bounds(ps@);
    }
    let mut sum: u64 = 0;
    let mut j: usize = 0;
    while j < ps.len()
        invariant
            j <= ps@.len(),
            ps@.len() <= u32::MAX,
            sum == pct_sum(ps@.take(j as int)),
            sum <= 255 * j,
        decreases ps.len() - j,
    {
        assert(ps@.take(j + 1).drop_last() =~= ps@.take(j as int));
        sum = sum + ps[j].height_pct as u64;
        j += 1;
    }
    assert(ps@.take(ps@.len() as int) =~= ps@);
    let total: u64 = if sum > 0 { sum } else { 1 };
    let ghost t = total as int;
    let n = ps.len();
    let mut y: u16 = 0;
    let mut k: usize = 0;
    let mut stop = false;
    while k < n && !stop
        invariant
            stop ==> stack_from(ps@, avail as int, t, k as int, y as int) == Seq::<(PanelKind, u16, u16)>::empty(),
            n == ps@.len(),
            k <= n,
            y <= avail,
            t == total,
            total >= 1,
            forall|m: int| 0 <= m < n ==> (#[trigger] ps@[m]).height_pct <= total,
            out@ + stack_from(ps@, avail as int, t, k as int, y as int) == spec_column_layout(panels@, side, avail),
        decreases n - k + if stop { 0int } else { 1int },
    {
        let h: u16 = if k == n - 1 {
            avail - y
        } else {
            assert((avail as int) * (ps@[k as int].height_pct as int) <= 65535 * 255) by (nonlinear_arith)
                requires avail <= 65535, ps@[k as int].height_pct <= 255;
            let q = (avail as u64) * (ps[k].height_pct as u64) / total;
            proof {
                assert((avail as int) * (ps@[k as int].height_pct as int) <= (avail as int) * (total as int)) by (nonlinear_arith)
                    requires ps@[k as int].height_pct <= total;
                assert((avail as int) * (ps@[k as int].height_pct as int) / (total as int) <= avail as int) by (nonlinear_arith)
                    requires
                        (avail as int) * (ps@[k as int].height_pct as int) <= (avail as int) * (total as int),
                        total >= 1,
                        avail >= 0;
            }
            q as u16
        };
        if h == 0 {
            k += 1;
        } else if (y as u32) + (h as u32) > (avail as u32) {
            stop = true;
        } else {
            let ghost before = out@;
            out.push((ps[k].kind, y, h));
            assert(before + stack_from(ps@, avail as int, t, k as int, y as int)
                =~= out@ + stack_from(ps@, avail as int, t, k + 1, y + h));
            y = y + h;
            k += 1;
        }
    }
    assert(stack_from(ps@, avail as int, t, k as int, y as int) =~= Seq::<(PanelKind, u16, u16)>::empty());
    assert(out@ + stack_from(ps@, avail as int, t, k as int, y as int) =~= out@);
    out
}

/// An edited line split at the cursor for drawing: the text before the
/// cursor, the character under it (a space at the end of the line), and the
/// text after it.
pub open spec fn spec_cursor_parts(s: Seq<char>, b: int) -> (Seq<char>, Seq<char>, Seq<char>) {
    let k = boundary_index(s, b);
    if k < s.len() {
        (s.take(k), seq![s[k]], s.skip(k + 1))
    } else {
        (s, seq![' '], seq![])
    }
}

/// Splits `text` at the byte offset `cursor` (see `spec_cursor_parts`).
pub fn cursor_parts(text: &str, cursor: usize) -> (r: (String, String, String))
    requires
        is_boundary(text@, cursor as int),
        byte_len(text@) <= usize::MAX,
    ensures
        (r.0@, r.1@, r.2@) == spec_cursor_parts(text@, cursor as int),
{
    let v = chars_of(text);
    let k = char_index_of_byte(&v, cursor);
    if k < v.len() {
        let before = slice_vec(&v, 0, k);
        let mut at: Vec<char> = Vec::new();
        at.push(v[k]);
        let after = slice_vec(&v, k + 1, v.len());
        assert(before@ =~= text@.take(k as int));
        assert(at@ =~= seq![text@[k as int]]);
        assert(after@ =~= text@.skip(k + 1));
        (string_of(&before), string_of(&at), string_of(&after))
    } else {
        let mut at: Vec<char> = Vec::new();
        at.push(' ');
        let none: Vec<char> = Vec::new();
        assert(at@ =~= seq![' ']);
        assert(none@ =~= Seq::<char>::empty());
        (string_of(&v), string_of(&at), string_of(&none))
    }
}

/// `s` followed by spaces up to `n` characters.
pub open spec fn pad_end(s: Seq<char>, n: int) -> Seq<char> {
    if s.len() < n { s + Seq::new((n - s.len()) as nat, |i: int| ' ') } else { s }
}

/// `s` preceded by spaces up to `n` characters.
pub open spec fn pad_start(s: Seq<char>, n: int) -> Seq<char> {
    if s.len() < n { Seq::new((n - s.len()) as nat, |i: int| ' ') + s } else { s }
}

fn spaces(n: usize) -> (r: Vec<char>)
    ensures
        r@ == Seq::new(n as nat, |i: int| ' '),
{
    let mut r: Vec<char> = Vec::new();
    let mut i: usize = 0;
    while i < n
        invariant
            i <= n,
            r@ == Seq::new(i as nat, |j: int| ' '),
        decreases n - i,
    {
        r.push(' ');
        assert(r@ =~= Seq::new((i + 1) as nat, |j: int| ' '));
        i += 1;
    }
    r
}

pub(crate) fn padded_end(v: &Vec<char>, n: usize) -> (r: Vec<char>)
    ensures
        r@ == pad_end(v@, n as int),
{
    if v.len() < n {
        crate::text::concat_vec(v, &spaces(n - v.len()))
    } else {
        v.clone()
    }
}

fn padded_start(v: &Vec<char>, n: usize) -> (r: Vec<char>)
    ensures
        r@ == pad_start(v@, n as int),
{
    if v.len() < n {
        crate::text::concat_vec(&spaces(n - v.len()), v)
    } else {
        v.clone()
    }
}

/// The texts of a panel's row in the sidebar options overlay: its short
/// name padded to eight columns and a space, its side in brackets, its
/// height share right-aligned with `%` (blank when hidden), and the key
/// hint on the selected row.
pub open spec fn spec_options_row(kind_label: Seq<char>, side: Option<SidebarSide>, pct: u8, selected: bool) -> Seq<Seq<char>> {
    seq![
        pad_end(kind_label, 8) + " "@,
        "["@ + (match side {
            None => " -- "@,
            Some(SidebarSide::Left) => "Left"@,
            Some(SidebarSide::Right) => " Rt "@,
        }) + "]"@,
        " "@ + (if side is Some { pad_start(crate::text::dec_digits(pct as nat), 3) + "%"@ } else { "    "@ }),
        if selected { "  \u{2190}\u{2192}:vis  +/-:h%"@ } else { ""@ },
    ]
}

/// The texts of a panel's row in the options overlay (see
/// `spec_options_row`).
pub fn options_row(pc: &PanelConfig, selected: bool) -> (r: Vec<String>)
    ensures
        r@.map_values(|x: String| x@) == spec_options_row(crate::config::spec_short_label(pc.kind), pc.side, pc.height_pct, selected),
{
    let label = chars_of(pc.kind.short_label());
    let first = crate::text::concat_vec(&padded_end(&label, 8), &chars_of(" "));
    let side_text = match pc.side {
        None => " -- ",
        Some(SidebarSide::Left) => "Left",
        Some(SidebarSide::Right) => " Rt ",
    };
    let second = crate::text::concat_vec(&crate::text::concat_vec(&chars_of("["), &chars_of(side_text)), &chars_of("]"));
    let h = if pc.side.is_some() {
        let num = padded_start(&crate::text::u64_text(pc.height_pct as u64), 3);
        crate::text::concat_vec(&num, &chars_of("%"))
    } else {
        chars_of("    ")
    };
    let third = crate::text::concat_vec(&chars_of(" "), &h);
    let fourth = chars_of(if selected { "  \u{2190}\u{2192}:vis  +/-:h%" } else { "" });
    let mut out: Vec<String> = Vec::new();
    out.push(string_of(&first));
    out.push(string_of(&second));
    out.push(string_of(&third));
    out.push(string_of(&fourth));
    assert(out@.map_values(|x: String| x@) =~= spec_options_row(crate::config::spec_short_label(pc.kind), pc.side, pc.height_pct, selected));
    out
}

/// The texts of the width row of the options overlay: label, the width
/// right-aligned in three columns, and the key hint when selected.
pub fn options_width_row(width: u16, selected: bool) -> (r: Vec<String>)
    ensures
        r@.map_values(|x: String| x@) == seq![
            "Width   "@,
            pad_start(crate::text::dec_digits(width as nat), 3),
            if selected { "  \u{2190}\u{2192} adjust"@ } else { ""@ },
        ],
{
    let mut out: Vec<String> = Vec::new();
    out.push(string_of(&chars_of("Width   ")));
    out.push(string_of(&padded_start(&crate::text::u64_text(width as u64), 3)));
    out.push(string_of(&chars_of(if selected { "  \u{2190}\u{2192} adjust" } else { "" })));
    assert(out@.map_values(|x: String| x@) =~= seq![
        "Width   "@,
        pad_start(crate::text::dec_digits(width as nat), 3),
        if selected { "  \u{2190}\u{2192} adjust"@ } else { ""@ },
    ]);
    out
}

/// The scroll notice in the output area's bottom border: empty in the live
/// view, else how far up of how many lines.
pub fn scroll_hint(scroll: usize, len: usize) -> (r: String)
    ensures
        r@ == if scroll == 0 {
            Seq::<char>::empty()
        } else {
            " \u{2191}"@ + crate::text::dec_digits(scroll as nat) + "/"@ + crate::text::dec_digits(len as nat)
                + " lines \u{2014} PgDn / Ctrl+End to return "@
        },
{
    if scroll == 0 {
        let v: Vec<char> = Vec::new();
        return string_of(&v);
    }
    let a = crate::text::concat_vec(&chars_of(" \u{2191}"), &crate::text::u64_text(scroll as u64));
    let b = crate::text::concat_vec(&a, &chars_of("/"));
    let c = crate::text::concat_vec(&b, &crate::text::u64_text(len as u64));
    let d = crate::text::concat_vec(&c, &chars_of(" lines \u{2014} PgDn / Ctrl+End to return "));
    string_of(&d)
}

/// The latency badge of the status bar: ` <ms>ms `.
pub fn latency_badge(ms: u64) -> (r: String)
    ensures
        r@ == " "@ + crate::text::dec_digits(ms as nat) + "ms "@,
{
    let a = crate::text::concat_vec(&chars_of(" "), &crate::text::u64_text(ms));
    string_of(&crate::text::concat_vec(&a, &chars_of("ms ")))
}

/// The session text of the status bar: ` <server>  /  <character>`.
pub fn session_text(server: &str, character: &str) -> (r: String)
    ensures
        r@ == " "@ + server@ + "  /  "@ + character@,
{
    let a = crate::text::concat_vec(&chars_of(" "), &chars_of(server));
    let b = crate::text::concat_vec(&a, &chars_of("  /  "));
    string_of(&crate::text::concat_vec(&b, &chars_of(character)))
}

proof fn lemma_stack_from(ps: Seq<PanelConfig>, avail: int, total: int, i: int, y: int)
    requires
        0 <= y <= avail <= u16::MAX,
        total > 0,
    ensures
        ({
            let r = stack_from(ps, avail, total, i, y);
            &&& forall|k: int| 0 <= k < r.len() ==> y <= (#[trigger] r[k]).1 && r[k].2 > 0 && r[k].1 + r[k].2 <= avail
            &&& forall|k: int| 0 < k < r.len() ==> (#[trigger] r[k]).1 == r[k - 1].1 + r[k - 1].2
            &&& r.len() > 0 ==> r[0].1 == y
        }),
    decreases ps.len() - i,
{
    if i >= ps.len() || i < 0 {
    } else {
        let h = if i == ps.len() - 1 { sat_sub(avail, y) } else { avail * ps[i].height_pct / total };
        assert(h >= 0) by (nonlinear_arith)
            requires
                h == (if i == ps.len() - 1 { sat_sub(avail, y) } else { avail * ps[i].height_pct / total }),
                avail >= 0,
                total > 0,
                ps[i].height_pct >= 0;
        if h == 0 {
            lemma_stack_from(ps, avail, total, i + 1, y);
        } else if y + h > avail {
        } else {
            lemma_stack_from(ps, avail, total, i + 1, y + h);
            let rest = stack_from(ps, avail, total, i + 1, y + h);
            let r = stack_from(ps, avail, total, i, y);
            assert(r == seq![(ps[i].kind, y as u16, h as u16)] + rest);
            assert forall|k: int| 0 < k < r.len() implies (#[trigger] r[k]).1 == r[k - 1].1 + r[k - 1].2 by {
                assert(r[k] == rest[k - 1]);
                if k > 1 {
                    assert(r[k - 1] == rest[k - 2]);
                } else {
                    assert(rest[0].1 == y + h);
                }
            }
            assert forall|k: int| 0 <= k < r.len() implies y <= (#[trigger] r[k]).1 && r[k].2 > 0 && r[k].1 + r[k].2 <= avail by {
                if k > 0 {
                    assert(r[k] == rest[k - 1]);
                }
            }
        }
    }
}

/// The panels of a sidebar column are stacked from its top without gaps or
/// overlap, each at least one row tall, and all within the column.
pub proof fn law_column_stacks(panels: Seq<PanelConfig>, side: SidebarSide, avail: u16)
    ensures
        ({
            let r = spec_column_layout(panels, side, avail);
            &&& r.len() > 0 ==> r[0].1 == 0
            &&& forall|k: int| 0 <= k < r.len() ==> (#[trigger] r[k]).2 > 0 && r[k].1 + r[k].2 <= avail
            &&& forall|k: int| 0 < k < r.len() ==> (#[trigger] r[k]).1 == r[k - 1].1 + r[k - 1].2
        }),
{
    let ps = side_pcts(panels, side);
    if ps.len() > 0 && avail >= 2 {
        let s = pct_sum(ps);
        lemma_stack_from(ps, avail as int, if s > 0 { s } else { 1 }, 0, 0);
    }
}

} // verus!
