//! The game view: scrollback, input line with history, aliases, triggers,
//! meta-commands (`/alias`, `/trigger`, `/map`, ...), copy mode and the
//! fullscreen map.

use std::collections::VecDeque;

use vstd::prelude::*;

use crate::config::{Alias, Trigger};
use crate::matching::{regex_is_match, regex_is_valid, regex_matches, regex_valid};
use crate::text::{byte_len, char_utf8_len, chars_of, concat_vec, is_whitespace, string_of, utf8_width, words};
use crate::ui::sidebar::SidebarState;
use crate::ui::style::{
    ansi_to_line, line_view, parse_color_name, plain_style, spec_ansi_to_line, spec_color_name,
    Color, StyledLine, StyledSpan, TextStyle, Toggle,
};

verus! {

/// Maximum number of lines kept in the scrollback buffer.
pub const SCROLLBACK_MAX: usize = 5_000;
/// Number of latency samples in the rolling average.
pub const LATENCY_AVG_SAMPLES: usize = 8;

/// What the main loop is asked to do after a key or a command.
#[derive(Debug)]
pub enum GameAction {
    /// Send a line to the server.
    SendLine(String),
    /// Disconnect and return to the selection screen.
    Disconnect,
    /// Quit the application.
    Quit,
    /// Copy text to the system clipboard.
    CopyToClipboard(String),
    /// Persist a new (or updated) alias for the connected character.
    AddAlias { name: String, expansion: String },
    /// Delete an alias by name.
    RemoveAlias(String),
    /// Persist a new trigger for the connected character.
    AddTrigger { pattern: String, color: Option<String>, send: Option<String> },
    /// Delete a trigger whose id starts with the given prefix.
    RemoveTrigger(String),
    /// The sidebar layout changed and should be persisted.
    SaveSidebarLayout,
}

/// A game action, as plain values.
pub enum ActionView {
    SendLine(Seq<char>),
    Disconnect,
    Quit,
    CopyToClipboard(Seq<char>),
    AddAlias(Seq<char>, Seq<char>),
    RemoveAlias(Seq<char>),
    AddTrigger(Seq<char>, Option<Seq<char>>, Option<Seq<char>>),
    RemoveTrigger(Seq<char>),
    SaveSidebarLayout,
}

/// The text of an optional string.
pub open spec fn opt_text(o: Option<String>) -> Option<Seq<char>> {
    match o {
        Some(s) => Some(s@),
        None => None,
    }
}

impl View for GameAction {
    type V = ActionView;

    open spec fn view(&self) -> ActionView {
        match self {
            GameAction::SendLine(s) => ActionView::SendLine(s@),
            GameAction::Disconnect => ActionView::Disconnect,
            GameAction::Quit => ActionView::Quit,
            GameAction::CopyToClipboard(s) => ActionView::CopyToClipboard(s@),
            GameAction::AddAlias { name, expansion } => ActionView::AddAlias(name@, expansion@),
            GameAction::RemoveAlias(s) => ActionView::RemoveAlias(s@),
            GameAction::AddTrigger { pattern, color, send } => ActionView::AddTrigger(
                pattern@,
                opt_text(*color),
                opt_text(*send),
            ),
            GameAction::RemoveTrigger(s) => ActionView::RemoveTrigger(s@),
            GameAction::SaveSidebarLayout => ActionView::SaveSidebarLayout,
        }
    }
}

/// The view of an optional action.
pub open spec fn action_view(a: Option<GameAction>) -> Option<ActionView> {
    match a {
        Some(x) => Some(x@),
        None => None,
    }
}

/// A trigger installed for the session: its pattern compiled, its colour
/// name resolved.
#[derive(Debug, Clone)]
pub struct ActiveTrigger {
    pub id: String,
    pub pattern: String,
    pub color: Option<Color>,
    pub send: Option<String>,
}

/// The state of the game screen.
pub struct GameState {
    /// Styled scrollback lines, oldest first.
    pub lines: VecDeque<StyledLine>,
    /// Lines scrolled up from the bottom (0 = live view).
    pub scroll_offset: usize,
    /// The input line.
    pub input: String,
    /// Byte offset of the cursor within `input`.
    pub input_cursor: usize,
    /// Sent-command history, oldest first.
    pub history: Vec<String>,
    /// Index into `history` while browsing it.
    pub history_idx: Option<usize>,
    /// The input as it was before history browsing started.
    pub history_snapshot: String,
    /// Latest latency reading in milliseconds.
    pub latency: Option<u64>,
    /// Recent latency samples for the rolling average.
    pub latency_samples: VecDeque<u64>,
    /// Whether the connection is alive.
    pub connected: bool,
    /// Partial prompt line received without a trailing newline.
    pub prompt: Option<StyledLine>,
    /// Height of the output area at the last draw (used for page scrolling).
    pub last_output_height: usize,
    /// Aliases of the character.
    pub aliases: Vec<Alias>,
    /// Triggers of the session.
    pub triggers: Vec<ActiveTrigger>,
    /// Lines queued for sending by triggers; drained by the main loop.
    pub auto_send_queue: Vec<String>,
    /// Whether copy mode is active.
    pub copy_mode: bool,
    /// Whether the fullscreen map is shown.
    pub map_fullscreen: bool,
    /// Pan offset of the fullscreen map.
    pub map_pan: (i32, i32, i32),
    /// Sidebar panels.
    pub sidebar: SidebarState,
}

/// A styled line as plain values.
pub type LineV = Seq<(Seq<char>, TextStyle)>;

/// The scrollback as plain values.
pub open spec fn lines_view(v: Seq<StyledLine>) -> Seq<LineV> {
    v.map_values(|l: StyledLine| line_view(l))
}

/// The texts of a sequence of strings.
pub open spec fn texts(v: Seq<String>) -> Seq<Seq<char>> {
    v.map_values(|s: String| s@)
}

/// The last `max` items of `s` (all of them when there are fewer).
pub open spec fn keep_last<A>(s: Seq<A>, max: int) -> Seq<A> {
    if s.len() > max {
        s.skip(s.len() - max)
    } else {
        s
    }
}

/// The scrollback after appending a line.
pub open spec fn scroll_push(lines: Seq<LineV>, l: LineV) -> Seq<LineV> {
    keep_last(lines.push(l), SCROLLBACK_MAX as int)
}

/// A cyan style.
pub open spec fn cyan() -> TextStyle {
    TextStyle { fg: Some(Color::Cyan), ..plain_style() }
}

/// The line shown for a client message: `» message`, in cyan.
pub open spec fn system_line(msg: Seq<char>) -> LineV {
    seq![("\u{00bb} "@, cyan()), (msg, cyan())]
}

/// The echo of a sent command: a bold green `▶ ` and the command.
pub open spec fn echo_line(cmd: Seq<char>) -> LineV {
    seq![("\u{25b6} "@, TextStyle { fg: Some(Color::Green), bold: Toggle::On, ..plain_style() }), (cmd, plain_style())]
}

/// Whether a trigger fires on a line: its pattern compiles and matches.
pub open spec fn trigger_fires(t: ActiveTrigger, s: Seq<char>) -> bool {
    regex_valid(t.pattern@) && regex_matches(t.pattern@, s)
}

/// A line with every span's foreground set to `c`.
pub open spec fn recolor(l: LineV, c: Color) -> LineV {
    l.map_values(|sp: (Seq<char>, TextStyle)| (sp.0, TextStyle { fg: Some(c), ..sp.1 }))
}

/// The triggers applied in order to a line `s` shown as `line`: each one
/// that fires recolours the line when it has a colour and queues its
/// command when it has a non-empty one.
pub open spec fn apply_triggers(
    ts: Seq<ActiveTrigger>,
    s: Seq<char>,
    line: LineV,
    queue: Seq<Seq<char>>,
) -> (LineV, Seq<Seq<char>>)
    decreases ts.len(),
{
    if ts.len() == 0 {
        (line, queue)
    } else {
        let (l1, q1) = apply_triggers(ts.drop_last(), s, line, queue);
        let t = ts.last();
        if trigger_fires(t, s) {
            let l2 = match t.color {
                Some(c) => recolor(l1, c),
                None => l1,
            };
            let q2 = match t.send {
                Some(cmd) => if cmd@.len() > 0 {
                    q1.push(cmd@)
                } else {
                    q1
                },
                None => q1,
            };
            (l2, q2)
        } else {
            (l1, q1)
        }
    }
}

/// Index of the first alias named `name`.
pub open spec fn first_alias(aliases: Seq<Alias>, name: Seq<char>) -> Option<int>
    decreases aliases.len(),
{
    if aliases.len() == 0 {
        None
    } else if aliases[0].name@ == name {
        Some(0)
    } else {
        match first_alias(aliases.drop_first(), name) {
            Some(i) => Some(i + 1),
            None => None,
        }
    }
}

/// The first character index of `s` at or after byte offset `b` (counting
/// from `k`).
pub open spec fn cover_from(s: Seq<char>, b: int, k: int) -> int
    decreases s.len() - k,
{
    if k < 0 || k >= s.len() || byte_len(s.take(k)) >= b {
        k
    } else {
        cover_from(s, b, k + 1)
    }
}

/// The first word of `s`, or nothing.
pub open spec fn first_word(s: Seq<char>) -> Seq<char> {
    if words(s).len() > 0 {
        words(s)[0]
    } else {
        seq![]
    }
}

/// Alias expansion of an input line: an alias named like the whole line
/// gives its expansion; else an alias named like the first word gives its
/// expansion followed by the line after as many bytes as the word has;
/// else the line is unchanged.
pub open spec fn spec_expand_alias(aliases: Seq<Alias>, line: Seq<char>) -> Seq<char> {
    match first_alias(aliases, line) {
        Some(i) => aliases[i].expansion@,
        None => {
            let w = first_word(line);
            match first_alias(aliases, w) {
                Some(i) => aliases[i].expansion@ + line.skip(cover_from(line, byte_len(w) as int, 0)),
                None => line,
            }
        },
    }
}

/// The sum of a sequence of samples.
pub open spec fn sample_sum(s: Seq<u64>) -> int
    decreases s.len(),
{
    if s.len() == 0 {
        0
    } else {
        sample_sum(s.drop_last()) + s.last()
    }
}

/// The average of the samples, rounded down; `None` without samples.
pub open spec fn spec_latency_avg(s: Seq<u64>) -> Option<u64> {
    if s.len() == 0 {
        None
    } else {
        Some((sample_sum(s) / (s.len() as int)) as u64)
    }
}

proof fn lemma_sample_sum_bound(s: Seq<u64>)
    ensures
        0 <= sample_sum(s) <= s.len() * (u64::MAX as int),
    decreases s.len(),
{
    if s.len() > 0 {
        lemma_sample_sum_bound(s.drop_last());
    }
}

proof fn lemma_lines_push(v: Seq<StyledLine>, l: StyledLine)
    ensures
        lines_view(v.push(l)) =~= lines_view(v).push(line_view(l)),
{
}

/// Index of the first alias named `name`.
fn find_alias(aliases: &Vec<Alias>, name: &Vec<char>) -> (r: Option<usize>)
    ensures
        match r {
            Some(i) => first_alias(aliases@, name@) == Some(i as int) && i < aliases@.len(),
            None => first_alias(aliases@, name@) is None,
        },
{
    let mut i: usize = 0;
    assert(aliases@.skip(0) =~= aliases@);
    while i < aliases.len()
        invariant
            i <= aliases@.len(),
            first_alias(aliases@, name@) == (match first_alias(aliases@.skip(i as int), name@) {
                Some(j) => Some(j + i),
                None => None,
            }),
        decreases aliases.len() - i,
    {
        let n = chars_of(aliases[i].name.as_str());
        let ghost rest = aliases@.skip(i as int);
        proof {
            assert(rest[0] == aliases@[i as int]);
            assert(rest.drop_first() =~= aliases@.skip(i + 1));
        }
        if crate::text::chars_eq(&n, name) {
            return Some(i);
        }
        i += 1;
    }
    proof {
        assert(aliases@.skip(i as int).len() == 0);
    }
    None
}

/// The game screen after a line of server output `s` arrived: the line,
/// styled and recoloured by the firing triggers, joins the scrollback, their
/// commands are queued, and a pending prompt is dropped.
pub open spec fn spec_push_line(g: GameModel, s: Seq<char>) -> GameModel {
    let (l, q) = apply_triggers(g.triggers, s, spec_ansi_to_line(s), g.auto_send_queue);
    GameModel { lines: scroll_push(g.lines, l), auto_send_queue: q, prompt: None, ..g }
}

/// A fresh game screen as plain values.
pub open spec fn fresh_game() -> GameModel {
    GameModel {
        lines: Seq::empty(),
        scroll_offset: 0,
        input: Seq::empty(),
        input_cursor: 0,
        history: Seq::empty(),
        history_idx: None,
        history_snapshot: Seq::empty(),
        latency: None,
        latency_samples: Seq::empty(),
        connected: false,
        prompt: None,
        last_output_height: 20,
        aliases: Seq::empty(),
        triggers: Seq::empty(),
        auto_send_queue: Seq::empty(),
        copy_mode: false,
        map_fullscreen: false,
        map_pan: (0i32, 0i32, 0i32),
        sidebar: crate::ui::sidebar::default_sidebar(),
    }
}

impl GameState {
    /// A fresh game screen: empty scrollback and input, not connected, the
    /// default sidebar.
    pub fn new() -> (g: GameState)
        ensures
            g@ == fresh_game(),
            g.sidebar.automap.rooms@ == Map::<Seq<char>, RoomView>::empty(),
            g.sidebar.automap.current_room_id is None,
            game_wf(g@),
    {
        let g = GameState {
            lines: VecDeque::new(),
            scroll_offset: 0,
            input: String::new(),
            input_cursor: 0,
            history: Vec::new(),
            history_idx: None,
            history_snapshot: String::new(),
            latency: None,
            latency_samples: VecDeque::new(),
            connected: false,
            prompt: None,
            last_output_height: 20,
            aliases: Vec::new(),
            triggers: Vec::new(),
            auto_send_queue: Vec::new(),
            copy_mode: false,
            map_fullscreen: false,
            map_pan: (0, 0, 0),
            sidebar: SidebarState::default(),
        };
        assert(g@.lines =~= Seq::<LineV>::empty());
        assert(g@.history =~= Seq::<Seq<char>>::empty());
        assert(g@.auto_send_queue =~= Seq::<Seq<char>>::empty());
        assert(g@.input =~= Seq::<char>::empty());
        assert(g@.history_snapshot =~= Seq::<char>::empty());
        assert(g@ == fresh_game());
        proof {
            lemma_boundary_index(g@.input, 0);
            assert(g@.input.take(0) =~= Seq::<char>::empty());
        }
        g
    }

    /// Parse a line of server output, apply the triggers, and append it to
    /// the scrollback; commands of firing triggers are queued.  A full line
    /// replaces a pending prompt.
    pub fn push_line(&mut self, s: &str)
        ensures
            final(self)@ == spec_push_line(old(self)@, s@),
            final(self).sidebar.automap == old(self).sidebar.automap,
            final(self).lines@.len() <= SCROLLBACK_MAX,
    {
        let mut line = ansi_to_line(s);
        let mut queue: Vec<String> = Vec::new();
        std::mem::swap(&mut queue, &mut self.auto_send_queue);
        let mut i: usize = 0;
        while i < self.triggers.len()
            invariant
                i <= self.triggers@.len(),
                self.triggers == old(self).triggers,
                (line_view(line), texts(queue@)) == apply_triggers(
                    self.triggers@.take(i as int),
                    s@,
                    spec_ansi_to_line(s@),
                    texts(old(self).auto_send_queue@),
                ),
            decreases self.triggers.len() - i,
        {
            proof {
                assert(self.triggers@.take(i + 1).drop_last() =~= self.triggers@.take(i as int));
            }
            let fires = match regex_is_match(self.triggers[i].pattern.as_str(), s) {
                Some(b) => b,
                None => false,
            };
            if fires {
                match self.triggers[i].color {
                    Some(c) => {
                        line = recolor_line(&line, c);
                    },
                    None => {},
                }
                match &self.triggers[i].send {
                    Some(cmd) => {
                        if !cmd.as_str().is_empty() {
                            let ghost before = queue@;
                            queue.push(cmd.clone());
                            proof {
                                assert(texts(queue@) =~= texts(before).push(cmd@));
                            }
                        }
                    },
                    None => {},
                }
            }
            i += 1;
        }
        assert(self.triggers@.take(self.triggers@.len() as int) =~= self.triggers@);
        self.auto_send_queue = queue;
        push_capped(&mut self.lines, line);
        self.prompt = None;
    }
}

impl GameState {
    /// Store a partial line (a prompt) shown below the last full line.
    pub fn push_prompt(&mut self, s: &str)
        ensures
            final(self)@ == (GameModel { prompt: Some(spec_ansi_to_line(s@)), ..old(self)@ }),
            final(self).sidebar.automap == old(self).sidebar.automap,
    {
        self.prompt = Some(ansi_to_line(s));
    }

    /// Scroll up by `n` lines, at most to the first line.
    pub fn scroll_up(&mut self, n: usize)
        ensures
            final(self).scroll_offset as int == ({
                let max = if old(self).lines@.len() > 0 { old(self).lines@.len() - 1 } else { 0 };
                let up = if old(self).scroll_offset + n > usize::MAX { usize::MAX as int } else { old(self).scroll_offset + n };
                if up < max { up } else { max }
            }),
            final(self)@ == (GameModel { scroll_offset: final(self).scroll_offset, ..old(self)@ }),
    {
        let len = self.lines.len();
        let max = if len > 0 { len - 1 } else { 0 };
        let up = self.scroll_offset.saturating_add(n);
        self.scroll_offset = if up < max { up } else { max };
    }

    /// Scroll down by `n` lines, at most to the live view.
    pub fn scroll_down(&mut self, n: usize)
        ensures
            final(self).scroll_offset as int == if old(self).scroll_offset >= n { old(self).scroll_offset - n } else { 0 },
            final(self)@ == (GameModel { scroll_offset: final(self).scroll_offset, ..old(self)@ }),
    {
        self.scroll_offset = self.scroll_offset.saturating_sub(n);
    }

    /// Return to the live view.
    pub fn scroll_to_bottom(&mut self)
        ensures
            final(self)@ == (GameModel { scroll_offset: 0, ..old(self)@ }),
    {
        self.scroll_offset = 0;
    }

    /// Scroll to the first line.
    pub fn scroll_to_top(&mut self)
        ensures
            final(self).scroll_offset as int == if old(self).lines@.len() > 0 { old(self).lines@.len() - 1 } else { 0 },
            final(self)@ == (GameModel { scroll_offset: final(self).scroll_offset, ..old(self)@ }),
    {
        let len = self.lines.len();
        self.scroll_offset = if len > 0 { len - 1 } else { 0 };
    }

    /// A new connection: connected, latency forgotten, fullscreen map closed
    /// and centred, live view, no prompt.
    pub fn on_connect(&mut self)
        ensures
            final(self)@ == (GameModel {
                connected: true,
                latency: None,
                latency_samples: Seq::empty(),
                map_fullscreen: false,
                map_pan: (0i32, 0i32, 0i32),
                scroll_offset: 0,
                prompt: None,
                ..old(self)@
            }),
            final(self).sidebar.automap == old(self).sidebar.automap,
    {
        self.connected = true;
        self.latency = None;
        self.latency_samples.clear();
        self.map_fullscreen = false;
        self.map_pan = (0, 0, 0);
        self.scroll_offset = 0;
        self.prompt = None;
    }

    /// The connection is gone: disconnected, latency forgotten, fullscreen
    /// map closed and centred.
    pub fn on_disconnect(&mut self)
        ensures
            final(self)@ == (GameModel {
                connected: false,
                latency: None,
                latency_samples: Seq::empty(),
                map_fullscreen: false,
                map_pan: (0i32, 0i32, 0i32),
                ..old(self)@
            }),
            final(self).sidebar.automap == old(self).sidebar.automap,
    {
        self.connected = false;
        self.latency = None;
        self.latency_samples.clear();
        self.map_fullscreen = false;
        self.map_pan = (0, 0, 0);
    }

    /// Record a latency sample: it becomes the latest reading and joins the
    /// last samples kept for the average.
    pub fn record_latency(&mut self, ms: u64)
        ensures
            final(self)@ == (GameModel {
                latency: Some(ms),
                latency_samples: keep_last(old(self)@.latency_samples.push(ms), LATENCY_AVG_SAMPLES as int),
                ..old(self)@
            }),
    {
        let mut samples: VecDeque<u64> = VecDeque::new();
        std::mem::swap(&mut samples, &mut self.latency_samples);
        let ghost full = samples@.push(ms);
        samples.push_back(ms);
        let ghost mut dropped: int = 0;
        proof {
            assert(full.skip(0) =~= full);
        }
        while samples.len() > LATENCY_AVG_SAMPLES
            invariant
                0 <= dropped <= full.len(),
                samples@ == full.skip(dropped),
                dropped > 0 ==> samples@.len() >= LATENCY_AVG_SAMPLES,
            decreases samples@.len(),
        {
            samples.pop_front();
            proof {
                assert(full.skip(dropped).drop_first() =~= full.skip(dropped + 1));
                dropped = dropped + 1;
            }
        }
        self.latency_samples = samples;
        self.latency = Some(ms);
    }

    /// The rolling average of the recent latency samples.
    pub fn latency_avg(&self) -> (r: Option<u64>)
        ensures
            r == spec_latency_avg(self.latency_samples@),
    {
        let n = self.latency_samples.len();
        if n == 0 {
            return None;
        }
        let mut sum: u128 = 0;
        let mut i: usize = 0;
        while i < n
            invariant
                i <= n == self.latency_samples@.len(),
                n <= usize::MAX,
                sum == sample_sum(self.latency_samples@.take(i as int)),
                sum <= i * (u64::MAX as int),
            decreases n - i,
        {
            proof {
                assert(self.latency_samples@.take(i + 1).drop_last() =~= self.latency_samples@.take(i as int));
                assert((i + 1) * (u64::MAX as int) == i * (u64::MAX as int) + u64::MAX) by (nonlinear_arith);
                assert(i * (u64::MAX as int) <= (usize::MAX as int) * (u64::MAX as int)) by (nonlinear_arith)
                    requires i <= usize::MAX;
                assert((usize::MAX as int) * (u64::MAX as int) < u128::MAX) by (nonlinear_arith)
                    requires usize::MAX <= u64::MAX;
            }
            sum = sum + self.latency_samples[i] as u128;
            i += 1;
        }
        assert(self.latency_samples@.take(n as int) =~= self.latency_samples@);
        let avg = sum / (n as u128);
        proof {
            lemma_sample_sum_bound(self.latency_samples@);
            assert(avg <= u64::MAX) by (nonlinear_arith)
                requires
                    avg == sum / (n as u128),
                    sum <= n * (u64::MAX as int),
                    n > 0;
        }
        Some(avg as u64)
    }

    /// Install the aliases of the character.
    pub fn set_aliases(&mut self, aliases: Vec<Alias>)
        ensures
            final(self)@ == (GameModel { aliases: aliases@, ..old(self)@ }),
            final(self).sidebar.automap == old(self).sidebar.automap,
    {
        self.aliases = aliases;
    }

    /// Install the triggers of the character; those whose pattern does not
    /// compile are dropped, colour names are resolved.
    pub fn set_triggers(&mut self, triggers: Vec<Trigger>)
        ensures
            final(self).triggers@.len() <= triggers@.len(),
            forall|i: int| 0 <= i < final(self).triggers@.len() ==> regex_valid(#[trigger] final(self).triggers@[i].pattern@),
            final(self).triggers@.map_values(|t: ActiveTrigger| (t.id@, t.pattern@, t.color, opt_text(t.send)))
                == valid_triggers(triggers@),
            final(self)@ == (GameModel { triggers: final(self)@.triggers, ..old(self)@ }),
            final(self).sidebar.automap == old(self).sidebar.automap,
    {
        let mut out: Vec<ActiveTrigger> = Vec::new();
        let mut i: usize = 0;
        while i < triggers.len()
            invariant
                i <= triggers@.len(),
                out@.len() <= i,
                forall|k: int| 0 <= k < out@.len() ==> regex_valid(#[trigger] out@[k].pattern@),
                out@.map_values(|t: ActiveTrigger| (t.id@, t.pattern@, t.color, opt_text(t.send)))
                    == valid_triggers(triggers@.take(i as int)),
                *self == *old(self),
            decreases triggers.len() - i,
        {
            proof {
                assert(triggers@.take(i + 1).drop_last() =~= triggers@.take(i as int));
            }
            let t = &triggers[i];
            if regex_is_valid(t.pattern.as_str()) {
                let color = match &t.color {
                    Some(name) => parse_color_name(name.as_str()),
                    None => None,
                };
                let send = match &t.send {
                    Some(x) => Some(x.clone()),
                    None => None,
                };
                let a = ActiveTrigger { id: t.id.clone(), pattern: t.pattern.clone(), color, send };
                let ghost before = out@;
                out.push(a);
                proof {
                    assert(out@.map_values(|t: ActiveTrigger| (t.id@, t.pattern@, t.color, opt_text(t.send)))
                        =~= before.map_values(|t: ActiveTrigger| (t.id@, t.pattern@, t.color, opt_text(t.send))).push((a.id@, a.pattern@, a.color, opt_text(a.send))));
                }
            }
            i += 1;
        }
        assert(triggers@.take(triggers@.len() as int) =~= triggers@);
        self.triggers = out;
    }

    /// Alias expansion of an input line (see `spec_expand_alias`).
    pub fn expand_alias(&self, line: &str) -> (r: String)
        requires
            byte_len(line@) <= usize::MAX,
        ensures
            r@ == spec_expand_alias(self.aliases@, line@),
    {
        let v = chars_of(line);
        match find_alias(&self.aliases, &v) {
            Some(i) => {
                return self.aliases[i].expansion.clone();
            },
            None => {},
        }
        let ws = crate::text::split_words(&v);
        let first: Vec<char> = if ws.len() > 0 {
            proof { assert(ws@[0]@ == words(v@)[0]); }
            ws[0].clone()
        } else {
            Vec::new()
        };
        assert(first@ == first_word(v@));
        match find_alias(&self.aliases, &first) {
            Some(i) => {
                proof { lemma_first_word_bytes(v@); }
                let b = crate::text::prefix_byte_len(&first, first.len());
                proof { assert(first@.take(first@.len() as int) =~= first@); }
                let k = cover_index(&v, b);
                let tail = crate::text::slice_vec(&v, k, v.len());
                let e = chars_of(self.aliases[i].expansion.as_str());
                let all = crate::text::concat_vec(&e, &tail);
                proof { assert(tail@ =~= v@.skip(k as int)); }
                string_of(&all)
            },
            None => string_of(&v),
        }
    }

    /// Push a client-side message into the scrollback.
    pub fn push_system(&mut self, msg: &str)
        ensures
            final(self)@ == (GameModel { lines: scroll_push(old(self)@.lines, system_line(msg@)), ..old(self)@ }),
            final(self).sidebar.automap == old(self).sidebar.automap,
            final(self).lines@.len() <= SCROLLBACK_MAX,
    {
        let l = system_styled_line(msg);
        push_capped(&mut self.lines, l);
    }
}

/// The triggers whose patterns compile, as id, pattern, resolved colour and
/// command.
pub open spec fn valid_triggers(ts: Seq<Trigger>) -> Seq<(Seq<char>, Seq<char>, Option<Color>, Option<Seq<char>>)>
    decreases ts.len(),
{
    if ts.len() == 0 {
        seq![]
    } else {
        let r = valid_triggers(ts.drop_last());
        let t = ts.last();
        if regex_valid(t.pattern@) {
            r.push((
                t.id@,
                t.pattern@,
                match t.color {
                    Some(n) => spec_color_name(crate::text::unicode_lower(n@)),
                    None => None,
                },
                opt_text(t.send),
            ))
        } else {
            r
        }
    }
}

/// The first word of a line is no longer, in bytes, than the line.
proof fn lemma_first_word_bytes(s: Seq<char>)
    ensures
        byte_len(first_word(s)) <= byte_len(s),
    decreases s.len(),
{
    if s.len() > 0 {
        if crate::text::is_ws(s[0]) {
            assert(words(s) == words(s.drop_first()));
            lemma_first_word_bytes(s.drop_first());
            lemma_byte_len_drop_first(s);
        } else {
            let n = crate::text::word_len(s);
            crate::text::lemma_word_len_bound(s);
            assert(first_word(s) == s.take(n as int));
            if n < s.len() {
                crate::text::lemma_byte_len_prefix_mono(s, n as int, s.len() as int);
            }
            assert(s.take(s.len() as int) =~= s);
        }
    }
}

proof fn lemma_byte_len_drop_first(s: Seq<char>)
    requires
        s.len() > 0,
    ensures
        byte_len(s.drop_first()) <= byte_len(s),
{
    crate::text::lemma_byte_len_concat(seq![s[0]], s.drop_first());
    assert(seq![s[0]] + s.drop_first() =~= s);
}

/// The first character index of `v` at or after byte offset `b`.
fn cover_index(v: &Vec<char>, b: usize) -> (k: usize)
    requires
        byte_len(v@) <= usize::MAX,
    ensures
        k as int == cover_from(v@, b as int, 0),
        k <= v@.len(),
{
    let mut k: usize = 0;
    let mut n: usize = 0;
    while k < v.len() && n < b
        invariant
            k <= v@.len(),
            byte_len(v@) <= usize::MAX,
            n == byte_len(v@.take(k as int)),
            cover_from(v@, b as int, 0) == cover_from(v@, b as int, k as int),
        decreases v.len() - k,
    {
        proof {
            assert(v@.take(k + 1).drop_last() =~= v@.take(k as int));
            assert(v@.take(v@.len() as int) =~= v@);
            if k + 1 < v@.len() {
                crate::text::lemma_byte_len_prefix_mono(v@, k + 1, v@.len() as int);
            }
        }
        n = n + char_utf8_len(v[k]);
        k += 1;
    }
    k
}

/// The styled line of a client message.
fn system_styled_line(msg: &str) -> (l: StyledLine)
    ensures
        line_view(l) == system_line(msg@),
{
    let st = TextStyle::plain().with_fg(Color::Cyan);
    let mut spans: Vec<StyledSpan> = Vec::new();
    spans.push(StyledSpan { text: string_of(&chars_of("\u{00bb} ")), style: st });
    spans.push(StyledSpan { text: string_of(&chars_of(msg)), style: st });
    let l = StyledLine { spans };
    assert(line_view(l) =~= system_line(msg@));
    l
}

/// Append a line to the scrollback, dropping the oldest beyond the limit.
fn push_capped(lines: &mut VecDeque<StyledLine>, l: StyledLine)
    ensures
        lines_view(final(lines)@) == scroll_push(lines_view(old(lines)@), line_view(l)),
        final(lines)@.len() <= SCROLLBACK_MAX,
{
    let ghost full = lines_view(lines@.push(l));
    proof { lemma_lines_push(lines@, l); }
    lines.push_back(l);
    let ghost mut dropped: int = 0;
    proof {
        assert(full.skip(0) =~= full);
    }
    while lines.len() > SCROLLBACK_MAX
        invariant
            0 <= dropped <= full.len(),
            lines_view(lines@) == full.skip(dropped),
            lines@.len() == full.len() - dropped,
            dropped > 0 ==> lines@.len() >= SCROLLBACK_MAX,
        decreases lines@.len(),
    {
        let ghost before = lines@;
        lines.pop_front();
        proof {
            assert(lines_view(lines@) =~= lines_view(before).drop_first());
            assert(full.skip(dropped).drop_first() =~= full.skip(dropped + 1));
            dropped = dropped + 1;
        }
    }
}

/// A line with every span's foreground set to `c`.
fn recolor_line(l: &StyledLine, c: Color) -> (r: StyledLine)
    ensures
        line_view(r) == recolor(line_view(*l), c),
{
    let mut spans: Vec<StyledSpan> = Vec::new();
    let mut i: usize = 0;
    while i < l.spans.len()
        invariant
            i <= l.spans@.len(),
            spans@.map_values(|sp: StyledSpan| (sp.text@, sp.style)) == recolor(line_view(*l), c).take(i as int),
        decreases l.spans.len() - i,
    {
        let sp = &l.spans[i];
        let n = StyledSpan { text: sp.text.clone(), style: sp.style.with_fg(c) };
        let ghost before = spans@;
        spans.push(n);
        proof {
            assert(spans@.map_values(|sp: StyledSpan| (sp.text@, sp.style)) =~= before.map_values(|sp: StyledSpan| (sp.text@, sp.style)).push((n.text@, n.style)));
            assert(recolor(line_view(*l), c).take(i + 1) =~= recolor(line_view(*l), c).take(i as int).push(recolor(line_view(*l), c)[i as int]));
        }
        i += 1;
    }
    assert(recolor(line_view(*l), c).take(l.spans@.len() as int) =~= recolor(line_view(*l), c));
    StyledLine { spans }
}

} // verus!

verus! {

use crate::ui::sidebar::{boundary_index, is_boundary, lemma_boundary_index, SidebarModel, char_index_of_byte};
use crate::text::{is_ws, lemma_byte_len_prefix_mono, prefix_byte_len};

// ---------------------------------------------------------------------------
// The game screen as plain values
// ---------------------------------------------------------------------------

/// The game screen without the automap, as plain values.
pub struct GameModel {
    pub lines: Seq<LineV>,
    pub scroll_offset: usize,
    pub input: Seq<char>,
    pub input_cursor: usize,
    pub history: Seq<Seq<char>>,
    pub history_idx: Option<usize>,
    pub history_snapshot: Seq<char>,
    pub latency: Option<u64>,
    pub latency_samples: Seq<u64>,
    pub connected: bool,
    pub prompt: Option<LineV>,
    pub last_output_height: usize,
    pub aliases: Seq<Alias>,
    pub triggers: Seq<ActiveTrigger>,
    pub auto_send_queue: Seq<Seq<char>>,
    pub copy_mode: bool,
    pub map_fullscreen: bool,
    pub map_pan: (i32, i32, i32),
    pub sidebar: SidebarModel,
}

/// The view of an optional styled line.
pub open spec fn opt_line(p: Option<StyledLine>) -> Option<LineV> {
    match p {
        Some(l) => Some(line_view(l)),
        None => None,
    }
}

impl View for GameState {
    type V = GameModel;

    open spec fn view(&self) -> GameModel {
        GameModel {
            lines: lines_view(self.lines@),
            scroll_offset: self.scroll_offset,
            input: self.input@,
            input_cursor: self.input_cursor,
            history: texts(self.history@),
            history_idx: self.history_idx,
            history_snapshot: self.history_snapshot@,
            latency: self.latency,
            latency_samples: self.latency_samples@,
            connected: self.connected,
            prompt: opt_line(self.prompt),
            last_output_height: self.last_output_height,
            aliases: self.aliases@,
            triggers: self.triggers@,
            auto_send_queue: texts(self.auto_send_queue@),
            copy_mode: self.copy_mode,
            map_fullscreen: self.map_fullscreen,
            map_pan: self.map_pan,
            sidebar: self.sidebar@,
        }
    }
}

/// The game screen is well formed: the input cursor sits on a character
/// boundary, a history index points into the history, and the sidebar is
/// well formed.
pub open spec fn game_wf(g: GameModel) -> bool {
    &&& is_boundary(g.input, g.input_cursor as int)
    &&& (g.history_idx matches Some(i) ==> i < g.history.len())
    &&& crate::ui::sidebar::sidebar_wf(g.sidebar)
}

/// The texts and numbers involved fit the machine: byte lengths of the
/// input (with one more character), the history entries and the snapshot
/// fit in `usize`, and the map pan is not at the edge of the `i32` range.
pub open spec fn game_fits(g: GameModel) -> bool {
    &&& byte_len(g.input) + 4 <= usize::MAX
    &&& byte_len(g.history_snapshot) <= usize::MAX
    &&& forall|i: int| 0 <= i < g.history.len() ==> byte_len(#[trigger] g.history[i]) <= usize::MAX
    &&& crate::ui::sidebar::sidebar_fits(g.sidebar)
    &&& i32::MIN < g.map_pan.0 < i32::MAX
    &&& i32::MIN < g.map_pan.1 < i32::MAX
    &&& i32::MIN < g.map_pan.2 < i32::MAX
}

// ---------------------------------------------------------------------------
// Line editing
// ---------------------------------------------------------------------------

/// `s` without its trailing characters that satisfy `ws == want_ws`.
pub open spec fn drop_trailing(s: Seq<char>, want_ws: bool) -> Seq<char>
    decreases s.len(),
{
    if s.len() > 0 && is_ws(s.last()) == want_ws {
        drop_trailing(s.drop_last(), want_ws)
    } else {
        s
    }
}

/// The result of an editing key on a text and a byte cursor on one of its
/// character boundaries.
pub open spec fn spec_edit(s: Seq<char>, b: usize, code: crate::ui::keys::KeyCode, ctrl: bool) -> (Seq<char>, usize) {
    let k = boundary_index(s, b as int);
    match code {
        crate::ui::keys::KeyCode::Left => if b > 0 {
            (s, byte_len(s.take(k - 1)) as usize)
        } else {
            (s, b)
        },
        crate::ui::keys::KeyCode::Right => if b < byte_len(s) {
            (s, byte_len(s.take(k + 1)) as usize)
        } else {
            (s, b)
        },
        crate::ui::keys::KeyCode::Backspace => if b > 0 {
            (s.remove(k - 1), byte_len(s.take(k - 1)) as usize)
        } else {
            (s, b)
        },
        crate::ui::keys::KeyCode::Delete => if b < byte_len(s) {
            (s.remove(k), b)
        } else {
            (s, b)
        },
        crate::ui::keys::KeyCode::Char(c) => if !ctrl {
            (s.insert(k, c), (b + utf8_width(c)) as usize)
        } else if c == 'u' {
            (s.skip(k), 0)
        } else if c == 'k' {
            (s.take(k), b)
        } else if c == 'a' {
            (s, 0)
        } else if c == 'e' {
            (s, byte_len(s) as usize)
        } else if c == 'w' {
            let kept = drop_trailing(drop_trailing(s.take(k), false), true);
            (kept + s.skip(k), byte_len(kept) as usize)
        } else {
            (s, b)
        },
        _ => (s, b),
    }
}

/// Whether `code` (with `ctrl`) is one of the editing keys of `spec_edit`.
pub open spec fn is_edit_key(code: crate::ui::keys::KeyCode, ctrl: bool) -> bool {
    match code {
        crate::ui::keys::KeyCode::Left | crate::ui::keys::KeyCode::Right | crate::ui::keys::KeyCode::Backspace
        | crate::ui::keys::KeyCode::Delete => true,
        crate::ui::keys::KeyCode::Char(c) => !ctrl || c == 'u' || c == 'k' || c == 'a' || c == 'e' || c == 'w',
        _ => false,
    }
}

proof fn lemma_drop_trailing_prefix(s: Seq<char>, want_ws: bool)
    ensures
        drop_trailing(s, want_ws).len() <= s.len(),
        drop_trailing(s, want_ws) == s.take(drop_trailing(s, want_ws).len() as int),
    decreases s.len(),
{
    if s.len() > 0 && is_ws(s.last()) == want_ws {
        lemma_drop_trailing_prefix(s.drop_last(), want_ws);
        let d = drop_trailing(s.drop_last(), want_ws);
        assert(s.drop_last().take(d.len() as int) =~= s.take(d.len() as int));
    } else {
        assert(s.take(s.len() as int) =~= s);
    }
}

/// `v` without its trailing characters that satisfy `ws == want_ws`.
fn drop_trailing_vec(v: &Vec<char>, want_ws: bool) -> (r: Vec<char>)
    ensures
        r@ == drop_trailing(v@, want_ws),
{
    let mut n = v.len();
    assert(v@.take(v@.len() as int) =~= v@);
    while n > 0 && is_whitespace(v[n - 1]) == want_ws
        invariant
            n <= v@.len(),
            drop_trailing(v@, want_ws) == drop_trailing(v@.take(n as int), want_ws),
        decreases n,
    {
        proof {
            assert(v@.take(n as int).drop_last() =~= v@.take(n - 1));
        }
        n -= 1;
    }
    crate::text::slice_vec(v, 0, n)
}

/// What the editing helpers may assume: `v` holds the text, `k` is the
/// character index of the cursor at byte `b`, `total` the byte length.
pub open spec fn edit_pre(v: Seq<char>, k: usize, b: usize, total: usize) -> bool {
    &&& k <= v.len()
    &&& byte_len(v.take(k as int)) == b
    &&& boundary_index(v, b as int) == k
    &&& byte_len(v) == total
    &&& byte_len(v) + 4 <= usize::MAX
}

/// The postcondition the editing helpers share.
pub open spec fn edit_post(v: Seq<char>, r: (Seq<char>, usize)) -> bool {
    &&& is_boundary(r.0, r.1 as int)
    &&& byte_len(r.0) <= byte_len(v) + 4
}

fn edit_left(v: &Vec<char>, k: usize, b: usize, total: usize) -> (r: (Vec<char>, usize))
    requires
        edit_pre(v@, k, b, total),
    ensures
        (r.0@, r.1) == spec_edit(v@, b, crate::ui::keys::KeyCode::Left, false),
        edit_post(v@, (r.0@, r.1)),
{
    proof {
        if k < v@.len() {
            lemma_byte_len_prefix_mono(v@, k as int, v@.len() as int);
        }
        assert(v@.take(v@.len() as int) =~= v@);
    }
    if b > 0 {
        proof {
            if k == 0 {
                assert(v@.take(0) =~= Seq::<char>::empty());
            }
            lemma_boundary_index(v@, k - 1);
        }
        (v.clone(), prefix_byte_len(v, k - 1))
    } else {
        proof { lemma_boundary_index(v@, k as int); }
        (v.clone(), b)
    }
}

fn edit_right(v: &Vec<char>, k: usize, b: usize, total: usize) -> (r: (Vec<char>, usize))
    requires
        edit_pre(v@, k, b, total),
    ensures
        (r.0@, r.1) == spec_edit(v@, b, crate::ui::keys::KeyCode::Right, false),
        edit_post(v@, (r.0@, r.1)),
{
    proof {
        assert(v@.take(v@.len() as int) =~= v@);
    }
    if b < total {
        proof {
            if k == v@.len() {
                assert(false);
            }
            lemma_boundary_index(v@, k + 1);
        }
        (v.clone(), prefix_byte_len(v, k + 1))
    } else {
        proof { lemma_boundary_index(v@, k as int); }
        (v.clone(), b)
    }
}

#[verifier::rlimit(40)]
fn edit_backspace(v: &Vec<char>, k: usize, b: usize, total: usize) -> (r: (Vec<char>, usize))
    requires
        edit_pre(v@, k, b, total),
    ensures
        (r.0@, r.1) == spec_edit(v@, b, crate::ui::keys::KeyCode::Backspace, false),
        edit_post(v@, (r.0@, r.1)),
{
    if b > 0 {
        proof {
            if k == 0 {
                assert(v@.take(0) =~= Seq::<char>::empty());
            }
            lemma_boundary_index(v@.remove(k - 1), k - 1);
            assert(v@.remove(k - 1).take(k - 1) =~= v@.take(k - 1));
            lemma_remove_bytes(v@, k - 1);
            assert(v@.take(v@.len() as int) =~= v@);
            if k - 1 < v@.len() {
                lemma_byte_len_prefix_mono(v@, k - 1, v@.len() as int);
            }
        }
        let pos = prefix_byte_len(v, k - 1);
        let mut w = v.clone();
        w.remove(k - 1);
        (w, pos)
    } else {
        proof { lemma_boundary_index(v@, k as int); }
        (v.clone(), b)
    }
}

fn edit_delete(v: &Vec<char>, k: usize, b: usize, total: usize) -> (r: (Vec<char>, usize))
    requires
        edit_pre(v@, k, b, total),
    ensures
        (r.0@, r.1) == spec_edit(v@, b, crate::ui::keys::KeyCode::Delete, false),
        edit_post(v@, (r.0@, r.1)),
{
    proof { assert(v@.take(v@.len() as int) =~= v@); }
    if b < total {
        proof {
            if k == v@.len() {
                assert(false);
            }
            lemma_boundary_index(v@.remove(k as int), k as int);
            assert(v@.remove(k as int).take(k as int) =~= v@.take(k as int));
            lemma_remove_bytes(v@, k as int);
        }
        let mut w = v.clone();
        w.remove(k);
        (w, b)
    } else {
        proof { lemma_boundary_index(v@, k as int); }
        (v.clone(), b)
    }
}

fn edit_insert(v: &Vec<char>, k: usize, b: usize, total: usize, c: char) -> (r: (Vec<char>, usize))
    requires
        edit_pre(v@, k, b, total),
    ensures
        (r.0@, r.1) == spec_edit(v@, b, crate::ui::keys::KeyCode::Char(c), false),
        edit_post(v@, (r.0@, r.1)),
{
    let wdt = char_utf8_len(c);
    let mut w = v.clone();
    proof {
        assert(v@.take(v@.len() as int) =~= v@);
        if k < v@.len() {
            lemma_byte_len_prefix_mono(v@, k as int, v@.len() as int);
        }
        let t = v@.insert(k as int, c);
        assert(t.take(k + 1).drop_last() =~= v@.take(k as int));
        lemma_boundary_index(t, k + 1);
        crate::text::lemma_byte_len_concat(v@.take(k as int).push(c), v@.skip(k as int));
        crate::text::lemma_byte_len_concat(v@.take(k as int), v@.skip(k as int));
        assert(t =~= v@.take(k as int).push(c) + v@.skip(k as int));
        assert(v@ =~= v@.take(k as int) + v@.skip(k as int));
        assert(v@.take(k as int).push(c).drop_last() =~= v@.take(k as int));
    }
    w.insert(k, c);
    (w, b + wdt)
}

#[verifier::spinoff_prover]
#[verifier::rlimit(80)]
fn edit_kill_word(v: &Vec<char>, k: usize, b: usize, total: usize) -> (r: (Vec<char>, usize))
    requires
        edit_pre(v@, k, b, total),
    ensures
        (r.0@, r.1) == spec_edit(v@, b, crate::ui::keys::KeyCode::Char('w'), true),
        edit_post(v@, (r.0@, r.1)),
{
    let before = crate::text::slice_vec(v, 0, k);
    let b1 = drop_trailing_vec(&before, false);
    let kept = drop_trailing_vec(&b1, true);
    let after = crate::text::slice_vec(v, k, v.len());
    let w = crate::text::concat_vec(&kept, &after);
    proof {
        assert(before@ =~= v@.take(k as int));
        lemma_drop_trailing_prefix(before@, false);
        lemma_drop_trailing_prefix(b1@, true);
        let n = kept@.len() as int;
        assert(kept@ =~= v@.take(n)) by {
            assert(b1@ == before@.take(b1@.len() as int));
            assert(kept@ == b1@.take(n));
        }
        assert(w@.take(n) =~= kept@);
        lemma_boundary_index(w@, n);
        crate::text::lemma_byte_len_concat(kept@, after@);
        crate::text::lemma_byte_len_concat(v@.take(k as int), v@.skip(k as int));
        assert(v@ =~= v@.take(k as int) + v@.skip(k as int));
        assert(after@ =~= v@.skip(k as int));
        if n < k {
            lemma_byte_len_prefix_mono(v@, n, k as int);
        }
        assert(v@.take(v@.len() as int) =~= v@);
        if n < v@.len() {
            lemma_byte_len_prefix_mono(v@, n, v@.len() as int);
        }
    }
    let nb = prefix_byte_len(&kept, kept.len());
    proof { assert(kept@.take(kept@.len() as int) =~= kept@); }
    (w, nb)
}

fn edit_other(v: &Vec<char>, k: usize, b: usize, total: usize, code: crate::ui::keys::KeyCode, ctrl: bool) -> (r: (Vec<char>, usize))
    requires
        edit_pre(v@, k, b, total),
        !(code is Left || code is Right || code is Backspace || code is Delete),
        code matches crate::ui::keys::KeyCode::Char(c) ==> ctrl && c != 'w',
    ensures
        (r.0@, r.1) == spec_edit(v@, b, code, ctrl),
        edit_post(v@, (r.0@, r.1)),
{
    proof {
        assert(v@.take(v@.len() as int) =~= v@);
        if k < v@.len() {
            lemma_byte_len_prefix_mono(v@, k as int, v@.len() as int);
        }
        crate::text::lemma_byte_len_concat(v@.take(k as int), v@.skip(k as int));
        assert(v@ =~= v@.take(k as int) + v@.skip(k as int));
    }
    match code {
        crate::ui::keys::KeyCode::Char(c) => {
            if c == 'u' {
                let w = crate::text::slice_vec(v, k, v.len());
                proof {
                    assert(w@ =~= v@.skip(k as int));
                    lemma_boundary_index(w@, 0);
                    assert(w@.take(0) =~= Seq::<char>::empty());
                }
                (w, 0)
            } else if c == 'k' {
                let w = crate::text::slice_vec(v, 0, k);
                proof {
                    assert(w@ =~= v@.take(k as int));
                    assert(w@.take(w@.len() as int) =~= w@);
                    lemma_boundary_index(w@, k as int);
                }
                (w, b)
            } else if c == 'a' {
                proof {
                    lemma_boundary_index(v@, 0);
                    assert(v@.take(0) =~= Seq::<char>::empty());
                }
                (v.clone(), 0)
            } else if c == 'e' {
                proof { lemma_boundary_index(v@, v@.len() as int); }
                (v.clone(), total)
            } else {
                proof { lemma_boundary_index(v@, k as int); }
                (v.clone(), b)
            }
        },
        _ => {
            proof { lemma_boundary_index(v@, k as int); }
            (v.clone(), b)
        },
    }
}

/// Apply an editing key to a text and a byte cursor.
pub fn edit_text(s: &String, b: usize, code: crate::ui::keys::KeyCode, ctrl: bool) -> (r: (String, usize))
    requires
        is_boundary(s@, b as int),
        byte_len(s@) + 4 <= usize::MAX,
    ensures
        (r.0@, r.1) == spec_edit(s@, b, code, ctrl),
        is_boundary(r.0@, r.1 as int),
        byte_len(r.0@) <= byte_len(s@) + 4,
{
    let v = chars_of(s.as_str());
    let k = char_index_of_byte(&v, b);
    proof { assert(v@.take(v@.len() as int) =~= v@); }
    let total = prefix_byte_len(&v, v.len());
    let (w, nb) = match code {
        crate::ui::keys::KeyCode::Left => edit_left(&v, k, b, total),
        crate::ui::keys::KeyCode::Right => edit_right(&v, k, b, total),
        crate::ui::keys::KeyCode::Backspace => edit_backspace(&v, k, b, total),
        crate::ui::keys::KeyCode::Delete => edit_delete(&v, k, b, total),
        crate::ui::keys::KeyCode::Char(c) => {
            if !ctrl {
                edit_insert(&v, k, b, total, c)
            } else if c == 'w' {
                edit_kill_word(&v, k, b, total)
            } else {
                edit_other(&v, k, b, total, code, ctrl)
            }
        },
        _ => edit_other(&v, k, b, total, code, ctrl),
    };
    (string_of(&w), nb)
}

/// Removing a character does not add bytes.
proof fn lemma_remove_bytes(s: Seq<char>, i: int)
    requires
        0 <= i < s.len(),
    ensures
        byte_len(s.remove(i)) <= byte_len(s),
{
    crate::text::lemma_byte_len_concat(s.take(i), s.skip(i + 1));
    crate::text::lemma_byte_len_concat(s.take(i + 1), s.skip(i + 1));
    assert(s.remove(i) =~= s.take(i) + s.skip(i + 1));
    assert(s =~= s.take(i + 1) + s.skip(i + 1));
    lemma_byte_len_prefix_mono(s, i, i + 1);
}

} // verus!

verus! {

use crate::ui::keys::{KeyCode, KeyEvent};

// ---------------------------------------------------------------------------
// History, scrolling, copy mode and the fullscreen map
// ---------------------------------------------------------------------------

/// Up arrow: recall the previous history entry (the newest when not yet
/// browsing, keeping the live input aside); the cursor goes to its end.
pub open spec fn spec_history_prev(g: GameModel) -> GameModel {
    if g.history.len() == 0 {
        g
    } else {
        let (idx, snap) = match g.history_idx {
            None => ((g.history.len() - 1) as usize, g.input),
            Some(i) => (if i == 0 { 0usize } else { (i - 1) as usize }, g.history_snapshot),
        };
        GameModel {
            history_idx: Some(idx),
            history_snapshot: snap,
            input: g.history[idx as int],
            input_cursor: byte_len(g.history[idx as int]) as usize,
            ..g
        }
    }
}

/// Down arrow: recall the next history entry, or the live input after the
/// newest one.
pub open spec fn spec_history_next(g: GameModel) -> GameModel {
    match g.history_idx {
        None => g,
        Some(i) => if i + 1 >= g.history.len() {
            GameModel {
                history_idx: None,
                input: g.history_snapshot,
                input_cursor: byte_len(g.history_snapshot) as usize,
                ..g
            }
        } else {
            GameModel {
                history_idx: Some((i + 1) as usize),
                input: g.history[i + 1],
                input_cursor: byte_len(g.history[i + 1]) as usize,
                ..g
            }
        },
    }
}

/// Scrolled up by `n`, at most to the first line.
pub open spec fn spec_scroll_up(g: GameModel, n: usize) -> GameModel {
    let max = if g.lines.len() > 0 { g.lines.len() - 1 } else { 0 };
    let up = if g.scroll_offset + n > usize::MAX { usize::MAX as int } else { g.scroll_offset + n };
    GameModel { scroll_offset: (if up < max { up } else { max }) as usize, ..g }
}

/// Scrolled down by `n`, at most to the live view.
pub open spec fn spec_scroll_down(g: GameModel, n: usize) -> GameModel {
    GameModel { scroll_offset: (if g.scroll_offset >= n { g.scroll_offset - n } else { 0 }) as usize, ..g }
}

/// Scrolled to the first line.
pub open spec fn spec_scroll_top(g: GameModel) -> GameModel {
    GameModel { scroll_offset: (if g.lines.len() > 0 { g.lines.len() - 1 } else { 0 }) as usize, ..g }
}

/// Rows a page scroll moves: the output height, at least one.
pub open spec fn page(g: GameModel) -> usize {
    if g.last_output_height > 1 { g.last_output_height } else { 1 }
}

/// The text of a styled line.
pub open spec fn line_text(l: LineV) -> Seq<char>
    decreases l.len(),
{
    if l.len() == 0 {
        seq![]
    } else {
        line_text(l.drop_last()) + l.last().0
    }
}

/// The text copy mode yanks: the bottom-most visible line.
pub open spec fn yank_text(g: GameModel) -> Seq<char> {
    let n = g.lines.len();
    let last = if n > 0 { n - 1 } else { 0 };
    let scroll = if g.scroll_offset < last { g.scroll_offset as int } else { last };
    let idx = if n >= 1 + scroll { n - 1 - scroll } else { 0 };
    if idx < n {
        line_text(g.lines[idx])
    } else {
        seq![]
    }
}

/// Keys in copy mode: Esc / q leave it, arrows and pages scroll, Ctrl+Home /
/// Ctrl+End jump, y yanks the bottom-most visible line and leaves.
pub open spec fn spec_copy_key(g: GameModel, code: KeyCode, ctrl: bool) -> (GameModel, Option<ActionView>) {
    match code {
        KeyCode::Esc => (GameModel { copy_mode: false, ..g }, None),
        KeyCode::Up => (spec_scroll_up(g, 1), None),
        KeyCode::Down => (spec_scroll_down(g, 1), None),
        KeyCode::PageUp => (spec_scroll_up(g, page(g)), None),
        KeyCode::PageDown => (spec_scroll_down(g, page(g)), None),
        KeyCode::Home => if ctrl {
            (spec_scroll_top(g), None)
        } else {
            (g, None)
        },
        KeyCode::End => if ctrl {
            (GameModel { scroll_offset: 0, ..g }, None)
        } else {
            (g, None)
        },
        KeyCode::Char(c) => if c == 'q' {
            (GameModel { copy_mode: false, ..g }, None)
        } else if c == 'y' {
            let t = yank_text(g);
            (GameModel { copy_mode: false, ..g }, if t.len() == 0 { None } else { Some(ActionView::CopyToClipboard(t)) })
        } else {
            (g, None)
        },
        _ => (g, None),
    }
}

/// Keys on the fullscreen map: Esc / F6 close it, arrows pan, PgUp / u and
/// PgDn / d change the z-level, c recentres.
pub open spec fn spec_map_key(g: GameModel, code: KeyCode) -> GameModel {
    let (x, y, z) = g.map_pan;
    match code {
        KeyCode::Esc => GameModel { map_fullscreen: false, ..g },
        KeyCode::F(n) => if n == 6 {
            GameModel { map_fullscreen: false, ..g }
        } else {
            g
        },
        KeyCode::Left => GameModel { map_pan: ((x - 1) as i32, y, z), ..g },
        KeyCode::Right => GameModel { map_pan: ((x + 1) as i32, y, z), ..g },
        KeyCode::Up => GameModel { map_pan: (x, (y - 1) as i32, z), ..g },
        KeyCode::Down => GameModel { map_pan: (x, (y + 1) as i32, z), ..g },
        KeyCode::PageUp => GameModel { map_pan: (x, y, (z + 1) as i32), ..g },
        KeyCode::PageDown => GameModel { map_pan: (x, y, (z - 1) as i32), ..g },
        KeyCode::Char(c) => if c == 'u' {
            GameModel { map_pan: (x, y, (z + 1) as i32), ..g }
        } else if c == 'd' {
            GameModel { map_pan: (x, y, (z - 1) as i32), ..g }
        } else if c == 'c' {
            GameModel { map_pan: (0, 0, 0), ..g }
        } else {
            g
        },
        _ => g,
    }
}

/// The text of a styled line.
fn line_text_of(l: &StyledLine) -> (r: String)
    ensures
        r@ == line_text(line_view(*l)),
{
    let mut out: Vec<char> = Vec::new();
    let mut i: usize = 0;
    while i < l.spans.len()
        invariant
            i <= l.spans@.len(),
            out@ == line_text(line_view(*l).take(i as int)),
        decreases l.spans.len() - i,
    {
        proof {
            assert(line_view(*l).take(i + 1).drop_last() =~= line_view(*l).take(i as int));
        }
        let t = chars_of(l.spans[i].text.as_str());
        out = crate::text::concat_vec(&out, &t);
        i += 1;
    }
    assert(line_view(*l).take(l.spans@.len() as int) =~= line_view(*l));
    string_of(&out)
}

impl GameState {
    /// Recall the previous history entry.
    pub fn history_prev(&mut self)
        requires
            game_wf(old(self)@),
            game_fits(old(self)@),
        ensures
            final(self)@ == spec_history_prev(old(self)@),
            final(self).sidebar.automap == old(self).sidebar.automap,
            game_wf(final(self)@),
    {
        if self.history.len() == 0 {
            return;
        }
        let idx: usize = match self.history_idx {
            None => {
                self.history_snapshot = self.input.clone();
                self.history.len() - 1
            },
            Some(i) => if i == 0 { 0 } else { i - 1 },
        };
        self.history_idx = Some(idx);
        let h = self.history[idx].clone();
        let v = chars_of(h.as_str());
        proof {
            assert(v@ == texts(self.history@)[idx as int]);
            assert(v@.take(v@.len() as int) =~= v@);
        }
        self.input_cursor = prefix_byte_len(&v, v.len());
        self.input = h;
        proof { lemma_boundary_index(v@, v@.len() as int); }
    }

    /// Recall the next history entry, or the live input.
    pub fn history_next(&mut self)
        requires
            game_wf(old(self)@),
            game_fits(old(self)@),
        ensures
            final(self)@ == spec_history_next(old(self)@),
            final(self).sidebar.automap == old(self).sidebar.automap,
            game_wf(final(self)@),
    {
        match self.history_idx {
            None => {},
            Some(i) => {
                if i >= self.history.len() - 1 {
                    self.history_idx = None;
                    let h = self.history_snapshot.clone();
                    let v = chars_of(h.as_str());
                    proof {
                        assert(v@.take(v@.len() as int) =~= v@);
                        lemma_boundary_index(v@, v@.len() as int);
                    }
                    self.input_cursor = prefix_byte_len(&v, v.len());
                    self.input = h;
                } else {
                    let idx = i + 1;
                    self.history_idx = Some(idx);
                    let h = self.history[idx].clone();
                    let v = chars_of(h.as_str());
                    proof {
                        assert(v@ == texts(self.history@)[idx as int]);
                        assert(v@.take(v@.len() as int) =~= v@);
                        lemma_boundary_index(v@, v@.len() as int);
                    }
                    self.input_cursor = prefix_byte_len(&v, v.len());
                    self.input = h;
                }
            },
        }
    }
}

/// Keys in copy mode.
fn handle_copy_mode(state: &mut GameState, key: KeyEvent) -> (r: Option<GameAction>)
    ensures
        (final(state)@, action_view(r)) == spec_copy_key(old(state)@, key.code, key.ctrl),
        final(state).sidebar.automap == old(state).sidebar.automap,
{
    let len = state.lines.len();
    let page_rows = if state.last_output_height > 1 { state.last_output_height } else { 1 };
    match key.code {
        KeyCode::Esc | KeyCode::Char('q') => {
            state.copy_mode = false;
            None
        },
        KeyCode::Up => {
            state.scroll_offset = scrolled_up(state.scroll_offset, 1, len);
            None
        },
        KeyCode::Down => {
            state.scroll_offset = state.scroll_offset.saturating_sub(1);
            None
        },
        KeyCode::PageUp => {
            state.scroll_offset = scrolled_up(state.scroll_offset, page_rows, len);
            None
        },
        KeyCode::PageDown => {
            state.scroll_offset = state.scroll_offset.saturating_sub(page_rows);
            None
        },
        KeyCode::Home => {
            if key.ctrl {
                state.scroll_offset = if len > 0 { len - 1 } else { 0 };
            }
            None
        },
        KeyCode::End => {
            if key.ctrl {
                state.scroll_offset = 0;
            }
            None
        },
        KeyCode::Char('y') => {
            let last = if len > 0 { len - 1 } else { 0 };
            let scroll = if state.scroll_offset < last { state.scroll_offset } else { last };
            let idx = if len >= 1 + scroll { len - 1 - scroll } else { 0 };
            let text = if idx < len {
                proof { assert(lines_view(state.lines@)[idx as int] == line_view(state.lines@[idx as int])); }
                line_text_of(&state.lines[idx])
            } else {
                String::new()
            };
            state.copy_mode = false;
            if text.as_str().is_empty() {
                None
            } else {
                Some(GameAction::CopyToClipboard(text))
            }
        },
        _ => None,
    }
}

/// The scroll offset after scrolling up by `n` over `len` lines.
fn scrolled_up(offset: usize, n: usize, len: usize) -> (r: usize)
    ensures
        r as int == ({
            let max = if len > 0 { len - 1 } else { 0 };
            let up = if offset + n > usize::MAX { usize::MAX as int } else { offset + n };
            if up < max { up } else { max }
        }),
{
    let max = if len > 0 { len - 1 } else { 0 };
    let up = offset.saturating_add(n);
    if up < max { up } else { max }
}

/// Keys on the fullscreen map.
fn handle_map_fullscreen_mode(state: &mut GameState, key: KeyEvent) -> (r: Option<GameAction>)
    requires
        game_fits(old(state)@),
    ensures
        final(state)@ == spec_map_key(old(state)@, key.code),
        r is None,
        final(state).sidebar.automap == old(state).sidebar.automap,
{
    match key.code {
        KeyCode::Esc | KeyCode::F(6) => {
            state.map_fullscreen = false;
        },
        KeyCode::Left => {
            state.map_pan.0 = state.map_pan.0 - 1;
        },
        KeyCode::Right => {
            state.map_pan.0 = state.map_pan.0 + 1;
        },
        KeyCode::Up => {
            state.map_pan.1 = state.map_pan.1 - 1;
        },
        KeyCode::Down => {
            state.map_pan.1 = state.map_pan.1 + 1;
        },
        KeyCode::PageUp | KeyCode::Char('u') => {
            state.map_pan.2 = state.map_pan.2 + 1;
        },
        KeyCode::PageDown | KeyCode::Char('d') => {
            state.map_pan.2 = state.map_pan.2 - 1;
        },
        KeyCode::Char('c') => {
            state.map_pan = (0, 0, 0);
        },
        _ => {},
    }
    None
}

} // verus!

verus! {

use crate::map::{opt_view, spec_dir_name, spec_link_rooms, spec_parse_direction, spec_set_room_position, Direction, RoomView};
use crate::text::{dec_digits, dec_text, split_once, starts_with, trim, trim_end};
use crate::ui::style::parse_i32;

// ---------------------------------------------------------------------------
// Trigger arguments
// ---------------------------------------------------------------------------

/// `p` occurs in `s` at index `i`.
pub open spec fn occurs_at(s: Seq<char>, p: Seq<char>, i: int) -> bool {
    0 <= i && i + p.len() <= s.len() && s.subrange(i, i + p.len()) == p
}

/// The last occurrence of `p` in `s` starting at or before `j`.
pub open spec fn last_occurrence_from(s: Seq<char>, p: Seq<char>, j: int) -> Option<int>
    decreases j + 1,
{
    if j < 0 {
        None
    } else if occurs_at(s, p, j) {
        Some(j)
    } else {
        last_occurrence_from(s, p, j - 1)
    }
}

/// Where `key=` starts in `s` at a word boundary: at the very start, else
/// after the last space followed by it.  A character index.
pub open spec fn spec_find_kv(s: Seq<char>, key: Seq<char>) -> Option<int> {
    let needle = key + "="@;
    if starts_with(s, needle) {
        Some(0)
    } else {
        match last_occurrence_from(s, seq![' '] + needle, s.len() - needle.len() - 1) {
            Some(p) => Some(p + 1),
            None => None,
        }
    }
}

/// The pattern, colour and command of `/trigger add <args>`: `send=CMD`
/// (taken first, it runs to the end and may hold spaces), then
/// `color=NAME` (one word), each at a word boundary; what precedes them is
/// the pattern.
pub open spec fn spec_parse_trigger_args(s: Seq<char>) -> (Seq<char>, Option<Seq<char>>, Option<Seq<char>>) {
    let (r1, send) = match spec_find_kv(s, "send"@) {
        Some(i) => (trim(s.take(i)), Some(trim(s.skip(i + 5)))),
        None => (s, None),
    };
    let (r2, color) = match spec_find_kv(r1, "color"@) {
        Some(i) => {
            let val = first_word(r1.skip(i + 6));
            (trim(r1.take(i)), if val.len() > 0 { Some(val) } else { None })
        },
        None => (r1, None),
    };
    (r2, color, send)
}

/// Whether `p` occurs in `v` at `i`.
fn occurs_at_exec(v: &Vec<char>, p: &Vec<char>, i: usize) -> (b: bool)
    ensures
        b == occurs_at(v@, p@, i as int),
{
    if p.len() > v.len() || i > v.len() - p.len() {
        return false;
    }
    let vlen = v.len();
    let mut k: usize = 0;
    while k < p.len()
        invariant
            k <= p@.len(),
            vlen == v@.len(),
            i + p@.len() <= v@.len(),
            forall|j: int| 0 <= j < k ==> v@[i + j] == p@[j],
        decreases p.len() - k,
    {
        if v[i + k] != p[k] {
            proof {
                assert(v@.subrange(i as int, i + p@.len())[k as int] != p@[k as int]);
            }
            return false;
        }
        k += 1;
    }
    assert(v@.subrange(i as int, i + p@.len()) =~= p@);
    true
}

/// Where `key=` starts in `v` at a word boundary (a character index).
pub fn find_kv(v: &Vec<char>, key: &str) -> (r: Option<usize>)
    ensures
        match r {
            Some(i) => spec_find_kv(v@, key@) == Some(i as int),
            None => spec_find_kv(v@, key@) is None,
        },
{
    let k = chars_of(key);
    let eq = chars_of("=");
    let needle = crate::text::concat_vec(&k, &eq);
    if crate::text::starts_with_vec(v, &needle) {
        return Some(0);
    }
    let mut sp: Vec<char> = Vec::new();
    sp.push(' ');
    let pat = crate::text::concat_vec(&sp, &needle);
    proof {
        assert(pat@ =~= seq![' '] + needle@);
    }
    if needle.len() >= v.len() {
        proof {
            let j = v@.len() - needle@.len() - 1;
            assert(j < 0);
        }
        return None;
    }
    let vlen = v.len();
    let mut j: usize = v.len() - needle.len() - 1;
    loop
        invariant
            vlen == v@.len(),
            j + pat@.len() <= v@.len(),
            pat@ == seq![' '] + needle@,
            spec_find_kv(v@, key@) == (match last_occurrence_from(v@, pat@, j as int) {
                Some(p) => Some(p + 1),
                None => None,
            }),
        decreases j,
    {
        if occurs_at_exec(v, &pat, j) {
            return Some(j + 1);
        }
        if j == 0 {
            proof {
                assert(last_occurrence_from(v@, pat@, -1) is None);
            }
            return None;
        }
        j -= 1;
    }
}

/// Parse the arguments of `/trigger add`.
pub fn parse_trigger_args(s: &str) -> (r: (String, Option<String>, Option<String>))
    ensures
        ({
            let (p, c, snd) = spec_parse_trigger_args(s@);
            r.0@ == p && opt_text(r.1) == c && opt_text(r.2) == snd
        }),
{
    let v = chars_of(s);
    let (r1, send): (Vec<char>, Option<String>) = match find_kv(&v, "send") {
        Some(i) => {
            proof {
                reveal_strlit("send");
                reveal_strlit("=");
                kv_index_bound(v@, "send"@, i as int);
            }
            let head = crate::text::slice_vec(&v, 0, i);
            let tail = crate::text::slice_vec(&v, i + 5, v.len());
            proof {
                assert(head@ =~= v@.take(i as int));
                assert(tail@ =~= v@.skip(i + 5));
            }
            (crate::text::trim_vec(&head), Some(string_of(&crate::text::trim_vec(&tail))))
        },
        None => (v, None),
    };
    let (r2, color): (Vec<char>, Option<String>) = match find_kv(&r1, "color") {
        Some(i) => {
            proof {
                reveal_strlit("color");
                reveal_strlit("=");
                kv_index_bound(r1@, "color"@, i as int);
            }
            let head = crate::text::slice_vec(&r1, 0, i);
            let tail = crate::text::slice_vec(&r1, i + 6, r1.len());
            proof {
                assert(head@ =~= r1@.take(i as int));
                assert(tail@ =~= r1@.skip(i + 6));
            }
            let ws = crate::text::split_words(&tail);
            let val: Vec<char> = if ws.len() > 0 {
                proof { assert(ws@[0]@ == words(tail@)[0]); }
                ws[0].clone()
            } else {
                Vec::new()
            };
            let color = if val.len() > 0 { Some(string_of(&val)) } else { None };
            (crate::text::trim_vec(&head), color)
        },
        None => (r1, None),
    };
    (string_of(&r2), color, send)
}

/// A `key=` match leaves room for the `=` and what follows.
proof fn kv_index_bound(s: Seq<char>, key: Seq<char>, i: int)
    requires
        spec_find_kv(s, key) == Some(i),
    ensures
        0 <= i,
        i + key.len() + 1 <= s.len(),
    decreases s.len(),
{
    let needle = key + "="@;
    reveal_strlit("=");
    if !starts_with(s, needle) {
        let j0 = s.len() - needle.len() - 1;
        lemma_last_occurrence_bound(s, seq![' '] + needle, j0);
    }
}

proof fn lemma_last_occurrence_bound(s: Seq<char>, p: Seq<char>, j: int)
    ensures
        last_occurrence_from(s, p, j) matches Some(k) ==> 0 <= k && k + p.len() <= s.len(),
    decreases j + 1,
{
    if j >= 0 && !occurs_at(s, p, j) {
        lemma_last_occurrence_bound(s, p, j - 1);
    }
}

} // verus!

verus! {

// ---------------------------------------------------------------------------
// Meta-commands
// ---------------------------------------------------------------------------

pub const MSG_NO_ALIASES: &'static str = "No aliases defined.  Usage: /alias <name> <expansion>";
pub const MSG_ALIASES: &'static str = "Aliases:";
pub const MSG_UNALIAS_USAGE: &'static str = "Usage: /unalias <name>";
pub const MSG_NO_TRIGGERS: &'static str = "No triggers defined.  Usage: /trigger add <pattern> [color=NAME] [send=CMD]";
pub const MSG_TRIGGERS: &'static str = "Triggers:";
pub const MSG_TRIGGER_ADD_USAGE: &'static str = "Usage: /trigger add <pattern> [color=NAME] [send=CMD]";
pub const MSG_TRIGGER_DEL_USAGE: &'static str = "Usage: /trigger del <id>";
pub const MSG_TRIGGER_USAGE: &'static str = "Usage: /trigger list | /trigger add <pattern> [color=NAME] [send=CMD] | /trigger del <id>";
pub const MSG_NO_ROOM: &'static str = "Map: no current room yet.";
pub const MSG_SETPOS_USAGE: &'static str = "Usage: /map setpos <room_id|current> <x> <y> [z]";
pub const MSG_FULLSCREEN_ON: &'static str = "Map fullscreen enabled.  Arrows pan, u/d z-level, c center, Esc/F6 close.";
pub const MSG_FULLSCREEN_OFF: &'static str = "Map fullscreen disabled.";
pub const MSG_LINK_USAGE: &'static str = "Usage: /map link <from_id|current> <dir> <to_id>";
pub const MSG_BAD_DIRECTION: &'static str = "Direction must be one of n/s/e/w/u/d.";
pub const MSG_MAP_USAGE: &'static str = "Usage: /map [show|fullscreen|setpos <room_id|current> <x> <y> [z]|link <from_id|current> <dir> <to_id>]";
pub const MSG_AVAILABLE: &'static str = "  Available: /alias, /unalias, /trigger, /sidebar, /map, /disconnect, /quit";

/// What a meta-command does besides printing messages and returning an
/// action.
pub enum MetaEffect {
    Nothing,
    ToggleRight,
    SetPosition(Seq<char>, i32, i32, i32),
    Link(Seq<char>, Direction, Seq<char>),
    ToggleFullscreen,
}

/// The outcome of a meta-command: messages, effect, action.
pub struct MetaOut {
    pub msgs: Seq<Seq<char>>,
    pub effect: MetaEffect,
    pub action: Option<ActionView>,
}

/// A command word and its arguments: split at the first space, arguments
/// trimmed; no arguments when there is no space.
pub open spec fn cmd_and_args(s: Seq<char>) -> (Seq<char>, Seq<char>) {
    match split_once(s, ' ') {
        Some((c, a)) => (c, trim(a)),
        None => (s, seq![]),
    }
}

/// `shown` or `hidden`.
pub open spec fn shown_hidden(vis: bool) -> Seq<char> {
    if vis {
        "shown"@
    } else {
        "hidden"@
    }
}

/// A room named in a map command: `current` names the current room (or is
/// kept as is when there is none).
pub open spec fn room_ref(token: Seq<char>, cur: Option<Seq<char>>) -> Seq<char> {
    if token == "current"@ {
        match cur {
            Some(c) => c,
            None => "current"@,
        }
    } else {
        token
    }
}

/// `/map` and its sub-commands.
pub open spec fn spec_map_cmd(
    fullscreen: bool,
    rooms: Map<Seq<char>, RoomView>,
    cur: Option<Seq<char>>,
    args: Seq<char>,
) -> MetaOut {
    let (sub, rest) = cmd_and_args(args);
    if sub.len() == 0 || sub == "show"@ {
        let msg = match cur {
            Some(id) => if rooms.contains_key(id) {
                let r = rooms[id];
                "Map current: id="@ + r.id + "  name='"@ + r.name + "'  pos=("@ + dec_text(r.x as int) + ", "@
                    + dec_text(r.y as int) + ", "@ + dec_text(r.z as int) + ")  exits="@ + dec_digits(r.exits.dom().len())
                    + " "@
            } else {
                MSG_NO_ROOM@
            },
            None => MSG_NO_ROOM@,
        };
        MetaOut { msgs: seq![msg], effect: MetaEffect::Nothing, action: None }
    } else if sub == "setpos"@ {
        let parts = words(rest);
        if parts.len() < 3 {
            MetaOut { msgs: seq![MSG_SETPOS_USAGE@], effect: MetaEffect::Nothing, action: None }
        } else {
            let rid = room_ref(parts[0], cur);
            let z = if parts.len() >= 4 { parse_i32(parts[3]) } else { Some(0i32) };
            match (parse_i32(parts[1]), parse_i32(parts[2]), z) {
                (Some(x), Some(y), Some(z)) => MetaOut {
                    msgs: seq![
                        "Map: set "@ + rid + " -> ("@ + dec_text(x as int) + ", "@ + dec_text(y as int) + ", "@
                            + dec_text(z as int) + ")"@,
                    ],
                    effect: MetaEffect::SetPosition(rid, x, y, z),
                    action: None,
                },
                _ => MetaOut { msgs: seq![MSG_SETPOS_USAGE@], effect: MetaEffect::Nothing, action: None },
            }
        }
    } else if sub == "full"@ || sub == "fullscreen"@ || sub == "fs"@ {
        MetaOut {
            msgs: seq![if !fullscreen { MSG_FULLSCREEN_ON@ } else { MSG_FULLSCREEN_OFF@ }],
            effect: MetaEffect::ToggleFullscreen,
            action: None,
        }
    } else if sub == "link"@ {
        let parts = words(rest);
        if parts.len() != 3 {
            MetaOut { msgs: seq![MSG_LINK_USAGE@], effect: MetaEffect::Nothing, action: None }
        } else {
            let from = room_ref(parts[0], cur);
            match spec_parse_direction(parts[1]) {
                Some(d) => MetaOut {
                    msgs: seq!["Map: linked "@ + from + " --"@ + spec_dir_name(d) + "--> "@ + parts[2]],
                    effect: MetaEffect::Link(from, d, parts[2]),
                    action: None,
                },
                None => MetaOut { msgs: seq![MSG_BAD_DIRECTION@], effect: MetaEffect::Nothing, action: None },
            }
        }
    } else {
        MetaOut { msgs: seq![MSG_MAP_USAGE@], effect: MetaEffect::Nothing, action: None }
    }
}

/// The line listing an alias.
pub open spec fn alias_msg(a: Alias) -> Seq<char> {
    "  "@ + a.name@ + " \u{2192} "@ + a.expansion@
}

/// `/alias`: list, show one, or define.
pub open spec fn spec_alias_cmd(aliases: Seq<Alias>, args: Seq<char>) -> MetaOut {
    if args.len() == 0 {
        if aliases.len() == 0 {
            MetaOut { msgs: seq![MSG_NO_ALIASES@], effect: MetaEffect::Nothing, action: None }
        } else {
            MetaOut {
                msgs: seq![MSG_ALIASES@] + aliases.map_values(|a: Alias| alias_msg(a)),
                effect: MetaEffect::Nothing,
                action: None,
            }
        }
    } else {
        match split_once(args, ' ') {
            None => MetaOut {
                msgs: seq![
                    match first_alias(aliases, args) {
                        Some(i) => alias_msg(aliases[i]),
                        None => "No alias named '"@ + args + "'."@,
                    },
                ],
                effect: MetaEffect::Nothing,
                action: None,
            },
            Some((name, expansion)) => MetaOut {
                msgs: seq![],
                effect: MetaEffect::Nothing,
                action: Some(ActionView::AddAlias(name, expansion)),
            },
        }
    }
}

/// The short id shown in trigger lists: the first 8 bytes.
pub open spec fn id_short(id: Seq<char>) -> Seq<char> {
    id.take(cover_from(id, 8, 0))
}

/// The line listing a trigger.
pub open spec fn trigger_msg(t: ActiveTrigger) -> Seq<char> {
    "  ["@ + id_short(t.id@) + "]  /"@ + t.pattern@ + "/ send="@ + match t.send {
        Some(s) => s@,
        None => "-"@,
    }
}

/// `/trigger`: list, add or delete.
pub open spec fn spec_trigger_cmd(triggers: Seq<ActiveTrigger>, args: Seq<char>) -> MetaOut {
    let (sub, rest) = cmd_and_args(args);
    if sub.len() == 0 || sub == "list"@ {
        if triggers.len() == 0 {
            MetaOut { msgs: seq![MSG_NO_TRIGGERS@], effect: MetaEffect::Nothing, action: None }
        } else {
            MetaOut {
                msgs: seq![MSG_TRIGGERS@] + triggers.map_values(|t: ActiveTrigger| trigger_msg(t)),
                effect: MetaEffect::Nothing,
                action: None,
            }
        }
    } else if sub == "add"@ {
        if rest.len() == 0 {
            MetaOut { msgs: seq![MSG_TRIGGER_ADD_USAGE@], effect: MetaEffect::Nothing, action: None }
        } else {
            let (p, c, s) = spec_parse_trigger_args(rest);
            MetaOut { msgs: seq![], effect: MetaEffect::Nothing, action: Some(ActionView::AddTrigger(p, c, s)) }
        }
    } else if sub == "del"@ || sub == "rm"@ || sub == "remove"@ || sub == "delete"@ {
        if rest.len() == 0 {
            MetaOut { msgs: seq![MSG_TRIGGER_DEL_USAGE@], effect: MetaEffect::Nothing, action: None }
        } else {
            MetaOut { msgs: seq![], effect: MetaEffect::Nothing, action: Some(ActionView::RemoveTrigger(rest)) }
        }
    } else {
        MetaOut { msgs: seq![MSG_TRIGGER_USAGE@], effect: MetaEffect::Nothing, action: None }
    }
}

/// A meta-command line (starting with `/`): the command word compared after
/// `str::to_lowercase`, its arguments as written.
pub open spec fn spec_meta(
    g: GameModel,
    rooms: Map<Seq<char>, RoomView>,
    cur: Option<Seq<char>>,
    input: Seq<char>,
) -> MetaOut {
    let (cmd, args) = cmd_and_args(input.drop_first());
    spec_meta_word(g, rooms, cur, crate::text::unicode_lower(cmd), args, input)
}

/// A meta-command by its lowercased command word `c` and its argument text
/// `args`; `input` is the whole line, quoted when the word is unknown.
pub open spec fn spec_meta_word(
    g: GameModel,
    rooms: Map<Seq<char>, RoomView>,
    cur: Option<Seq<char>>,
    c: Seq<char>,
    args: Seq<char>,
    input: Seq<char>,
) -> MetaOut {
    if c == "disconnect"@ || c == "disc"@ {
        MetaOut { msgs: seq![], effect: MetaEffect::Nothing, action: Some(ActionView::Disconnect) }
    } else if c == "quit"@ || c == "exit"@ {
        MetaOut { msgs: seq![], effect: MetaEffect::Nothing, action: Some(ActionView::Quit) }
    } else if c == "sidebar"@ || c == "sb"@ {
        if args == "right"@ || args == "r"@ {
            MetaOut {
                msgs: seq!["Right sidebar "@ + shown_hidden(crate::ui::sidebar::spec_toggle_right(g.sidebar).right_visible) + "."@],
                effect: MetaEffect::ToggleRight,
                action: Some(ActionView::SaveSidebarLayout),
            }
        } else {
            MetaOut {
                msgs: seq!["Right sidebar: "@ + shown_hidden(g.sidebar.right_visible) + "  /sidebar right to toggle"@],
                effect: MetaEffect::Nothing,
                action: None,
            }
        }
    } else if c == "map"@ {
        spec_map_cmd(g.map_fullscreen, rooms, cur, args)
    } else if c == "alias"@ || c == "al"@ {
        spec_alias_cmd(g.aliases, args)
    } else if c == "unalias"@ || c == "unal"@ {
        if args.len() == 0 {
            MetaOut { msgs: seq![MSG_UNALIAS_USAGE@], effect: MetaEffect::Nothing, action: None }
        } else {
            MetaOut { msgs: seq![], effect: MetaEffect::Nothing, action: Some(ActionView::RemoveAlias(args)) }
        }
    } else if c == "trigger"@ || c == "trig"@ {
        spec_trigger_cmd(g.triggers, args)
    } else {
        MetaOut { msgs: seq!["Unknown command: "@ + input, MSG_AVAILABLE@], effect: MetaEffect::Nothing, action: None }
    }
}

/// The scrollback after printing client messages in order.
pub open spec fn push_msgs(lines: Seq<LineV>, msgs: Seq<Seq<char>>) -> Seq<LineV>
    decreases msgs.len(),
{
    if msgs.len() == 0 {
        lines
    } else {
        scroll_push(push_msgs(lines, msgs.drop_last()), system_line(msgs.last()))
    }
}

/// The game screen and automap rooms after a meta-command's outcome.
pub open spec fn apply_meta(g: GameModel, rooms: Map<Seq<char>, RoomView>, out: MetaOut) -> (GameModel, Map<Seq<char>, RoomView>) {
    let g1 = GameModel { lines: push_msgs(g.lines, out.msgs), ..g };
    match out.effect {
        MetaEffect::Nothing => (g1, rooms),
        MetaEffect::ToggleRight => (GameModel { sidebar: crate::ui::sidebar::spec_toggle_right(g.sidebar), ..g1 }, rooms),
        MetaEffect::SetPosition(id, x, y, z) => (g1, spec_set_room_position(rooms, id, x, y, z)),
        MetaEffect::Link(f, d, t) => (g1, spec_link_rooms(rooms, f, d, t)),
        MetaEffect::ToggleFullscreen => (
            GameModel {
                map_fullscreen: !g.map_fullscreen,
                map_pan: if !g.map_fullscreen { (0i32, 0i32, 0i32) } else { g.map_pan },
                ..g1
            },
            rooms,
        ),
    }
}

} // verus!

verus! {

/// Whether `v` holds the text of `s`.
fn is_lit(v: &Vec<char>, s: &str) -> (b: bool)
    ensures
        b == (v@ == s@),
{
    let l = chars_of(s);
    crate::text::chars_eq(v, &l)
}

/// `a` followed by the text of `s`.
fn cat(a: &Vec<char>, s: &str) -> (r: Vec<char>)
    ensures
        r@ == a@ + s@,
{
    let b = chars_of(s);
    crate::text::concat_vec(a, &b)
}

/// `a` followed by `b`.
fn cat2(a: &Vec<char>, b: &Vec<char>) -> (r: Vec<char>)
    ensures
        r@ == a@ + b@,
{
    crate::text::concat_vec(a, b)
}

/// Print a client message.
fn print(lines: &mut VecDeque<StyledLine>, msg: &Vec<char>)
    ensures
        lines_view(final(lines)@) == push_msgs(lines_view(old(lines)@), seq![msg@]),
{
    let ghost before = lines_view(lines@);
    let m = string_of(msg);
    let l = system_styled_line(m.as_str());
    push_capped(lines, l);
    proof {
        assert(seq![msg@].drop_last() =~= Seq::<Seq<char>>::empty());
        assert(push_msgs(before, Seq::<Seq<char>>::empty()) == before);
        assert(seq![msg@].last() == msg@);
    }
}

/// Print a client message given as a literal.
fn print_lit(lines: &mut VecDeque<StyledLine>, msg: &str)
    ensures
        lines_view(final(lines)@) == push_msgs(lines_view(old(lines)@), seq![msg@]),
{
    let v = chars_of(msg);
    print(lines, &v);
}

/// Printing two batches of messages is printing them together.
proof fn lemma_push_msgs_concat(lines: Seq<LineV>, a: Seq<Seq<char>>, b: Seq<Seq<char>>)
    ensures
        push_msgs(push_msgs(lines, a), b) == push_msgs(lines, a + b),
    decreases b.len(),
{
    if b.len() == 0 {
        assert(a + b =~= a);
    } else {
        lemma_push_msgs_concat(lines, a, b.drop_last());
        assert((a + b).drop_last() =~= a + b.drop_last());
    }
}

/// A command word and its arguments.
fn cmd_and_args_vec(s: &Vec<char>) -> (r: (Vec<char>, Vec<char>))
    ensures
        (r.0@, r.1@) == cmd_and_args(s@),
{
    match crate::text::split_once_vec(s, ' ') {
        Some((c, a)) => (c, crate::text::trim_vec(&a)),
        None => (s.clone(), Vec::new()),
    }
}

/// The room a map command names.
fn room_ref_exec(token: &Vec<char>, cur: &Option<String>) -> (r: Vec<char>)
    ensures
        r@ == room_ref(token@, opt_view(*cur)),
{
    if is_lit(token, "current") {
        match cur {
            Some(c) => chars_of(c.as_str()),
            None => chars_of("current"),
        }
    } else {
        token.clone()
    }
}

/// `/map` and its sub-commands.
fn meta_map(state: &mut GameState, args: &Vec<char>) -> (r: Option<GameAction>)
    ensures
        ({
            let out = spec_map_cmd(
                old(state).map_fullscreen,
                old(state).sidebar.automap.rooms@,
                opt_view(old(state).sidebar.automap.current_room_id),
                args@,
            );
            let (g, rooms) = apply_meta(old(state)@, old(state).sidebar.automap.rooms@, out);
            &&& final(state)@ == g
            &&& final(state).sidebar.automap.rooms@ == rooms
            &&& action_view(r) == out.action
        }),
        final(state).sidebar.automap.current_room_id == old(state).sidebar.automap.current_room_id,
{
    let (sub, rest) = cmd_and_args_vec(args);
    if sub.len() == 0 || is_lit(&sub, "show") {
        let msg: Vec<char> = match state.sidebar.automap.current_room() {
            Some(room) => {
                let m = cat(&chars_of("Map current: id="), room.id.as_str());
                let m = cat(&m, "  name='");
                let m = cat(&m, room.name.as_str());
                let m = cat(&m, "'  pos=(");
                let m = cat2(&m, &crate::text::i64_text(room.x as i64));
                let m = cat(&m, ", ");
                let m = cat2(&m, &crate::text::i64_text(room.y as i64));
                let m = cat(&m, ", ");
                let m = cat2(&m, &crate::text::i64_text(room.z as i64));
                let m = cat(&m, ")  exits=");
                let m = cat2(&m, &crate::text::u64_text(room.exits.len() as u64));
                cat(&m, " ")
            },
            None => chars_of(MSG_NO_ROOM),
        };
        print(&mut state.lines, &msg);
        None
    } else if is_lit(&sub, "setpos") {
        let parts = crate::text::split_words(&rest);
        if parts.len() < 3 {
            print_lit(&mut state.lines, MSG_SETPOS_USAGE);
            return None;
        }
        proof {
            assert(parts@[0]@ == words(rest@)[0]);
            assert(parts@[1]@ == words(rest@)[1]);
            assert(parts@[2]@ == words(rest@)[2]);
        }
        let rid = room_ref_exec(&parts[0], &state.sidebar.automap.current_room_id);
        let x = crate::ui::style::parse_i32_chars(&parts[1]);
        let y = crate::ui::style::parse_i32_chars(&parts[2]);
        let z = if parts.len() >= 4 {
            proof { assert(parts@[3]@ == words(rest@)[3]); }
            crate::ui::style::parse_i32_chars(&parts[3])
        } else {
            Some(0i32)
        };
        match (x, y, z) {
            (Some(x), Some(y), Some(z)) => {
                let rs = string_of(&rid);
                state.sidebar.map_set_position(rs.as_str(), x, y, z);
                let m = cat(&chars_of("Map: set "), rs.as_str());
                let m = cat(&m, " -> (");
                let m = cat2(&m, &crate::text::i64_text(x as i64));
                let m = cat(&m, ", ");
                let m = cat2(&m, &crate::text::i64_text(y as i64));
                let m = cat(&m, ", ");
                let m = cat2(&m, &crate::text::i64_text(z as i64));
                let m = cat(&m, ")");
                print(&mut state.lines, &m);
            },
            _ => {
                print_lit(&mut state.lines, MSG_SETPOS_USAGE);
            },
        }
        None
    } else if is_lit(&sub, "full") || is_lit(&sub, "fullscreen") || is_lit(&sub, "fs") {
        state.map_fullscreen = !state.map_fullscreen;
        if state.map_fullscreen {
            state.map_pan = (0, 0, 0);
            print_lit(&mut state.lines, MSG_FULLSCREEN_ON);
        } else {
            print_lit(&mut state.lines, MSG_FULLSCREEN_OFF);
        }
        None
    } else if is_lit(&sub, "link") {
        let parts = crate::text::split_words(&rest);
        if parts.len() != 3 {
            print_lit(&mut state.lines, MSG_LINK_USAGE);
            return None;
        }
        proof {
            assert(parts@[0]@ == words(rest@)[0]);
            assert(parts@[1]@ == words(rest@)[1]);
            assert(parts@[2]@ == words(rest@)[2]);
        }
        let from = room_ref_exec(&parts[0], &state.sidebar.automap.current_room_id);
        let d_text = string_of(&parts[1]);
        match Direction::parse(d_text.as_str()) {
            None => {
                print_lit(&mut state.lines, MSG_BAD_DIRECTION);
                None
            },
            Some(dir) => {
                let fs = string_of(&from);
                let ts = string_of(&parts[2]);
                state.sidebar.map_link_rooms(fs.as_str(), dir, ts.as_str());
                let m = cat(&chars_of("Map: linked "), fs.as_str());
                let m = cat(&m, " --");
                let m = cat(&m, dir.as_str());
                let m = cat(&m, "--> ");
                let m = cat(&m, ts.as_str());
                print(&mut state.lines, &m);
                None
            },
        }
    } else {
        print_lit(&mut state.lines, MSG_MAP_USAGE);
        None
    }
}

} // verus!

verus! {

/// `/alias`: list, show one, or define.
fn meta_alias(state: &mut GameState, args: &Vec<char>) -> (r: Option<GameAction>)
    ensures
        ({
            let out = spec_alias_cmd(old(state).aliases@, args@);
            let (g, rooms) = apply_meta(old(state)@, old(state).sidebar.automap.rooms@, out);
            &&& final(state)@ == g
            &&& action_view(r) == out.action
        }),
        final(state).sidebar.automap == old(state).sidebar.automap,
{
    if args.len() == 0 {
        if state.aliases.len() == 0 {
            print_lit(&mut state.lines, MSG_NO_ALIASES);
        } else {
            let ghost l0 = lines_view(state.lines@);
            print_lit(&mut state.lines, MSG_ALIASES);
            let ghost all = state.aliases@.map_values(|a: Alias| alias_msg(a));
            let mut i: usize = 0;
            while i < state.aliases.len()
                invariant
                    i <= state.aliases@.len(),
                    state.aliases == old(state).aliases,
                    state.sidebar == old(state).sidebar,
                    all == state.aliases@.map_values(|a: Alias| alias_msg(a)),
                    lines_view(state.lines@) == push_msgs(l0, seq![MSG_ALIASES@] + all.take(i as int)),
                    state@ == (GameModel { lines: lines_view(state.lines@), ..old(state)@ }),
                decreases state.aliases.len() - i,
            {
                let ghost before = lines_view(state.lines@);
                let a = &state.aliases[i];
                let m = cat(&chars_of("  "), a.name.as_str());
                let m = cat(&m, " \u{2192} ");
                let m = cat(&m, a.expansion.as_str());
                print(&mut state.lines, &m);
                proof {
                    lemma_push_msgs_concat(l0, seq![MSG_ALIASES@] + all.take(i as int), seq![m@]);
                    assert(seq![MSG_ALIASES@] + all.take(i as int) + seq![m@] =~= seq![MSG_ALIASES@] + all.take(i + 1));
                }
                i += 1;
            }
            assert(all.take(state.aliases@.len() as int) =~= all);
        }
        None
    } else {
        match crate::text::split_once_vec(args, ' ') {
            None => {
                let m = match find_alias(&state.aliases, args) {
                    Some(i) => {
                        let a = &state.aliases[i];
                        let m = cat(&chars_of("  "), a.name.as_str());
                        let m = cat(&m, " \u{2192} ");
                        cat(&m, a.expansion.as_str())
                    },
                    None => {
                        let m = cat2(&chars_of("No alias named '"), args);
                        cat(&m, "'.")
                    },
                };
                print(&mut state.lines, &m);
                None
            },
            Some((name, expansion)) => Some(GameAction::AddAlias { name: string_of(&name), expansion: string_of(&expansion) }),
        }
    }
}

/// The short id of a trigger: its first 8 bytes.
fn id_short_of(id: &String) -> (r: Vec<char>)
    requires
        byte_len(id@) <= usize::MAX,
    ensures
        r@ == id_short(id@),
{
    let v = chars_of(id.as_str());
    let k = cover_index(&v, 8);
    crate::text::slice_vec(&v, 0, k)
}

/// `/trigger`: list, add or delete.
fn meta_trigger(state: &mut GameState, args: &Vec<char>) -> (r: Option<GameAction>)
    requires
        forall|i: int| 0 <= i < old(state).triggers@.len() ==> byte_len(#[trigger] old(state).triggers@[i].id@) <= usize::MAX,
    ensures
        ({
            let out = spec_trigger_cmd(old(state).triggers@, args@);
            let (g, rooms) = apply_meta(old(state)@, old(state).sidebar.automap.rooms@, out);
            &&& final(state)@ == g
            &&& action_view(r) == out.action
        }),
        final(state).sidebar.automap == old(state).sidebar.automap,
{
    let (sub, rest) = cmd_and_args_vec(args);
    if sub.len() == 0 || is_lit(&sub, "list") {
        if state.triggers.len() == 0 {
            print_lit(&mut state.lines, MSG_NO_TRIGGERS);
        } else {
            let ghost l0 = lines_view(state.lines@);
            print_lit(&mut state.lines, MSG_TRIGGERS);
            let ghost all = state.triggers@.map_values(|t: ActiveTrigger| trigger_msg(t));
            let mut i: usize = 0;
            while i < state.triggers.len()
                invariant
                    i <= state.triggers@.len(),
                    state.triggers == old(state).triggers,
                    forall|j: int| 0 <= j < state.triggers@.len() ==> byte_len(#[trigger] state.triggers@[j].id@) <= usize::MAX,
                    all == state.triggers@.map_values(|t: ActiveTrigger| trigger_msg(t)),
                    lines_view(state.lines@) == push_msgs(l0, seq![MSG_TRIGGERS@] + all.take(i as int)),
                    state@ == (GameModel { lines: lines_view(state.lines@), ..old(state)@ }),
                    state.sidebar == old(state).sidebar,
                decreases state.triggers.len() - i,
            {
                let t = &state.triggers[i];
                let m = cat2(&chars_of("  ["), &id_short_of(&t.id));
                let m = cat(&m, "]  /");
                let m = cat(&m, t.pattern.as_str());
                let m = cat(&m, "/ send=");
                let m = match &t.send {
                    Some(s) => cat(&m, s.as_str()),
                    None => cat(&m, "-"),
                };
                print(&mut state.lines, &m);
                proof {
                    lemma_push_msgs_concat(l0, seq![MSG_TRIGGERS@] + all.take(i as int), seq![m@]);
                    assert(seq![MSG_TRIGGERS@] + all.take(i as int) + seq![m@] =~= seq![MSG_TRIGGERS@] + all.take(i + 1));
                }
                i += 1;
            }
            assert(all.take(state.triggers@.len() as int) =~= all);
        }
        None
    } else if is_lit(&sub, "add") {
        if rest.len() == 0 {
            print_lit(&mut state.lines, MSG_TRIGGER_ADD_USAGE);
            None
        } else {
            let rs = string_of(&rest);
            let (pattern, color, send) = parse_trigger_args(rs.as_str());
            Some(GameAction::AddTrigger { pattern, color, send })
        }
    } else if is_lit(&sub, "del") || is_lit(&sub, "rm") || is_lit(&sub, "remove") || is_lit(&sub, "delete") {
        if rest.len() == 0 {
            print_lit(&mut state.lines, MSG_TRIGGER_DEL_USAGE);
            None
        } else {
            Some(GameAction::RemoveTrigger(string_of(&rest)))
        }
    } else {
        print_lit(&mut state.lines, MSG_TRIGGER_USAGE);
        None
    }
}

} // verus!

verus! {

/// The ids of the triggers fit the machine.
pub open spec fn trigger_ids_fit(ts: Seq<ActiveTrigger>) -> bool {
    forall|i: int| 0 <= i < ts.len() ==> byte_len(#[trigger] ts[i].id@) <= usize::MAX
}

impl GameState {
    /// Run a meta-command (a line starting with `/`): `/disconnect`,
    /// `/quit`, `/sidebar`, `/map`, `/alias`, `/unalias`, `/trigger`; see
    /// `spec_meta`.
    pub fn handle_meta_command(&mut self, input: &str) -> (r: Option<GameAction>)
        requires
            input@.len() > 0,
            input@[0] == '/',
            trigger_ids_fit(old(self).triggers@),
        ensures
            ({
                let out = spec_meta(
                    old(self)@,
                    old(self).sidebar.automap.rooms@,
                    opt_view(old(self).sidebar.automap.current_room_id),
                    input@,
                );
                let (g, rooms) = apply_meta(old(self)@, old(self).sidebar.automap.rooms@, out);
                &&& final(self)@ == g
                &&& final(self).sidebar.automap.rooms@ == rooms
                &&& action_view(r) == out.action
            }),
            final(self).sidebar.automap.current_room_id == old(self).sidebar.automap.current_room_id,
    {
        let v = chars_of(input);
        let stripped = crate::text::slice_vec(&v, 1, v.len());
        assert(stripped@ =~= input@.drop_first());
        let (cmd, args) = cmd_and_args_vec(&stripped);
        let cs = string_of(&cmd);
        let lower = crate::text::to_lowercase(cs.as_str());
        let a = string_of(&args);
        self.run_meta_word(lower.as_str(), a.as_str(), input)
    }

    /// Run a meta-command given its lowercased command word and its
    /// argument text (see `spec_meta_word`); `input` is the whole line,
    /// quoted back when the word is unknown.
    pub fn run_meta_word(&mut self, word: &str, args: &str, input: &str) -> (r: Option<GameAction>)
        requires
            trigger_ids_fit(old(self).triggers@),
        ensures
            ({
                let out = spec_meta_word(
                    old(self)@,
                    old(self).sidebar.automap.rooms@,
                    opt_view(old(self).sidebar.automap.current_room_id),
                    word@,
                    args@,
                    input@,
                );
                let (g, rooms) = apply_meta(old(self)@, old(self).sidebar.automap.rooms@, out);
                &&& final(self)@ == g
                &&& final(self).sidebar.automap.rooms@ == rooms
                &&& action_view(r) == out.action
            }),
            final(self).sidebar.automap.current_room_id == old(self).sidebar.automap.current_room_id,
    {
        let c = chars_of(word);
        let args = chars_of(args);
        if is_lit(&c, "disconnect") || is_lit(&c, "disc") {
            proof { assert(push_msgs(self@.lines, Seq::<Seq<char>>::empty()) == self@.lines); }
            Some(GameAction::Disconnect)
        } else if is_lit(&c, "quit") || is_lit(&c, "exit") {
            proof { assert(push_msgs(self@.lines, Seq::<Seq<char>>::empty()) == self@.lines); }
            Some(GameAction::Quit)
        } else if is_lit(&c, "sidebar") || is_lit(&c, "sb") {
            if is_lit(&args, "right") || is_lit(&args, "r") {
                self.sidebar.toggle_right();
                let m = cat(&chars_of("Right sidebar "), if self.sidebar.layout.right_visible { "shown" } else { "hidden" });
                let m = cat(&m, ".");
                print(&mut self.lines, &m);
                Some(GameAction::SaveSidebarLayout)
            } else {
                let m = cat(&chars_of("Right sidebar: "), if self.sidebar.layout.right_visible { "shown" } else { "hidden" });
                let m = cat(&m, "  /sidebar right to toggle");
                print(&mut self.lines, &m);
                None
            }
        } else if is_lit(&c, "map") {
            meta_map(self, &args)
        } else if is_lit(&c, "alias") || is_lit(&c, "al") {
            meta_alias(self, &args)
        } else if is_lit(&c, "unalias") || is_lit(&c, "unal") {
            if args.len() == 0 {
                print_lit(&mut self.lines, MSG_UNALIAS_USAGE);
                None
            } else {
                proof { assert(push_msgs(self@.lines, Seq::<Seq<char>>::empty()) == self@.lines); }
                Some(GameAction::RemoveAlias(string_of(&args)))
            }
        } else if is_lit(&c, "trigger") || is_lit(&c, "trig") {
            meta_trigger(self, &args)
        } else {
            let ghost l0 = self@.lines;
            let m = cat(&chars_of("Unknown command: "), input);
            print(&mut self.lines, &m);
            print_lit(&mut self.lines, MSG_AVAILABLE);
            proof {
                lemma_push_msgs_concat(l0, seq![m@], seq![MSG_AVAILABLE@]);
                assert(seq![m@] + seq![MSG_AVAILABLE@] =~= seq![m@, MSG_AVAILABLE@]);
            }
            None
        }
    }
}

} // verus!

verus! {

use crate::ui::sidebar::{has_right_panels, spec_focus_next, spec_sidebar_key, spec_toggle_right, SidebarKeyResult};

// ---------------------------------------------------------------------------
// Confirming the input, and the key handler
// ---------------------------------------------------------------------------

/// Enter: the input (trailing white space removed) is cleared and, unless
/// empty, recorded in the history (when it differs from the last entry);
/// a `/` line runs as a meta-command, any other line is alias-expanded,
/// echoed, and sent.
pub open spec fn spec_confirm(
    g: GameModel,
    rooms: Map<Seq<char>, RoomView>,
    cur: Option<Seq<char>>,
) -> (GameModel, Map<Seq<char>, RoomView>, Option<ActionView>) {
    let raw = trim_end(g.input);
    let g0 = GameModel { input: seq![], input_cursor: 0, history_idx: None, history_snapshot: seq![], ..g };
    if raw.len() == 0 {
        (g0, rooms, None)
    } else {
        let hist = if g.history.len() == 0 || g.history.last() != raw {
            g.history.push(raw)
        } else {
            g.history
        };
        let g1 = GameModel { history: hist, ..g0 };
        if raw[0] == '/' {
            let out = spec_meta(g1, rooms, cur, raw);
            let (g2, r2) = apply_meta(g1, rooms, out);
            (g2, r2, out.action)
        } else {
            let line = spec_expand_alias(g.aliases, raw);
            (GameModel { lines: scroll_push(g1.lines, echo_line(line)), ..g1 }, rooms, Some(ActionView::SendLine(line)))
        }
    }
}

/// A key on the game screen: F6 toggles the fullscreen map, which then takes
/// the keys; F1 gives focus back to the input, F3 toggles the right sidebar,
/// F4 cycles panel focus; Ctrl+Q disconnects; copy mode and a focused
/// sidebar panel take the keys when active; otherwise Enter confirms, pages
/// and Ctrl+arrows / Ctrl+Home / Ctrl+End scroll, arrows browse the history,
/// Ctrl+Y enters copy mode, and the rest edits the input line.
pub open spec fn spec_handle_key(
    g: GameModel,
    rooms: Map<Seq<char>, RoomView>,
    cur: Option<Seq<char>>,
    key: KeyEvent,
) -> (GameModel, Map<Seq<char>, RoomView>, Option<ActionView>) {
    let code = key.code;
    let ctrl = key.ctrl;
    if code == KeyCode::F(6) {
        (
            GameModel {
                map_fullscreen: !g.map_fullscreen,
                map_pan: if !g.map_fullscreen { (0i32, 0i32, 0i32) } else { g.map_pan },
                ..g
            },
            rooms,
            None,
        )
    } else if g.map_fullscreen {
        (spec_map_key(g, code), rooms, None)
    } else if code == KeyCode::F(1) {
        (GameModel { sidebar: SidebarModel { focused_panel: None, ..g.sidebar }, ..g }, rooms, None)
    } else if code is F {
        let n = code->F_0;
        if n == 3 {
            (
                GameModel { sidebar: spec_toggle_right(g.sidebar), ..g },
                rooms,
                if has_right_panels(g.sidebar.panels) { Some(ActionView::SaveSidebarLayout) } else { None },
            )
        } else if n == 4 {
            (GameModel { sidebar: spec_focus_next(g.sidebar), ..g }, rooms, None)
        } else {
            (g, rooms, None)
        }
    } else if ctrl && code == KeyCode::Char('q') {
        (g, rooms, Some(ActionView::Disconnect))
    } else if g.copy_mode {
        let (g2, a) = spec_copy_key(g, code, ctrl);
        (g2, rooms, a)
    } else if g.sidebar.focused_panel is Some {
        let (s2, r) = spec_sidebar_key(g.sidebar, key);
        match r {
            SidebarKeyResult::FocusGame => (GameModel { sidebar: SidebarModel { focused_panel: None, ..s2 }, ..g }, rooms, None),
            SidebarKeyResult::SaveLayout => (GameModel { sidebar: s2, ..g }, rooms, Some(ActionView::SaveSidebarLayout)),
            _ => (GameModel { sidebar: s2, ..g }, rooms, None),
        }
    } else {
        spec_input_key(g, rooms, cur, key)
    }
}

/// Keys for the input line and the scrollback (see `spec_handle_key`).
pub open spec fn spec_input_key(
    g: GameModel,
    rooms: Map<Seq<char>, RoomView>,
    cur: Option<Seq<char>>,
    key: KeyEvent,
) -> (GameModel, Map<Seq<char>, RoomView>, Option<ActionView>) {
    let code = key.code;
    let ctrl = key.ctrl;
    match code {
        KeyCode::Enter => spec_confirm(GameModel { scroll_offset: 0, ..g }, rooms, cur),
        KeyCode::PageUp => (spec_scroll_up(g, page(g)), rooms, None),
        KeyCode::PageDown => (spec_scroll_down(g, page(g)), rooms, None),
        KeyCode::Home => if ctrl {
            (spec_scroll_top(g), rooms, None)
        } else {
            (GameModel { input_cursor: 0, ..g }, rooms, None)
        },
        KeyCode::End => if ctrl {
            (GameModel { scroll_offset: 0, ..g }, rooms, None)
        } else {
            (GameModel { input_cursor: byte_len(g.input) as usize, ..g }, rooms, None)
        },
        KeyCode::Up => if ctrl {
            (spec_scroll_up(g, 1), rooms, None)
        } else {
            (spec_history_prev(g), rooms, None)
        },
        KeyCode::Down => if ctrl {
            (spec_scroll_down(g, 1), rooms, None)
        } else {
            (spec_history_next(g), rooms, None)
        },
        KeyCode::Char(c) => if ctrl && c == 'y' {
            (GameModel { copy_mode: true, ..g }, rooms, None)
        } else if is_edit_key(code, ctrl) {
            let (s, b) = spec_edit(g.input, g.input_cursor, code, ctrl);
            (
                GameModel {
                    input: s,
                    input_cursor: b,
                    history_idx: if ctrl { g.history_idx } else { None },
                    ..g
                },
                rooms,
                None,
            )
        } else {
            (g, rooms, None)
        },
        KeyCode::Left | KeyCode::Right | KeyCode::Backspace | KeyCode::Delete => {
            let (s, b) = spec_edit(g.input, g.input_cursor, code, ctrl);
            (GameModel { input: s, input_cursor: b, ..g }, rooms, None)
        },
        _ => (g, rooms, None),
    }
}

proof fn lemma_texts_push(v: Seq<String>, x: String)
    ensures
        texts(v.push(x)) =~= texts(v).push(x@),
{
}

impl GameState {
    /// Confirm the input line (see `spec_confirm`).
    pub fn confirm_input(&mut self) -> (r: Option<GameAction>)
        requires
            game_fits(old(self)@),
            trigger_ids_fit(old(self).triggers@),
        ensures
            ({
                let (g, rooms, a) = spec_confirm(
                    old(self)@,
                    old(self).sidebar.automap.rooms@,
                    opt_view(old(self).sidebar.automap.current_room_id),
                );
                &&& final(self)@ == g
                &&& final(self).sidebar.automap.rooms@ == rooms
                &&& action_view(r) == a
            }),
            final(self).sidebar.automap.current_room_id == old(self).sidebar.automap.current_room_id,
    {
        let ghost g = self@;
        let v = chars_of(self.input.as_str());
        let raw_v = crate::text::trim_end_vec(&v);
        let raw = string_of(&raw_v);
        self.input = String::new();
        self.input_cursor = 0;
        self.history_idx = None;
        self.history_snapshot = String::new();
        if raw_v.len() == 0 {
            return None;
        }
        let differs = if self.history.len() == 0 {
            true
        } else {
            let last = chars_of(self.history[self.history.len() - 1].as_str());
            proof {
                assert(last@ == texts(self.history@)[self.history@.len() - 1]);
            }
            !crate::text::chars_eq(&last, &raw_v)
        };
        if differs {
            proof { lemma_texts_push(self.history@, raw); }
            self.history.push(raw.clone());
        }
        if raw_v[0] == '/' {
            proof {
                assert(trigger_ids_fit(self.triggers@));
            }
            return self.handle_meta_command(raw.as_str());
        }
        proof {
            lemma_trim_end_bytes(g.input);
        }
        let line = self.expand_alias(raw.as_str());
        let echo = echo_styled_line(&line);
        push_capped(&mut self.lines, echo);
        Some(GameAction::SendLine(line))
    }
}

/// Trimming the end does not add bytes.
proof fn lemma_trim_end_bytes(s: Seq<char>)
    ensures
        byte_len(trim_end(s)) <= byte_len(s),
    decreases s.len(),
{
    if s.len() > 0 && is_ws(s.last()) {
        lemma_trim_end_bytes(s.drop_last());
    }
}

/// The echo of a sent command.
fn echo_styled_line(cmd: &String) -> (l: StyledLine)
    ensures
        line_view(l) == echo_line(cmd@),
{
    let st = TextStyle { fg: Some(Color::Green), bold: Toggle::On, ..TextStyle::plain() };
    let mut spans: Vec<StyledSpan> = Vec::new();
    spans.push(StyledSpan { text: string_of(&chars_of("\u{25b6} ")), style: st });
    spans.push(StyledSpan { text: cmd.clone(), style: TextStyle::plain() });
    let l = StyledLine { spans };
    assert(line_view(l) =~= echo_line(cmd@));
    l
}

} // verus!

verus! {

/// Whether the game screen meets what `handle_key` asks of it:
/// `game_wf`, `game_fits` and `trigger_ids_fit`.
pub fn game_key_ready(state: &GameState) -> (r: bool)
    ensures
        r == (game_wf(state@) && game_fits(state@) && trigger_ids_fit(state.triggers@)),
{
    if !crate::ui::sidebar::boundary_ok(&state.input, state.input_cursor) {
        return false;
    }
    match state.history_idx {
        Some(i) => {
            if i >= state.history.len() {
                return false;
            }
        },
        None => {},
    }
    if !crate::ui::sidebar::sidebar_ready(&state.sidebar) {
        return false;
    }
    let iv = chars_of(state.input.as_str());
    if !crate::text::byte_len_within(&iv, usize::MAX - 4) {
        return false;
    }
    let sv = chars_of(state.history_snapshot.as_str());
    if !crate::text::byte_len_within(&sv, usize::MAX) {
        return false;
    }
    let mut i: usize = 0;
    while i < state.history.len()
        invariant
            i <= state.history@.len(),
            forall|j: int| 0 <= j < i ==> byte_len(#[trigger] texts(state.history@)[j]) <= usize::MAX,
        decreases state.history.len() - i,
    {
        let hv = chars_of(state.history[i].as_str());
        if !crate::text::byte_len_within(&hv, usize::MAX) {
            assert(texts(state.history@)[i as int] == hv@);
            assert(byte_len(state@.history[i as int]) > usize::MAX);
            return false;
        }
        i = i + 1;
    }
    let (px, py, pz) = state.map_pan;
    if px == i32::MIN || px == i32::MAX || py == i32::MIN || py == i32::MAX || pz == i32::MIN || pz == i32::MAX {
        return false;
    }
    let mut k: usize = 0;
    while k < state.triggers.len()
        invariant
            k <= state.triggers@.len(),
            forall|j: int| 0 <= j < k ==> byte_len(#[trigger] state.triggers@[j].id@) <= usize::MAX,
        decreases state.triggers.len() - k,
    {
        let tv = chars_of(state.triggers[k].id.as_str());
        if !crate::text::byte_len_within(&tv, usize::MAX) {
            assert(byte_len(state.triggers@[k as int].id@) > usize::MAX);
            return false;
        }
        k = k + 1;
    }
    true
}

/// Handle a key on the game screen (see `spec_handle_key`).
pub fn handle_key(state: &mut GameState, key: KeyEvent) -> (r: Option<GameAction>)
    requires
        game_wf(old(state)@),
        game_fits(old(state)@),
        trigger_ids_fit(old(state).triggers@),
    ensures
        ({
            let (g, rooms, a) = spec_handle_key(
                old(state)@,
                old(state).sidebar.automap.rooms@,
                opt_view(old(state).sidebar.automap.current_room_id),
                key,
            );
            &&& final(state)@ == g
            &&& final(state).sidebar.automap.rooms@ == rooms
            &&& action_view(r) == a
        }),
        final(state).sidebar.automap.current_room_id == old(state).sidebar.automap.current_room_id,
        game_wf(final(state)@),
{
    let ctrl = key.ctrl;
    if key.code == KeyCode::F(6) {
        state.map_fullscreen = !state.map_fullscreen;
        if state.map_fullscreen {
            state.map_pan = (0, 0, 0);
        }
        return None;
    }
    if state.map_fullscreen {
        return handle_map_fullscreen_mode(state, key);
    }
    if key.code == KeyCode::F(1) {
        state.sidebar.focused_panel = None;
        return None;
    }
    match key.code {
        KeyCode::F(n) => {
            if n == 3 {
                if state.sidebar.toggle_right() {
                    return Some(GameAction::SaveSidebarLayout);
                }
                return None;
            } else if n == 4 {
                state.sidebar.focus_next_panel();
                return None;
            }
            return None;
        },
        _ => {},
    }
    if ctrl && key.code == KeyCode::Char('q') {
        return Some(GameAction::Disconnect);
    }
    if state.copy_mode {
        return handle_copy_mode(state, key);
    }
    if state.sidebar.focused_panel.is_some() {
        let res = crate::ui::sidebar::handle_sidebar_key(&mut state.sidebar, key);
        return match res {
            SidebarKeyResult::FocusGame => {
                state.sidebar.focused_panel = None;
                None
            },
            SidebarKeyResult::SaveLayout => Some(GameAction::SaveSidebarLayout),
            _ => None,
        };
    }
    handle_input_key(state, key)
}

/// Keys for the input line and the scrollback.
fn handle_input_key(state: &mut GameState, key: KeyEvent) -> (r: Option<GameAction>)
    requires
        game_wf(old(state)@),
        game_fits(old(state)@),
        trigger_ids_fit(old(state).triggers@),
    ensures
        ({
            let (g, rooms, a) = spec_input_key(
                old(state)@,
                old(state).sidebar.automap.rooms@,
                opt_view(old(state).sidebar.automap.current_room_id),
                key,
            );
            &&& final(state)@ == g
            &&& final(state).sidebar.automap.rooms@ == rooms
            &&& action_view(r) == a
        }),
        final(state).sidebar.automap.current_room_id == old(state).sidebar.automap.current_room_id,
        game_wf(final(state)@),
{
    let ctrl = key.ctrl;
    let len = state.lines.len();
    let page_rows = if state.last_output_height > 1 { state.last_output_height } else { 1 };
    match key.code {
        KeyCode::Enter => {
            state.scroll_offset = 0;
            let r = state.confirm_input();
            proof {
                lemma_boundary_index(state@.input, 0);
                assert(state@.input.take(0) =~= Seq::<char>::empty());
            }
            r
        },
        KeyCode::PageUp => {
            state.scroll_offset = scrolled_up(state.scroll_offset, page_rows, len);
            None
        },
        KeyCode::PageDown => {
            state.scroll_offset = state.scroll_offset.saturating_sub(page_rows);
            None
        },
        KeyCode::Home => {
            if ctrl {
                state.scroll_offset = if len > 0 { len - 1 } else { 0 };
            } else {
                state.input_cursor = 0;
                proof {
                    lemma_boundary_index(state@.input, 0);
                    assert(state@.input.take(0) =~= Seq::<char>::empty());
                }
            }
            None
        },
        KeyCode::End => {
            if ctrl {
                state.scroll_offset = 0;
            } else {
                let v = chars_of(state.input.as_str());
                proof {
                    assert(v@.take(v@.len() as int) =~= v@);
                    lemma_boundary_index(v@, v@.len() as int);
                }
                state.input_cursor = prefix_byte_len(&v, v.len());
            }
            None
        },
        KeyCode::Up => {
            if ctrl {
                state.scroll_offset = scrolled_up(state.scroll_offset, 1, len);
            } else {
                state.history_prev();
            }
            None
        },
        KeyCode::Down => {
            if ctrl {
                state.scroll_offset = state.scroll_offset.saturating_sub(1);
            } else {
                state.history_next();
            }
            None
        },
        KeyCode::Char(c) => {
            if ctrl && c == 'y' {
                state.copy_mode = true;
            } else if !ctrl || c == 'u' || c == 'k' || c == 'a' || c == 'e' || c == 'w' {
                let (s, b) = edit_text(&state.input, state.input_cursor, key.code, ctrl);
                state.input = s;
                state.input_cursor = b;
                if !ctrl {
                    state.history_idx = None;
                }
            }
            None
        },
        KeyCode::Left | KeyCode::Right | KeyCode::Backspace | KeyCode::Delete => {
            let (s, b) = edit_text(&state.input, state.input_cursor, key.code, ctrl);
            state.input = s;
            state.input_cursor = b;
            None
        },
        _ => None,
    }
}

} // verus!

verus! {

use crate::map::WorldMap;

// ---------------------------------------------------------------------------
// The fullscreen map
// ---------------------------------------------------------------------------

/// Whether a room of `rooms` sits at `(x, y, z)`.
pub open spec fn occupied(rooms: Map<Seq<char>, RoomView>, x: i32, y: i32, z: i32) -> bool {
    exists|k: Seq<char>| #[trigger] rooms.contains_key(k) && rooms[k].x == x && rooms[k].y == y && rooms[k].z == z
}

/// The world position shown at screen offset `s` from the centre `c`
/// (coordinates wrap around the `i32` range).
pub open spec fn world_at(c: i32, pan: i32, s: int, half: int) -> i32 {
    c.wrapping_add(pan).wrapping_add((s - half) as i32)
}

/// What a map cell may show: blank where no room is; otherwise `@` or `.`,
/// `@` only where the current room is (on its level), and always `@` when
/// the current room is the only room there.
pub open spec fn cell_ok(rooms: Map<Seq<char>, RoomView>, cur: RoomView, x: i32, y: i32, z: i32, c: char) -> bool {
    &&& (c == ' ' <==> !occupied(rooms, x, y, z))
    &&& (c == ' ' || c == '@' || c == '.')
    &&& (c == '@' ==> cur.x == x && cur.y == y && cur.z == z)
    &&& ((cur.x == x && cur.y == y && cur.z == z && forall|k: Seq<char>| #[trigger] rooms.contains_key(k)
        && rooms[k].x == x && rooms[k].y == y && rooms[k].z == z ==> k == cur.id) ==> c == '@')
}

/// The text rows of the fullscreen map: nothing for an empty area; a notice
/// without a current room; otherwise `height` rows of `width` cells around
/// the current room, panned by `pan`, on the current room's level plus the
/// pan's z offset.
pub open spec fn map_rows_ok(
    rooms: Map<Seq<char>, RoomView>,
    cur: Option<Seq<char>>,
    width: u16,
    height: u16,
    pan: (i32, i32, i32),
    rows: Seq<Seq<char>>,
) -> bool {
    if width == 0 || height == 0 {
        rows.len() == 0
    } else if !(cur is Some && rooms.contains_key(cur->0)) {
        rows == seq!["No map data yet"@]
    } else {
        let c = rooms[cur->0];
        let hw = (width - 1) / 2;
        let hh = (height - 1) / 2;
        let z = c.z.wrapping_add(pan.2);
        &&& rows.len() == height
        &&& forall|sy: int| 0 <= sy < height ==> (#[trigger] rows[sy]).len() == width
        &&& forall|sy: int, sx: int| 0 <= sy < height && 0 <= sx < width ==> cell_ok(
            rooms,
            c,
            world_at(c.x, pan.0, sx, hw),
            world_at(c.y, pan.1, sy, hh),
            z,
            #[trigger] rows[sy][sx],
        )
    }
}

/// The text rows of the fullscreen map (see `map_rows_ok`).
pub fn build_map_lines(map: &WorldMap, width: u16, height: u16, pan: (i32, i32, i32)) -> (r: Vec<String>)
    ensures
        map_rows_ok(map.rooms@, opt_view(map.current_room_id), width, height, pan, texts(r@)),
{
    let mut rows: Vec<String> = Vec::new();
    if width == 0 || height == 0 {
        return rows;
    }
    let cur = match map.current_room() {
        Some(c) => c,
        None => {
            rows.push(string_of(&chars_of("No map data yet")));
            assert(texts(rows@) =~= seq!["No map data yet"@]);
            return rows;
        },
    };
    proof {
        assert(map.current_room_id is Some);
        assert(map.rooms@.contains_key(opt_view(map.current_room_id)->0));
        map.rooms.lemma_key_is_id(opt_view(map.current_room_id)->0);
    }
    let ghost c = cur@;
    let hw: i32 = ((width - 1) / 2) as i32;
    let hh: i32 = ((height - 1) / 2) as i32;
    let z = cur.z.wrapping_add(pan.2);
    let mut sy: u16 = 0;
    while sy < height
        invariant
            sy <= height,
            width > 0,
            c == cur@,
            opt_view(map.current_room_id) is Some,
            map.rooms@.contains_key(opt_view(map.current_room_id)->0),
            c == map.rooms@[opt_view(map.current_room_id)->0],
            c.id == opt_view(map.current_room_id)->0,
            hw == (width - 1) / 2,
            hh == (height - 1) / 2,
            z == c.z.wrapping_add(pan.2),
            rows@.len() == sy,
            forall|j: int| 0 <= j < sy ==> (#[trigger] texts(rows@)[j]).len() == width,
            forall|j: int, sx: int| 0 <= j < sy && 0 <= sx < width ==> cell_ok(
                map.rooms@,
                c,
                world_at(c.x, pan.0, sx, hw as int),
                world_at(c.y, pan.1, j, hh as int),
                z,
                #[trigger] texts(rows@)[j][sx],
            ),
        decreases height - sy,
    {
        let wy = cur.y.wrapping_add(pan.1).wrapping_add((sy as i32) - hh);
        let mut row: Vec<char> = Vec::new();
        let mut sx: u16 = 0;
        while sx < width
            invariant
                sx <= width,
                sy < height,
                c == cur@,
                opt_view(map.current_room_id) is Some,
                map.rooms@.contains_key(opt_view(map.current_room_id)->0),
                c == map.rooms@[opt_view(map.current_room_id)->0],
                c.id == opt_view(map.current_room_id)->0,
                hw == (width - 1) / 2,
                z == c.z.wrapping_add(pan.2),
                wy == world_at(c.y, pan.1, sy as int, hh as int),
                row@.len() == sx,
                forall|k: int| 0 <= k < sx ==> cell_ok(
                    map.rooms@,
                    c,
                    world_at(c.x, pan.0, k, hw as int),
                    wy,
                    z,
                    #[trigger] row@[k],
                ),
            decreases width - sx,
        {
            let wx = cur.x.wrapping_add(pan.0).wrapping_add((sx as i32) - hw);
            let ch = match map.room_at(wx, wy, z) {
                Some(room) => {
                    let same = crate::text::str_eq(room.id.as_str(), cur.id.as_str());
                    proof {
                        assert(map.rooms@.contains_key(room.id@));
                        map.rooms.lemma_key_is_id(room.id@);
                        assert(occupied(map.rooms@, wx, wy, z));
                        if c.x == wx && c.y == wy && c.z == z && forall|k: Seq<char>| #[trigger] map.rooms@.contains_key(k)
                            && map.rooms@[k].x == wx && map.rooms@[k].y == wy && map.rooms@[k].z == z ==> k == c.id {
                            assert(room.id@ == c.id);
                        }
                        if same {
                            assert(room.id@ == c.id);
                            assert(map.rooms@[room.id@] == room@);
                        }
                    }
                    if same && z == cur.z {
                        '@'
                    } else {
                        '.'
                    }
                },
                None => ' ',
            };
            assert(wx == world_at(c.x, pan.0, sx as int, hw as int));
            assert(cell_ok(map.rooms@, c, wx, wy, z, ch)) by {
                if ch == ' ' {
                    assert(!occupied(map.rooms@, wx, wy, z));
                }
            }
            row.push(ch);
            sx += 1;
        }
        let ghost before = rows@;
        let s = string_of(&row);
        rows.push(s);
        proof {
            assert(texts(rows@) =~= texts(before).push(row@));
        }
        sy += 1;
    }
    rows
}

} // verus!

verus! {

// ---------------------------------------------------------------------------
// Laws
// ---------------------------------------------------------------------------

/// The scrollback never holds more than `SCROLLBACK_MAX` lines, and the line
/// just appended is the last one.
pub proof fn law_scrollback_bounded(lines: Seq<LineV>, l: LineV)
    ensures
        scroll_push(lines, l).len() <= SCROLLBACK_MAX,
        scroll_push(lines, l).last() == l,
{
}

/// One Up while browsing the history: from the live input it recalls the
/// newest entry and saves the live input; from entry `i > 0` it recalls
/// entry `i - 1`; at the oldest entry it stays there.  The cursor goes to
/// the end of the recalled entry, and Down undoes a step back.
pub proof fn law_history_up_steps_back(g: GameModel)
    requires
        0 < g.history.len() <= usize::MAX,
        g.history_idx matches Some(i) ==> i < g.history.len(),
    ensures
        ({
            let u = spec_history_prev(g);
            let n = g.history.len();
            &&& u.history_idx is Some
            &&& u.history_idx->0 < n
            &&& u.input == g.history[u.history_idx->0 as int]
            &&& u.input_cursor == byte_len(u.input) as usize
            &&& u.history == g.history
            &&& g.history_idx is None ==> u.history_idx == Some((n - 1) as usize) && u.history_snapshot == g.input
            &&& (g.history_idx matches Some(i) ==> (i > 0 ==> u.history_idx == Some((i - 1) as usize)
                    && u.history_snapshot == g.history_snapshot
                    && spec_history_next(u).history_idx == Some(i)
                    && spec_history_next(u).input == g.history[i as int]))
            &&& g.history_idx == Some(0usize) ==> u.history_idx == Some(0usize)
        }),
{
}

/// `k` presses of Up.
pub open spec fn history_ups(g: GameModel, k: nat) -> GameModel
    decreases k,
{
    if k == 0 {
        g
    } else {
        spec_history_prev(history_ups(g, (k - 1) as nat))
    }
}

/// Pressing Up `k` times from the live input recalls the `k`-th most recent
/// command (and stays at the oldest one after that), keeping the live input
/// to come back to.
pub proof fn law_history_up_k(g: GameModel, k: nat)
    requires
        0 < g.history.len() <= usize::MAX,
        g.history_idx is None,
        0 < k,
    ensures
        ({
            let n = g.history.len();
            let j = if k <= n { n - k } else { 0 };
            let u = history_ups(g, k);
            &&& u.history_idx == Some(j as usize)
            &&& u.input == g.history[j]
            &&& u.history_snapshot == g.input
            &&& u.history == g.history
        }),
    decreases k,
{
    assert(history_ups(g, 0) == g);
    if k > 1 {
        law_history_up_k(g, (k - 1) as nat);
        law_history_up_steps_back(history_ups(g, (k - 1) as nat));
    } else {
        law_history_up_steps_back(g);
    }
}

/// Recalling the newest history entry with Up and going back down with Down
/// restores the live input, cursor at its end.
pub proof fn law_history_round_trip(g: GameModel)
    requires
        0 < g.history.len() <= usize::MAX,
        g.history_idx is None,
    ensures
        spec_history_next(spec_history_prev(g)).input == g.input,
        spec_history_next(spec_history_prev(g)).input_cursor == byte_len(g.input) as usize,
        spec_history_next(spec_history_prev(g)).history_idx is None,
{
}

/// A line that is not an alias name and whose first word is not one either
/// is sent unchanged.
pub proof fn law_unaliased_line_unchanged(aliases: Seq<Alias>, line: Seq<char>)
    requires
        first_alias(aliases, line) is None,
        first_alias(aliases, first_word(line)) is None,
    ensures
        spec_expand_alias(aliases, line) == line,
{
}

/// On the fullscreen map, panning left then right returns to the same view.
pub proof fn law_pan_left_right(g: GameModel)
    requires
        i32::MIN < g.map_pan.0 < i32::MAX,
    ensures
        spec_map_key(spec_map_key(g, KeyCode::Left), KeyCode::Right).map_pan == g.map_pan,
{
}

/// In the input line, typing a character and deleting it with Backspace
/// restores the text and the cursor.
pub proof fn law_type_then_backspace(s: Seq<char>, b: usize, c: char)
    requires
        is_boundary(s, b as int),
        byte_len(s) + 4 <= usize::MAX,
    ensures
        ({
            let (s1, b1) = spec_edit(s, b, KeyCode::Char(c), false);
            spec_edit(s1, b1, KeyCode::Backspace, false) == (s, b)
        }),
{
    let k = boundary_index(s, b as int);
    assert(0 <= k <= s.len() && byte_len(s.take(k)) == b);
    if k < s.len() {
        lemma_byte_len_prefix_mono(s, k, s.len() as int);
    }
    assert(s.take(s.len() as int) =~= s);
    let t = s.insert(k, c);
    assert(t.take(k + 1).drop_last() =~= s.take(k));
    assert(t.take(k + 1).last() == c);
    lemma_boundary_index(t, k + 1);
    assert(t.remove(k) =~= s);
    assert(t.take(k) =~= s.take(k));
}

/// Yanking in copy mode leaves copy mode, and copies the text only when
/// there is some.
pub proof fn law_yank_leaves_copy_mode(g: GameModel)
    ensures
        !spec_copy_key(g, KeyCode::Char('y'), false).0.copy_mode,
        spec_copy_key(g, KeyCode::Char('y'), false).1 matches Some(ActionView::CopyToClipboard(t)) ==> t.len() > 0,
{
}

/// The bottom line of the automap panel: `@`, then the room's name and
/// level with leading whitespace removed.
pub open spec fn panel_legend(name: Seq<char>, z: i32) -> Seq<char> {
    "@ "@ + crate::text::trim_start(name + "  z:"@ + crate::text::dec_text(z as int))
}

/// The text rows of the automap sidebar panel: `None` without a current
/// room; no rows for an area under 3 × 3; otherwise the map around the
/// current room on its level in a square of odd side (a last even column
/// stays blank), with the legend as the last row.
pub open spec fn panel_rows_ok(
    rooms: Map<Seq<char>, RoomView>,
    cur: Option<Seq<char>>,
    width: u16,
    height: u16,
    r: Option<Seq<Seq<char>>>,
) -> bool {
    if !(cur is Some && rooms.contains_key(cur->0)) {
        r is None
    } else if width < 3 || height < 3 {
        r == Some(Seq::<Seq<char>>::empty())
    } else {
        let c = rooms[cur->0];
        let hw = (width - 1) / 2;
        let hh = (height - 1) / 2;
        &&& r matches Some(rows)
        &&& rows.len() == height
        &&& rows[height - 1] == panel_legend(c.name, c.z)
        &&& forall|sy: int| 0 <= sy < height - 1 ==> (#[trigger] rows[sy]).len() == width
        &&& forall|sy: int, sx: int| 0 <= sy < height - 1 && 0 <= sx < width ==> if sx <= 2 * hw {
            cell_ok(rooms, c, world_at(c.x, 0, sx, hw), world_at(c.y, 0, sy, hh), c.z, #[trigger] rows[sy][sx])
        } else {
            rows[sy][sx] == ' '
        }
    }
}

/// The text rows of the automap sidebar panel (see `panel_rows_ok`).
pub fn automap_panel_rows(map: &WorldMap, width: u16, height: u16) -> (r: Option<Vec<String>>)
    ensures
        panel_rows_ok(map.rooms@, opt_view(map.current_room_id), width, height, match r {
            Some(v) => Some(texts(v@)),
            None => None,
        }),
{
    let cur = match map.current_room() {
        Some(c) => c,
        None => return None,
    };
    if width < 3 || height < 3 {
        let v: Vec<String> = Vec::new();
        assert(texts(v@) =~= Seq::<Seq<char>>::empty());
        return Some(v);
    }
    let grid = build_map_lines(map, width, height, (0, 0, 0));
    let ghost c = map.rooms@[map.current_room_id->0@];
    proof {
        assert(opt_view(map.current_room_id) == Some(map.current_room_id->0@));
        assert(cur@ == c);
        assert(texts(grid@).len() == height);
    }
    assert(c.z.wrapping_add(0) == c.z);
    let hw = (width - 1) / 2;
    let mut out: Vec<String> = Vec::new();
    let mut sy: usize = 0;
    let last = (height - 1) as usize;
    while sy < last
        invariant
            sy <= last,
            last == height - 1,
            hw == (width - 1) / 2,
            map_rows_ok(map.rooms@, opt_view(map.current_room_id), width, height, (0i32, 0i32, 0i32), texts(grid@)),
            width >= 3,
            height >= 3,
            map.current_room_id is Some,
            map.rooms@.contains_key(map.current_room_id->0@),
            opt_view(map.current_room_id) == Some(map.current_room_id->0@),
            grid@.len() == height,
            out@.len() == sy,
            forall|y: int| 0 <= y < sy ==> (#[trigger] out@[y])@.len() == width,
            forall|y: int, x: int| 0 <= y < sy && 0 <= x < width ==> (#[trigger] out@[y]@[x]) == if x <= 2 * hw {
                grid@[y]@[x]
            } else {
                ' '
            },
        decreases last - sy,
    {
        assert(texts(grid@)[sy as int] == grid@[sy as int]@);
        assert(texts(grid@)[sy as int].len() == width);
        let row = chars_of(grid[sy].as_str());
        let mut keep: Vec<char> = Vec::new();
        let mut sx: usize = 0;
        while sx < row.len()
            invariant
                sx <= row@.len(),
                row@.len() == width,
                hw == (width - 1) / 2,
                keep@.len() == sx,
                forall|x: int| 0 <= x < sx ==> keep@[x] == if x <= 2 * hw { row@[x] } else { ' ' },
            decreases row.len() - sx,
        {
            if sx <= 2 * (hw as usize) {
                keep.push(row[sx]);
            } else {
                keep.push(' ');
            }
            sx += 1;
        }
        out.push(string_of(&keep));
        sy += 1;
    }
    let mut lv = chars_of("@ ");
    let mut body = chars_of(cur.name.as_str());
    let tail = concat_vec(&chars_of("  z:"), &crate::text::i64_text(cur.z as i64));
    body = concat_vec(&body, &tail);
    assert(body@ =~= cur.name@ + "  z:"@ + crate::text::dec_text(cur.z as int));
    let trimmed = crate::text::trim_start_vec(&body);
    lv = concat_vec(&lv, &trimmed);
    out.push(string_of(&lv));
    proof {
        assert(texts(out@)[height - 1] == lv@);
        assert(lv@ == panel_legend(c.name, c.z));
        assert(cur.z as i64 as int == cur.z as int);
        let rows = texts(out@);
        assert forall|y: int, x: int| 0 <= y < height - 1 && 0 <= x < width implies if x <= 2 * hw {
            cell_ok(map.rooms@, c, world_at(c.x, 0, x, hw as int), world_at(c.y, 0, y, ((height - 1) / 2) as int), c.z, #[trigger] rows[y][x])
        } else {
            rows[y][x] == ' '
        } by {
            assert(rows[y] == out@[y]@);
            assert(texts(grid@)[y] == grid@[y]@);
        }
        assert forall|y: int| 0 <= y < height - 1 implies (#[trigger] rows[y]).len() == width by {
            assert(rows[y] == out@[y]@);
        }
    }
    Some(out)
}

proof fn lemma_recolor_text(l: LineV, c: Color)
    ensures
        line_text(recolor(l, c)) == line_text(l),
    decreases l.len(),
{
    if l.len() > 0 {
        assert(recolor(l, c).drop_last() =~= recolor(l.drop_last(), c));
        lemma_recolor_text(l.drop_last(), c);
    }
}

/// Triggers change only the colours of a line, never its text.
pub proof fn law_triggers_keep_text(ts: Seq<ActiveTrigger>, s: Seq<char>, line: LineV, queue: Seq<Seq<char>>)
    ensures
        line_text(apply_triggers(ts, s, line, queue).0) == line_text(line),
    decreases ts.len(),
{
    if ts.len() > 0 {
        law_triggers_keep_text(ts.drop_last(), s, line, queue);
        let (l1, q1) = apply_triggers(ts.drop_last(), s, line, queue);
        match ts.last().color {
            Some(c) => lemma_recolor_text(l1, c),
            None => {},
        }
    }
}

/// A line that no trigger matches keeps its styling and queues nothing.
pub proof fn law_unmatched_line_untouched(ts: Seq<ActiveTrigger>, s: Seq<char>, line: LineV, queue: Seq<Seq<char>>)
    requires
        forall|i: int| 0 <= i < ts.len() ==> !trigger_fires(#[trigger] ts[i], s),
    ensures
        apply_triggers(ts, s, line, queue) == (line, queue),
    decreases ts.len(),
{
    if ts.len() > 0 {
        assert forall|i: int| 0 <= i < ts.drop_last().len() implies !trigger_fires(#[trigger] ts.drop_last()[i], s) by {
            assert(ts.drop_last()[i] == ts[i]);
        }
        law_unmatched_line_untouched(ts.drop_last(), s, line, queue);
        assert(!trigger_fires(ts[ts.len() - 1], s));
    }
}

/// A matching trigger with a command queues that command after what the
/// triggers before it queued.
pub proof fn law_matching_trigger_queues(ts: Seq<ActiveTrigger>, s: Seq<char>, line: LineV, queue: Seq<Seq<char>>)
    requires
        ts.len() > 0,
        trigger_fires(ts.last(), s),
        ts.last().send matches Some(cmd) && cmd@.len() > 0,
    ensures
        apply_triggers(ts, s, line, queue).1 == apply_triggers(ts.drop_last(), s, line, queue).1.push(ts.last().send->0@),
{
}

} // verus!
