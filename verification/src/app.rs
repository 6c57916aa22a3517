//! The application: which screen is shown, the session it belongs to, and
//! what the main loop does with network events and game actions.
use vstd::prelude::*;

use crate::clipboard::{osc52, osc52_sequence};
use crate::config::{
    aliases_without, triggers_without, alias_removed, alias_upserted, first_character_with_id, is_uuid_text, layout_set, new_uuid_string,
    trigger_added, triggers_removed, copy_aliases, copy_layout, copy_triggers, Config, Trigger,
};
use crate::map::{opt_view, spec_apply_room_info, spec_parse_room_info_from_gmcp, RoomView};
use crate::matching::{regex_compile_error, regex_error_text, regex_valid};
use crate::net::NetEvent;
use crate::text::{chars_of, concat_vec, string_of};
use crate::ui::game::{
    fresh_game, opt_text, scroll_push, spec_push_line, system_line, valid_triggers, ActiveTrigger, GameAction,
    GameModel, GameState,
};
use crate::ui::selection::{opt_str, SelectModel, SelectState};
use crate::ui::sidebar::{sidebar_for, SidebarState};
use crate::config::{first_server_with_id, spec_effective_login};

verus! {

/// The screen that is drawn and that receives key events.
#[derive(Debug, Clone, Copy, PartialEq, Eq, Structural)]
pub enum AppState {
    /// Server and character selection; the screen the client starts on.
    ServerSelect,
    /// A connected game session.
    Game,
}

impl Default for AppState {
    fn default() -> (s: Self)
        ensures
            s == AppState::ServerSelect,
    {
        AppState::ServerSelect
    }
}

/// Work for the main loop, which owns the connection and the terminal.
pub enum AppCommand {
    /// Send a line to the server.
    SendLine(String),
    /// Close the connection.
    Disconnect,
    /// Write the configuration file.
    SaveConfig,
    /// Write raw text to the terminal (an escape sequence).
    WriteTerminal(String),
}

/// A command as plain values.
pub enum CommandV {
    SendLine(Seq<char>),
    Disconnect,
    SaveConfig,
    WriteTerminal(Seq<char>),
}

impl View for AppCommand {
    type V = CommandV;

    open spec fn view(&self) -> CommandV {
        match self {
            AppCommand::SendLine(l) => CommandV::SendLine(l@),
            AppCommand::Disconnect => CommandV::Disconnect,
            AppCommand::SaveConfig => CommandV::SaveConfig,
            AppCommand::WriteTerminal(t) => CommandV::WriteTerminal(t@),
        }
    }
}

/// The commands as plain values.
pub open spec fn commands_view(c: Seq<AppCommand>) -> Seq<CommandV> {
    c.map_values(|x: AppCommand| x@)
}

/// The application state shared by the main loop.  The network connection
/// and the configuration file's path are held by the loop itself.
pub struct App {
    pub state: AppState,
    pub running: bool,
    pub config: Config,
    pub select: SelectState,
    /// Display name of the connected server.
    pub connected_server: Option<String>,
    /// Config id of the connected server.
    pub connected_server_id: Option<String>,
    /// Display name of the connected character.
    pub connected_char: Option<String>,
    /// Config id of the connected character (aliases, triggers, layout).
    pub connected_char_id: Option<String>,
    /// The game screen.
    pub game: GameState,
}

/// The application as plain values.
pub struct AppModel {
    pub state: AppState,
    pub running: bool,
    pub config: Config,
    pub select: SelectModel,
    pub connected_server: Option<Seq<char>>,
    pub connected_server_id: Option<Seq<char>>,
    pub connected_char: Option<Seq<char>>,
    pub connected_char_id: Option<Seq<char>>,
    pub game: GameModel,
    pub rooms: Map<Seq<char>, RoomView>,
    pub current_room: Option<Seq<char>>,
}

impl View for App {
    type V = AppModel;

    open spec fn view(&self) -> AppModel {
        AppModel {
            state: self.state,
            running: self.running,
            config: self.config,
            select: self.select@,
            connected_server: opt_str(self.connected_server),
            connected_server_id: opt_str(self.connected_server_id),
            connected_char: opt_str(self.connected_char),
            connected_char_id: opt_str(self.connected_char_id),
            game: self.game@,
            rooms: self.game.sidebar.automap.rooms@,
            current_room: opt_view(self.game.sidebar.automap.current_room_id),
        }
    }
}

/// The scrollback line announcing a lost connection.
pub open spec fn disconnect_text(reason: Seq<char>) -> Seq<char> {
    "\u{1b}[33m-- Disconnected: "@ + reason + " --\u{1b}[0m"@
}

/// The application after a network event, and whether the event ended the
/// connection.  Lines and prompts go to the game screen, GMCP messages to
/// the automap; a lost connection is announced and returns to the
/// selection screen.
pub open spec fn spec_net_event(m: AppModel, ev: NetEvent) -> (AppModel, bool) {
    match ev {
        NetEvent::Line(l) => (AppModel { game: spec_push_line(m.game, l@), ..m }, false),
        NetEvent::Prompt(p) => (
            AppModel { game: GameModel { prompt: Some(crate::ui::style::spec_ansi_to_line(p@)), ..m.game }, ..m },
            false,
        ),
        NetEvent::Connected => (AppModel {
            game: GameModel {
                connected: true,
                latency: None,
                latency_samples: Seq::empty(),
                map_fullscreen: false,
                map_pan: (0i32, 0i32, 0i32),
                scroll_offset: 0,
                prompt: None,
                ..m.game
            },
            ..m
        }, false),
        NetEvent::Disconnected(reason) => {
            let g = spec_push_line(m.game, disconnect_text(reason@));
            (AppModel {
                state: AppState::ServerSelect,
                game: GameModel {
                    connected: false,
                    latency: None,
                    latency_samples: Seq::empty(),
                    map_fullscreen: false,
                    map_pan: (0i32, 0i32, 0i32),
                    ..g
                },
                ..m
            }, true)
        },
        NetEvent::Gmcp(msg) => match spec_parse_room_info_from_gmcp(msg@) {
            Some((id, name, exits)) => (AppModel {
                rooms: spec_apply_room_info(m.rooms, m.current_room, id, name, exits),
                current_room: Some(id),
                ..m
            }, false),
            None => (m, false),
        },
        NetEvent::Latency(ms) => (AppModel { game: GameModel { latency: Some(ms), ..m.game }, ..m }, false),
    }
}

/// `m` with a client message appended to the scrollback.
pub open spec fn with_message(m: AppModel, msg: Seq<char>) -> AppModel {
    AppModel { game: GameModel { lines: scroll_push(m.game.lines, system_line(msg)), ..m.game }, ..m }
}

/// The id shown for a new trigger: its first eight characters.
pub open spec fn short_id(id: Seq<char>) -> Seq<char> {
    if id.len() <= 8 { id } else { id.take(8) }
}

/// The effect of a stored alias `name` → `expansion`: for the connected
/// character the config gains it and is saved, the game takes the
/// character's new alias list and announces it.
pub open spec fn alias_add_effect(a0: AppModel, a1: AppModel, name: Seq<char>, exp: Seq<char>, cmds: Seq<CommandV>) -> bool {
    match a0.connected_char_id {
        None => a1 == a0 && cmds == Seq::<CommandV>::empty(),
        Some(cid) => {
            &&& alias_upserted(a0.config, a1.config, cid, name, exp)
            &&& cmds == seq![CommandV::SaveConfig]
            &&& match first_character_with_id(a0.config.characters@, cid) {
                None => a1 == (AppModel { config: a1.config, ..a0 }),
                Some(k) => a1 == (AppModel {
                    config: a1.config,
                    game: GameModel {
                        aliases: a1.config.characters@[k].aliases@,
                        lines: scroll_push(a0.game.lines, system_line("Alias added: "@ + name + " \u{2192} "@ + exp)),
                        ..a0.game
                    },
                    ..a0
                }),
            }
        },
    }
}

/// Whether the character `cid` has an alias named `name`.
pub open spec fn alias_was_removed(c: Config, cid: Seq<char>, name: Seq<char>) -> bool {
    match first_character_with_id(c.characters@, cid) {
        None => false,
        Some(k) => aliases_without(c.characters@[k].aliases@, name).len() < c.characters@[k].aliases@.len(),
    }
}

/// Whether the character `cid` has a trigger whose id starts with `prefix`.
pub open spec fn trigger_was_removed(c: Config, cid: Seq<char>, prefix: Seq<char>) -> bool {
    match first_character_with_id(c.characters@, cid) {
        None => false,
        Some(k) => triggers_without(c.characters@[k].triggers@, prefix).len() < c.characters@[k].triggers@.len(),
    }
}

/// The effect of removing alias `name` from the connected character.
pub open spec fn alias_remove_effect(a0: AppModel, a1: AppModel, name: Seq<char>, cmds: Seq<CommandV>) -> bool {
    match a0.connected_char_id {
        None => a1 == a0 && cmds == Seq::<CommandV>::empty(),
        Some(cid) => {
            let removed = alias_was_removed(a0.config, cid, name);
            &&& alias_removed(a0.config, a1.config, cid, name, removed)
            &&& if removed {
                &&& cmds == seq![CommandV::SaveConfig]
                &&& a1 == (AppModel {
                    config: a1.config,
                    game: GameModel {
                        aliases: a1.config.characters@[first_character_with_id(a0.config.characters@, cid)->0].aliases@,
                        lines: scroll_push(a0.game.lines, system_line("Alias '"@ + name + "' removed."@)),
                        ..a0.game
                    },
                    ..a0
                })
            } else {
                &&& cmds == Seq::<CommandV>::empty()
                &&& a1 == with_message(AppModel { config: a1.config, ..a0 }, "No alias named '"@ + name + "'."@)
            }
        },
    }
}

/// The triggers of the game screen as plain values.
pub open spec fn active_views(t: Seq<ActiveTrigger>) -> Seq<(Seq<char>, Seq<char>, Option<crate::ui::style::Color>, Option<Seq<char>>)> {
    t.map_values(|x: ActiveTrigger| (x.id@, x.pattern@, x.color, opt_text(x.send)))
}

/// The effect of adding a trigger for `pattern` under the fresh id `id`:
/// a pattern that does not compile is reported and nothing is stored;
/// otherwise the connected character gains the trigger, the config is
/// saved, and the game reloads the character's triggers and announces it.
pub open spec fn trigger_add_effect(
    a0: AppModel,
    a1: AppModel,
    pattern: Seq<char>,
    color: Option<Seq<char>>,
    send: Option<Seq<char>>,
    id: Seq<char>,
    cmds: Seq<CommandV>,
) -> bool {
    match a0.connected_char_id {
        None => a1 == a0 && cmds == Seq::<CommandV>::empty(),
        Some(cid) => if !regex_valid(pattern) {
            &&& cmds == Seq::<CommandV>::empty()
            &&& a1 == with_message(a0, "Invalid regex pattern: "@ + regex_error_text(pattern))
        } else {
            &&& cmds == seq![CommandV::SaveConfig]
            &&& match first_character_with_id(a0.config.characters@, cid) {
                None => a1 == (AppModel { config: a1.config, ..a0 }) && a1.config.characters == a0.config.characters
                    && a1.config.servers == a0.config.servers,
                Some(k) => {
                    let t = a1.config.characters@[k].triggers@.last();
                    &&& t.id@ == id
                    &&& t.pattern@ == pattern
                    &&& opt_str(t.color) == color
                    &&& opt_str(t.send) == send
                    &&& trigger_added(a0.config, a1.config, cid, t)
                    &&& active_views(a1.game.triggers) == valid_triggers(a1.config.characters@[k].triggers@)
                    &&& a1 == (AppModel {
                        config: a1.config,
                        game: GameModel {
                            triggers: a1.game.triggers,
                            lines: scroll_push(a0.game.lines, system_line("Trigger ["@ + short_id(id) + "] added."@)),
                            ..a0.game
                        },
                        ..a0
                    })
                },
            }
        },
    }
}

/// The effect of removing the triggers whose id starts with `prefix`.
pub open spec fn trigger_remove_effect(a0: AppModel, a1: AppModel, prefix: Seq<char>, cmds: Seq<CommandV>) -> bool {
    match a0.connected_char_id {
        None => a1 == a0 && cmds == Seq::<CommandV>::empty(),
        Some(cid) => {
            let removed = trigger_was_removed(a0.config, cid, prefix);
            &&& triggers_removed(a0.config, a1.config, cid, prefix, removed)
            &&& if removed {
                let k = first_character_with_id(a0.config.characters@, cid)->0;
                &&& cmds == seq![CommandV::SaveConfig]
                &&& active_views(a1.game.triggers) == valid_triggers(a1.config.characters@[k].triggers@)
                &&& a1 == (AppModel {
                    config: a1.config,
                    game: GameModel {
                        triggers: a1.game.triggers,
                        lines: scroll_push(a0.game.lines, system_line("Trigger '"@ + prefix + "...' removed."@)),
                        ..a0.game
                    },
                    ..a0
                })
            } else {
                &&& cmds == Seq::<CommandV>::empty()
                &&& a1 == with_message(AppModel { config: a1.config, ..a0 }, "No trigger with id prefix '"@ + prefix + "'."@)
            }
        },
    }
}

/// The effect of saving the sidebar layout: the connected character takes
/// the game's current layout and the config is saved.
pub open spec fn layout_save_effect(a0: AppModel, a1: AppModel, cmds: Seq<CommandV>) -> bool {
    match a0.connected_char_id {
        None => a1 == a0 && cmds == Seq::<CommandV>::empty(),
        Some(cid) => {
            &&& a1 == (AppModel { config: a1.config, ..a0 })
            &&& a1.config.servers == a0.config.servers
            &&& match first_character_with_id(a0.config.characters@, cid) {
                None => a1.config.characters == a0.config.characters && cmds == Seq::<CommandV>::empty(),
                Some(k) => {
                    let l = a1.config.characters@[k].sidebar;
                    &&& cmds == seq![CommandV::SaveConfig]
                    &&& layout_set(a0.config, a1.config, cid, l)
                    &&& l.right_visible == a0.game.sidebar.right_visible
                    &&& l.right_width == a0.game.sidebar.right_width
                    &&& l.panels@ == a0.game.sidebar.panels
                    &&& crate::ui::sidebar::strings_view(l.notes@) == a0.game.sidebar.notes
                },
            }
        },
    }
}

/// The commands that send the queued lines, in order.
pub open spec fn send_all(q: Seq<Seq<char>>) -> Seq<CommandV> {
    q.map_values(|l: Seq<char>| CommandV::SendLine(l))
}

/// The effect of a game action before the queued trigger commands are
/// sent; `id` is the fresh id a new trigger gets.
pub open spec fn action_effect(a0: AppModel, a1: AppModel, action: Option<GameAction>, id: Seq<char>, cmds: Seq<CommandV>) -> bool {
    match action {
        None => a1 == a0 && cmds == Seq::<CommandV>::empty(),
        Some(GameAction::SendLine(l)) => a1 == a0 && cmds == seq![CommandV::SendLine(l@)],
        Some(GameAction::Disconnect) => {
            &&& cmds == seq![CommandV::Disconnect]
            &&& a1 == (AppModel {
                state: AppState::ServerSelect,
                game: GameModel {
                    connected: false,
                    latency: None,
                    latency_samples: Seq::empty(),
                    map_fullscreen: false,
                    map_pan: (0i32, 0i32, 0i32),
                    ..a0.game
                },
                ..a0
            })
        },
        Some(GameAction::Quit) => cmds == seq![CommandV::Disconnect] && a1 == (AppModel { running: false, ..a0 }),
        Some(GameAction::CopyToClipboard(t)) => {
            &&& a1 == a0
            &&& cmds == seq![CommandV::WriteTerminal(osc52(t@))]
        },
        Some(GameAction::AddAlias { name, expansion }) => alias_add_effect(a0, a1, name@, expansion@, cmds),
        Some(GameAction::RemoveAlias(name)) => alias_remove_effect(a0, a1, name@, cmds),
        Some(GameAction::AddTrigger { pattern, color, send }) => trigger_add_effect(
            a0,
            a1,
            pattern@,
            opt_str(color),
            opt_str(send),
            id,
            cmds,
        ),
        Some(GameAction::RemoveTrigger(prefix)) => trigger_remove_effect(a0, a1, prefix@, cmds),
        Some(GameAction::SaveSidebarLayout) => layout_save_effect(a0, a1, cmds),
    }
}

/// What a game action does, followed by sending the lines that triggers
/// queued (except on quitting, which stops the loop at once).
pub open spec fn game_action_post(a0: AppModel, a1: AppModel, action: Option<GameAction>, cmds: Seq<CommandV>) -> bool {
    match action {
        Some(GameAction::Quit) => action_effect(a0, a1, action, Seq::empty(), cmds),
        _ => {
            let q = a0.game.auto_send_queue;
            let n = cmds.len() - q.len();
            let mid = AppModel { game: GameModel { auto_send_queue: q, ..a1.game }, ..a1 };
            &&& a1.game.auto_send_queue == Seq::<Seq<char>>::empty()
            &&& n >= 0
            &&& cmds.skip(n) == send_all(q)
            &&& match action {
                Some(GameAction::AddTrigger { .. }) => exists|id: Seq<char>|
                    #[trigger] is_uuid_text(id) && action_effect(a0, mid, action, id, cmds.take(n)),
                _ => action_effect(a0, mid, action, Seq::empty(), cmds.take(n)),
            }
        },
    }
}

/// Where and as whom to connect.
pub struct ConnectPlan {
    pub server_id: String,
    pub server_name: String,
    pub host: String,
    pub port: u16,
    pub tls: bool,
    /// The character's config id; `None` without a saved character.
    pub char_id: Option<String>,
    /// The name shown for the character (`(anonymous)` without one).
    pub char_name: String,
    /// The login to send at the prompt, for a saved character.
    pub login: Option<String>,
    /// Whether the character stores an explicit login.
    pub login_set: bool,
}

/// `p` connects to server `s`.
pub open spec fn plan_server(p: ConnectPlan, s: crate::config::Server) -> bool {
    &&& p.server_id@ == s.id@
    &&& p.server_name@ == s.name@
    &&& p.host@ == s.host@
    &&& p.port == s.port
    &&& p.tls == s.tls
}

/// The game screen of a new session: fresh and connected; with a saved
/// character, its aliases, triggers and sidebar layout.
pub open spec fn session_game(g: GameModel, c: Option<crate::config::Character>) -> bool {
    match c {
        None => g == (GameModel { connected: true, ..fresh_game() }),
        Some(c) => {
            &&& active_views(g.triggers) == valid_triggers(c.triggers@)
            &&& g == (GameModel {
                connected: true,
                aliases: c.aliases@,
                triggers: g.triggers,
                sidebar: sidebar_for(c.sidebar),
                ..fresh_game()
            })
        },
    }
}

fn join3(a: &str, b: &str, c: &str) -> (r: String)
    ensures
        r@ == a@ + b@ + c@,
{
    let x = concat_vec(&chars_of(a), &chars_of(b));
    let y = concat_vec(&x, &chars_of(c));
    string_of(&y)
}

impl App {
    /// The application on the selection screen with `config` loaded and no
    /// session.
    pub fn new(config: Config) -> (a: App)
        ensures
            a.state == AppState::ServerSelect,
            a.running,
            a.config == config,
            a.select@.cursor == 0,
            a.select@.collapsed == Set::<Seq<char>>::empty(),
            a.select@.dialog is None,
            a.select@.pending_connect is None,
            a.connected_server is None,
            a.connected_server_id is None,
            a.connected_char is None,
            a.connected_char_id is None,
            a.game@ == fresh_game(),
            a@.rooms == Map::<Seq<char>, RoomView>::empty(),
            a@.current_room is None,
    {
        App {
            state: AppState::default(),
            running: true,
            config,
            select: SelectState::new(),
            connected_server: None,
            connected_server_id: None,
            connected_char: None,
            connected_char_id: None,
            game: GameState::new(),
        }
    }

    /// Ask the main loop to stop.
    pub fn quit(&mut self)
        ensures
            final(self)@ == (AppModel { running: false, ..old(self)@ }),
    {
        self.running = false;
    }

    /// Apply an event of the network task; returns whether the connection
    /// ended (the loop then drops it).
    pub fn on_net_event(&mut self, ev: NetEvent) -> (ended: bool)
        ensures
            (final(self)@, ended) == spec_net_event(old(self)@, ev),
    {
        match ev {
            NetEvent::Line(l) => {
                self.game.push_line(l.as_str());
                false
            },
            NetEvent::Prompt(p) => {
                self.game.push_prompt(p.as_str());
                false
            },
            NetEvent::Connected => {
                self.game.on_connect();
                false
            },
            NetEvent::Disconnected(reason) => {
                let text = join3("\u{1b}[33m-- Disconnected: ", reason.as_str(), " --\u{1b}[0m");
                self.game.push_line(text.as_str());
                self.game.on_disconnect();
                self.state = AppState::ServerSelect;
                true
            },
            NetEvent::Gmcp(msg) => {
                let _ = self.game.sidebar.map_apply_gmcp(msg.as_str());
                false
            },
            NetEvent::Latency(ms) => {
                self.game.latency = Some(ms);
                false
            },
        }
    }

    fn connected_char(&self) -> (r: Option<String>)
        ensures
            opt_str(r) == self@.connected_char_id,
    {
        match &self.connected_char_id {
            Some(c) => Some(c.clone()),
            None => None,
        }
    }

    /// Stores alias `name` → `expansion` for the connected character.
    pub fn add_alias(&mut self, name: &str, expansion: &str) -> (cmds: Vec<AppCommand>)
        ensures
            alias_add_effect(old(self)@, final(self)@, name@, expansion@, commands_view(cmds@)),
    {
        let mut cmds: Vec<AppCommand> = Vec::new();
        let cid = match self.connected_char() {
            Some(c) => c,
            None => {
                assert(commands_view(cmds@) =~= Seq::<CommandV>::empty());
                return cmds;
            },
        };
        let k_opt = self.config.character_index(cid.as_str());
        let _ = self.config.upsert_alias(cid.as_str(), name, expansion);
        cmds.push(AppCommand::SaveConfig);
        assert(commands_view(cmds@) =~= seq![CommandV::SaveConfig]);
        match k_opt {
            Some(k) => {
                let aliases = copy_aliases(&self.config.characters[k].aliases);
                self.game.set_aliases(aliases);
                let head = join3("Alias added: ", name, " \u{2192} ");
                let msg = join3(head.as_str(), expansion, "");
                assert(msg@ =~= "Alias added: "@ + name@ + " \u{2192} "@ + expansion@) by {
                    reveal_strlit("");
                }
                self.game.push_system(msg.as_str());
            },
            None => {},
        }
        cmds
    }

    /// Removes alias `name` of the connected character.
    pub fn remove_alias(&mut self, name: &str) -> (cmds: Vec<AppCommand>)
        ensures
            alias_remove_effect(old(self)@, final(self)@, name@, commands_view(cmds@)),
    {
        let mut cmds: Vec<AppCommand> = Vec::new();
        let cid = match self.connected_char() {
            Some(c) => c,
            None => {
                assert(commands_view(cmds@) =~= Seq::<CommandV>::empty());
                return cmds;
            },
        };
        let k_opt = self.config.character_index(cid.as_str());
        let removed = self.config.remove_alias(cid.as_str(), name);
        if removed {
            cmds.push(AppCommand::SaveConfig);
            assert(commands_view(cmds@) =~= seq![CommandV::SaveConfig]);
            match k_opt {
                Some(k) => {
                    let aliases = copy_aliases(&self.config.characters[k].aliases);
                    self.game.set_aliases(aliases);
                },
                None => {},
            }
            let msg = join3("Alias '", name, "' removed.");
            self.game.push_system(msg.as_str());
        } else {
            assert(commands_view(cmds@) =~= Seq::<CommandV>::empty());
            let msg = join3("No alias named '", name, "'.");
            self.game.push_system(msg.as_str());
        }
        cmds
    }

    /// Adds a trigger with id `id` for `pattern` to the connected character,
    /// when the pattern compiles.
    pub fn add_trigger(&mut self, pattern: &str, color: Option<String>, send: Option<String>, id: String) -> (cmds: Vec<AppCommand>)
        ensures
            trigger_add_effect(old(self)@, final(self)@, pattern@, opt_str(color), opt_str(send), id@, commands_view(cmds@)),
    {
        let mut cmds: Vec<AppCommand> = Vec::new();
        let cid = match self.connected_char() {
            Some(c) => c,
            None => {
                assert(commands_view(cmds@) =~= Seq::<CommandV>::empty());
                return cmds;
            },
        };
        match regex_compile_error(pattern) {
            Some(e) => {
                let msg = join3("Invalid regex pattern: ", e.as_str(), "");
                assert(msg@ =~= "Invalid regex pattern: "@ + e@) by {
                    reveal_strlit("");
                }
                self.game.push_system(msg.as_str());
                assert(commands_view(cmds@) =~= Seq::<CommandV>::empty());
                return cmds;
            },
            None => {},
        }
        let ids = chars_of(id.as_str());
        let short: Vec<char> = if ids.len() <= 8 { ids.clone() } else { crate::text::slice_vec(&ids, 0, 8) };
        assert(short@ == short_id(id@)) by {
            if ids@.len() > 8 {
                assert(short@ =~= id@.take(8));
            }
        }
        let k_opt = self.config.character_index(cid.as_str());
        let t = Trigger { id, pattern: string_of(&chars_of(pattern)), color, send };
        let ghost tv = t;
        let _ = self.config.add_trigger(cid.as_str(), t);
        cmds.push(AppCommand::SaveConfig);
        assert(commands_view(cmds@) =~= seq![CommandV::SaveConfig]);
        match k_opt {
            Some(k) => {
                assert(self.config.characters@[k as int].triggers@.last() == tv);
                let ts = copy_triggers(&self.config.characters[k].triggers);
                self.game.set_triggers(ts);
                let msg = join3("Trigger [", string_of(&short).as_str(), "] added.");
                self.game.push_system(msg.as_str());
            },
            None => {},
        }
        cmds
    }

    /// Removes the triggers of the connected character whose id starts with
    /// `prefix`.
    pub fn remove_trigger(&mut self, prefix: &str) -> (cmds: Vec<AppCommand>)
        ensures
            trigger_remove_effect(old(self)@, final(self)@, prefix@, commands_view(cmds@)),
    {
        let mut cmds: Vec<AppCommand> = Vec::new();
        let cid = match self.connected_char() {
            Some(c) => c,
            None => {
                assert(commands_view(cmds@) =~= Seq::<CommandV>::empty());
                return cmds;
            },
        };
        let k_opt = self.config.character_index(cid.as_str());
        let removed = self.config.remove_triggers(cid.as_str(), prefix);
        if removed {
            cmds.push(AppCommand::SaveConfig);
            assert(commands_view(cmds@) =~= seq![CommandV::SaveConfig]);
            match k_opt {
                Some(k) => {
                    let ts = copy_triggers(&self.config.characters[k].triggers);
                    self.game.set_triggers(ts);
                },
                None => {},
            }
            let msg = join3("Trigger '", prefix, "...' removed.");
            self.game.push_system(msg.as_str());
        } else {
            assert(commands_view(cmds@) =~= Seq::<CommandV>::empty());
            let msg = join3("No trigger with id prefix '", prefix, "'.");
            self.game.push_system(msg.as_str());
        }
        cmds
    }

    /// Stores the game's sidebar layout for the connected character.
    pub fn save_layout(&mut self) -> (cmds: Vec<AppCommand>)
        ensures
            layout_save_effect(old(self)@, final(self)@, commands_view(cmds@)),
    {
        let mut cmds: Vec<AppCommand> = Vec::new();
        let cid = match self.connected_char() {
            Some(c) => c,
            None => {
                assert(commands_view(cmds@) =~= Seq::<CommandV>::empty());
                return cmds;
            },
        };
        match self.config.character_index(cid.as_str()) {
            Some(k) => {
                let layout = copy_layout(&self.game.sidebar.layout);
                let _ = self.config.set_sidebar_layout(cid.as_str(), layout);
                cmds.push(AppCommand::SaveConfig);
                assert(commands_view(cmds@) =~= seq![CommandV::SaveConfig]);
            },
            None => {
                assert(commands_view(cmds@) =~= Seq::<CommandV>::empty());
            },
        }
        cmds
    }

    /// Carry out a game action, then send the lines that triggers queued.
    pub fn on_game_action(&mut self, action: Option<GameAction>) -> (cmds: Vec<AppCommand>)
        ensures
            game_action_post(old(self)@, final(self)@, action, commands_view(cmds@)),
    {
        let ghost a0 = self@;
        let ghost act = action;
        let ghost mut tid: Seq<char> = Seq::empty();
        let mut cmds: Vec<AppCommand> = match action {
            None => {
                let c: Vec<AppCommand> = Vec::new();
                assert(commands_view(c@) =~= Seq::<CommandV>::empty());
                c
            },
            Some(GameAction::SendLine(l)) => {
                let mut c: Vec<AppCommand> = Vec::new();
                c.push(AppCommand::SendLine(l));
                assert(commands_view(c@) =~= seq![CommandV::SendLine(l@)]);
                c
            },
            Some(GameAction::Disconnect) => {
                self.game.on_disconnect();
                self.state = AppState::ServerSelect;
                let mut c: Vec<AppCommand> = Vec::new();
                c.push(AppCommand::Disconnect);
                assert(commands_view(c@) =~= seq![CommandV::Disconnect]);
                c
            },
            Some(GameAction::Quit) => {
                self.running = false;
                let mut c: Vec<AppCommand> = Vec::new();
                c.push(AppCommand::Disconnect);
                assert(commands_view(c@) =~= seq![CommandV::Disconnect]);
                return c;
            },
            Some(GameAction::CopyToClipboard(t)) => {
                let mut c: Vec<AppCommand> = Vec::new();
                c.push(AppCommand::WriteTerminal(osc52_sequence(t.as_str())));
                assert(commands_view(c@) =~= seq![CommandV::WriteTerminal(osc52(t@))]);
                c
            },
            Some(GameAction::AddAlias { name, expansion }) => self.add_alias(name.as_str(), expansion.as_str()),
            Some(GameAction::RemoveAlias(name)) => self.remove_alias(name.as_str()),
            Some(GameAction::AddTrigger { pattern, color, send }) => {
                let id = new_uuid_string();
                proof {
                    tid = id@;
                }
                self.add_trigger(pattern.as_str(), color, send, id)
            },
            Some(GameAction::RemoveTrigger(prefix)) => self.remove_trigger(prefix.as_str()),
            Some(GameAction::SaveSidebarLayout) => self.save_layout(),
        };
        let ghost c1 = commands_view(cmds@);
        let ghost mid = self@;
        assert(action_effect(a0, mid, act, tid, c1));
        assert(mid.game.auto_send_queue == a0.game.auto_send_queue);
        let mut q: Vec<String> = Vec::new();
        std::mem::swap(&mut q, &mut self.game.auto_send_queue);
        assert(crate::ui::game::texts(q@) == a0.game.auto_send_queue);
        let mut i: usize = 0;
        while i < q.len()
            invariant
                i <= q@.len(),
                commands_view(cmds@) == c1 + send_all(crate::ui::game::texts(q@).take(i as int)),
            decreases q.len() - i,
        {
            let ghost before = cmds@;
            cmds.push(AppCommand::SendLine(q[i].clone()));
            proof {
                let tq = crate::ui::game::texts(q@);
                assert(tq.take(i + 1) =~= tq.take(i as int).push(q@[i as int]@));
                assert(commands_view(cmds@) =~= commands_view(before).push(CommandV::SendLine(q@[i as int]@)));
                assert(send_all(tq.take(i + 1)) =~= send_all(tq.take(i as int)).push(CommandV::SendLine(q@[i as int]@)));
                assert(commands_view(cmds@) =~= c1 + send_all(tq.take(i + 1)));
            }
            i += 1;
        }
        proof {
            let tq = crate::ui::game::texts(q@);
            assert(tq.take(q@.len() as int) =~= tq);
            let cv = commands_view(cmds@);
            let n = cv.len() - tq.len();
            assert(cv.take(n) =~= c1);
            assert(cv.skip(n) =~= send_all(tq));
            assert(self@.game.auto_send_queue =~= Seq::<Seq<char>>::empty());
            assert((AppModel { game: GameModel { auto_send_queue: tq, ..self@.game }, ..self@ }) == mid);
            if act matches Some(GameAction::AddTrigger { .. }) {
                assert(is_uuid_text(tid));
            }
        }
        cmds
    }

    /// What connecting to `server_id` as `char_id` means: the server entry
    /// and, with a character, its name and login.  `None` when the server
    /// or the character is unknown.
    pub fn plan_connect(&self, server_id: &str, char_id: Option<&str>) -> (r: Option<ConnectPlan>)
        ensures
            match first_server_with_id(self.config.servers@, server_id@) {
                None => r is None,
                Some(si) => match char_id {
                    None => r matches Some(p) && plan_server(p, self.config.servers@[si]) && p.char_id is None
                        && p.char_name@ == "(anonymous)"@ && p.login is None && !p.login_set,
                    Some(cid) => match first_character_with_id(self.config.characters@, cid@) {
                        None => r is None,
                        Some(k) => {
                            let c = self.config.characters@[k];
                            &&& r matches Some(p)
                            &&& plan_server(p, self.config.servers@[si])
                            &&& opt_str(p.char_id) == Some(cid@)
                            &&& p.char_name@ == c.name@
                            &&& opt_str(p.login) == Some(spec_effective_login(c))
                            &&& p.login_set == c.login is Some
                        },
                    },
                },
            },
    {
        let server = match self.config.server_by_id(server_id) {
            Some(s) => s,
            None => return None,
        };
        match char_id {
            None => Some(ConnectPlan {
                server_id: server.id.clone(),
                server_name: server.name.clone(),
                host: server.host.clone(),
                port: server.port,
                tls: server.tls,
                char_id: None,
                char_name: string_of(&chars_of("(anonymous)")),
                login: None,
                login_set: false,
            }),
            Some(cid) => match self.config.character_index(cid) {
                None => None,
                Some(k) => {
                    let c = &self.config.characters[k];
                    Some(ConnectPlan {
                        server_id: server.id.clone(),
                        server_name: server.name.clone(),
                        host: server.host.clone(),
                        port: server.port,
                        tls: server.tls,
                        char_id: Some(string_of(&chars_of(cid))),
                        char_name: c.name.clone(),
                        login: Some(string_of(&chars_of(c.effective_login()))),
                        login_set: c.login.is_some(),
                    })
                },
            },
        }
    }

    /// Enter the game screen for a new session: the connected names are
    /// recorded and the game screen starts fresh and connected, with the
    /// character's aliases, triggers and sidebar layout.
    pub fn start_session(&mut self, plan: ConnectPlan)
        ensures
            session_game(final(self)@.game, match opt_str(plan.char_id) {
                Some(cid) => match first_character_with_id(old(self).config.characters@, cid) {
                    Some(k) => Some(old(self).config.characters@[k]),
                    None => None,
                },
                None => None,
            }),
            final(self)@ == (AppModel {
                state: AppState::Game,
                connected_server: Some(plan.server_name@),
                connected_server_id: Some(plan.server_id@),
                connected_char: Some(plan.char_name@),
                connected_char_id: opt_str(plan.char_id),
                game: final(self)@.game,
                rooms: Map::empty(),
                current_room: None,
                ..old(self)@
            }),
    {
        let mut g = GameState::new();
        let k_opt = match &plan.char_id {
            Some(cid) => self.config.character_index(cid.as_str()),
            None => None,
        };
        match k_opt {
            Some(k) => {
                g.sidebar = SidebarState::new(copy_layout(&self.config.characters[k].sidebar));
            },
            None => {},
        }
        g.on_connect();
        match k_opt {
            Some(k) => {
                g.set_aliases(copy_aliases(&self.config.characters[k].aliases));
                g.set_triggers(copy_triggers(&self.config.characters[k].triggers));
            },
            None => {},
        }
        self.game = g;
        self.connected_server = Some(plan.server_name);
        self.connected_server_id = Some(plan.server_id);
        self.connected_char = Some(plan.char_name);
        self.connected_char_id = plan.char_id;
        self.state = AppState::Game;
    }
}

/// The automatic login for a planned connection and the password found for
/// it: the login and the password when the character stores a login or a
/// password was found; nothing without a saved character.
pub fn auto_login(plan: &ConnectPlan, password: Option<String>) -> (r: Option<(String, Option<String>)>)
    ensures
        match plan.login {
            None => r is None,
            Some(l) => if plan.login_set || password is Some {
                r matches Some((a, b)) && a@ == l@ && b == password
            } else {
                r is None
            },
        },
{
    match &plan.login {
        None => None,
        Some(l) => if plan.login_set || password.is_some() {
            Some((l.clone(), password))
        } else {
            None
        },
    }
}

proof fn lemma_first_alias_last(s: Seq<crate::config::Alias>, name: Seq<char>)
    requires
        s.len() > 0,
        forall|i: int| 0 <= i < s.len() - 1 ==> (#[trigger] s[i]).name@ != name,
        s.last().name@ == name,
    ensures
        crate::ui::game::first_alias(s, name) == Some(s.len() - 1),
    decreases s.len(),
{
    if s.len() > 1 {
        let t = s.drop_first();
        assert forall|i: int| 0 <= i < t.len() - 1 implies (#[trigger] t[i]).name@ != name by {
            assert(t[i] == s[i + 1]);
        }
        lemma_first_alias_last(t, name);
    }
}

proof fn lemma_no_alias(s: Seq<crate::config::Alias>, name: Seq<char>)
    requires
        forall|i: int| 0 <= i < s.len() ==> (#[trigger] s[i]).name@ != name,
    ensures
        crate::ui::game::first_alias(s, name) is None,
    decreases s.len(),
{
    if s.len() > 0 {
        let t = s.drop_first();
        assert forall|i: int| 0 <= i < t.len() implies (#[trigger] t[i]).name@ != name by {
            assert(t[i] == s[i + 1]);
        }
        lemma_no_alias(t, name);
    }
}

/// Once an alias `name` → `expansion` has been added for the connected
/// character, the input line `name` expands to `expansion`.
pub proof fn law_added_alias_expands(a0: AppModel, a1: AppModel, name: Seq<char>, expansion: Seq<char>, cmds: Seq<CommandV>)
    requires
        alias_add_effect(a0, a1, name, expansion, cmds),
        a0.connected_char_id matches Some(cid) && first_character_with_id(a0.config.characters@, cid) is Some,
    ensures
        crate::ui::game::spec_expand_alias(a1.game.aliases, name) == expansion,
{
    let cid = a0.connected_char_id->0;
    let k = first_character_with_id(a0.config.characters@, cid)->0;
    let a = a1.game.aliases;
    let kept = aliases_without(a0.config.characters@[k].aliases@, name);
    assert(a.drop_last() == kept);
    kept.filter_lemma(|x: crate::config::Alias| x.name@ != name);
    a0.config.characters@[k].aliases@.filter_lemma(|x: crate::config::Alias| x.name@ != name);
    assert forall|i: int| 0 <= i < a.len() - 1 implies (#[trigger] a[i]).name@ != name by {
        assert(a[i] == a.drop_last()[i]);
    }
    lemma_first_alias_last(a, name);
}

/// Once alias `name` has been removed for the connected character, the
/// character has no alias of that name, and the line `name` is no longer
/// an alias of it.
pub proof fn law_removed_alias_absent(a0: AppModel, a1: AppModel, name: Seq<char>, cmds: Seq<CommandV>)
    requires
        alias_remove_effect(a0, a1, name, cmds),
        a0.connected_char_id matches Some(cid) && first_character_with_id(a0.config.characters@, cid) is Some,
    ensures
        ({
            let k = first_character_with_id(a0.config.characters@, a0.connected_char_id->0)->0;
            let a = a1.config.characters@[k].aliases@;
            &&& forall|i: int| 0 <= i < a.len() ==> (#[trigger] a[i]).name@ != name
            &&& crate::ui::game::first_alias(a, name) is None
        }),
{
    let k = first_character_with_id(a0.config.characters@, a0.connected_char_id->0)->0;
    a0.config.characters@[k].aliases@.filter_lemma(|x: crate::config::Alias| x.name@ != name);
    lemma_no_alias(a1.config.characters@[k].aliases@, name);
}

/// Once the triggers with id prefix `prefix` have been removed for the
/// connected character, none of its triggers has an id with that prefix.
pub proof fn law_removed_triggers_absent(a0: AppModel, a1: AppModel, prefix: Seq<char>, cmds: Seq<CommandV>)
    requires
        trigger_remove_effect(a0, a1, prefix, cmds),
        a0.connected_char_id matches Some(cid) && first_character_with_id(a0.config.characters@, cid) is Some,
    ensures
        ({
            let k = first_character_with_id(a0.config.characters@, a0.connected_char_id->0)->0;
            let t = a1.config.characters@[k].triggers@;
            forall|i: int| 0 <= i < t.len() ==> !crate::text::starts_with((#[trigger] t[i]).id@, prefix)
        }),
{
    let k = first_character_with_id(a0.config.characters@, a0.connected_char_id->0)->0;
    a0.config.characters@[k].triggers@.filter_lemma(|x: Trigger| !crate::text::starts_with(x.id@, prefix));
}

} // verus!
