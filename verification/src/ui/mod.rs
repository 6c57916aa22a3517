//! Screen state machines: keyboard input, the sidebar panels, the game view
//! and the server / character selection screen.

pub mod keys;
pub mod layout;
pub mod sidebar;
pub mod style;
pub mod game;
pub mod selection;
pub mod widgets;
