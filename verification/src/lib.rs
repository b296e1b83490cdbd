//! Verified core of a desktop shell for the Niri Wayland compositor: text input
//! editing, popup-menu navigation, output selection, audio and tray state.
use vstd::prelude::*;

pub mod assets;
pub mod audio;
pub mod audio_graph;
pub mod bars;
pub mod config;
pub mod dbus_menu;
pub mod focus;
pub mod input;
pub mod ipc;
pub mod lock;
pub mod launcher;
pub mod menu;
pub mod search;
pub mod seqs;
pub mod shell;
pub mod tray;
pub mod tray_state;
pub mod watcher;

verus! {

} // verus!
