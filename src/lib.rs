//! Window tiling and directional focus for a tiling window manager.
//!
//! The verified core places clients into non-overlapping regions (main+side
//! and dwindle layouts), keeps the last placement in a registry, and picks a
//! focus target by direction from the registered placements. Around it sit
//! the small pieces of the window manager's own logic: key binding parsing,
//! screen cycling, the new-window hook and the status bar's events.

pub mod bar;
pub mod channel;
pub mod colours;
pub mod commands;
pub mod engine;
pub mod error;
pub mod geometry;
pub mod hooks;
pub mod keys;
pub mod layout;
pub mod media;
pub mod navigator;
pub mod registry;
pub mod screens;
pub mod shared;

pub use bar::{bar_region, Align, BarPosition, StatusBarEvent, StatusBarHook};
pub use colours::Dracula;
pub use commands::{CommandListener, Message};
pub use engine::{layout, layout_into, LayoutKind};
pub use error::TileError;
pub use geometry::{ClientId, Region};
pub use hooks::NewWindowHook;
pub use keys::{parse_binding, KeyChord, KeyMod};
pub use layout::{dwindle, main_plus_side, Ratio};
pub use media::{non_blank_artists, now_playing, track_line};
pub use navigator::{navigate, SwitchDirection};
pub use registry::RegionMap;
pub use screens::{target_screen, CycleDirection};
pub use shared::RegionRegistry;
