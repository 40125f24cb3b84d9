//! The decisions of the application shell: settings, console commands, menu
//! events, keyboard routing, the status display and frame bookkeeping.

pub mod command;
pub mod command_laws;
pub mod frame;
pub mod frame_laws;
pub mod hud;
pub mod hud_laws;
pub mod input;
pub mod menu;
pub mod metrics;
pub mod settings;
pub mod settings_laws;
pub mod ui;
pub mod ui_laws;
