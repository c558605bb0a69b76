//! A screen dimmer's engine: which displays to darken, by a compositor
//! colour transform or by overlay surfaces, at which opacity; the watchdog
//! that keeps overlays on top without flicker; display naming; the hotkey
//! intents; the settings window's controls; and the update check's reading
//! of the release feed.
pub mod controls;
pub mod engine;
pub mod guardian;
pub mod hotkeys;
pub mod monitor;
pub mod opacity;
pub mod state;
pub mod text;
pub mod updater;
