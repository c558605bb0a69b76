//! Hotkey intents: what the toggle and the brighter / darker shortcuts do to
//! the dimming settings, and which native work each change asks for.
use vstd::prelude::*;

use crate::opacity::{clamp_opacity, clamped, valid_opacity};
use crate::state::{OpacityState, OpacityStateView};

verus! {

/// A global shortcut of the dimmer.
#[derive(Clone, Copy, Debug, PartialEq, Eq, Structural)]
pub enum HotkeyAction {
    Toggle,
    Increase,
    Decrease,
}

/// The step, in percent, of one brighter or darker shortcut.
pub const OPACITY_STEP: i32 = 10;

/// The native work that a change of the settings asks for.
#[derive(Clone, Copy, Debug, PartialEq, Eq, Structural)]
pub enum DimCommand {
    /// Build a new session from the settings (after hiding the old one).
    Show,
    /// End the session.
    Hide,
    /// Update the opacity of the session in place.
    Retune,
}

/// The name a display argument carries.
pub open spec fn name_of(display: Option<&String>) -> Option<Seq<char>> {
    match display {
        Some(n) => Some(n@),
        None => None,
    }
}

/// The toggle: turning off remembers the current level when it is above
/// zero and sets the opacity to zero; turning on restores the remembered
/// level. The result is the new state, the new remembered level and the
/// native work to do.
pub open spec fn toggled(s: OpacityStateView, last: u32) -> (OpacityStateView, u32, DimCommand) {
    if s.enabled {
        (
            OpacityStateView { enabled: false, global_opacity: 0, ..s },
            if s.global_opacity > 0 { s.global_opacity } else { last },
            DimCommand::Hide,
        )
    } else {
        (OpacityStateView { enabled: true, global_opacity: last, ..s }, last, DimCommand::Show)
    }
}

/// A step of `delta` percent: dimming is turned on first, at the remembered
/// level, if it was off. In multi-monitor mode with a display named, only
/// that display's override changes (from its current opacity); otherwise
/// the global opacity does, and a level above zero is remembered.
pub open spec fn adjusted(s: OpacityStateView, last: u32, delta: int, display: Option<Seq<char>>) -> (
    OpacityStateView,
    u32,
    DimCommand,
) {
    let base = if s.enabled { s.global_opacity } else { last };
    let on = OpacityStateView { enabled: true, global_opacity: base, ..s };
    let cmd = if s.enabled { DimCommand::Retune } else { DimCommand::Show };
    match display {
        Some(name) if s.multi_monitor => (
            OpacityStateView {
                overrides: on.overrides.insert(name, clamped(on.opacity_for(name) + delta) as u32),
                ..on
            },
            last,
            cmd,
        ),
        _ => {
            let level = clamped(base + delta) as u32;
            (OpacityStateView { global_opacity: level, ..on }, if level > 0 { level } else { last }, cmd)
        },
    }
}

/// What a global shortcut does.
pub open spec fn after_hotkey(
    s: OpacityStateView,
    last: u32,
    action: HotkeyAction,
    display: Option<Seq<char>>,
) -> (OpacityStateView, u32, DimCommand) {
    match action {
        HotkeyAction::Toggle => toggled(s, last),
        HotkeyAction::Increase => adjusted(s, last, OPACITY_STEP as int, display),
        HotkeyAction::Decrease => adjusted(s, last, -OPACITY_STEP as int, display),
    }
}

/// Whether the global shortcuts are installed.
#[derive(Clone, Copy, Debug)]
pub struct HotkeyRegistry {
    pub registered: bool,
}

impl HotkeyRegistry {
    /// No shortcut installed.
    pub fn new() -> (r: HotkeyRegistry)
        ensures
            !r.registered,
    {
        HotkeyRegistry { registered: false }
    }

    /// Marks the shortcuts installed. Returns true when they were not, so
    /// that the caller installs the native monitors once only.
    pub fn register_all(&mut self) -> (install: bool)
        ensures
            install == !old(self).registered,
            final(self).registered,
    {
        let install = !self.registered;
        self.registered = true;
        install
    }

    /// Marks the shortcuts removed.
    pub fn unregister_all(&mut self)
        ensures
            !final(self).registered,
    {
        self.registered = false;
    }
}

/// The dimming settings that the shortcuts change: the opacity state and
/// the last level the user chose, restored when dimming is turned back on.
#[derive(Clone, Debug)]
pub struct DimmerSettings {
    pub state: OpacityState,
    pub last_opacity: u32,
}

impl DimmerSettings {
    /// Opacities in range, overrides well formed.
    pub open spec fn wf(&self) -> bool {
        self.state.wf() && valid_opacity(self.last_opacity as int)
    }

    /// Settings with the given state and remembered level, clamped.
    pub fn new(state: OpacityState, last_opacity: i64) -> (r: DimmerSettings)
        requires
            state.wf(),
        ensures
            r.wf(),
            r.state@ == state@,
            r.last_opacity as int == clamped(last_opacity as int),
    {
        DimmerSettings { state, last_opacity: clamp_opacity(last_opacity) }
    }

    /// Turns dimming off or on. Turning off remembers the current level
    /// (when it is above zero) and sets the opacity to zero; turning on
    /// restores the remembered level.
    pub fn toggle_dimmer(&mut self) -> (cmd: DimCommand)
        requires
            old(self).wf(),
        ensures
            final(self).wf(),
            (final(self).state@, final(self).last_opacity, cmd) == toggled(old(self).state@, old(self).last_opacity),
    {
        if self.state.enabled {
            if self.state.global_opacity > 0 {
                self.last_opacity = self.state.global_opacity;
            }
            self.state.enabled = false;
            self.state.global_opacity = 0;
            DimCommand::Hide
        } else {
            self.state.enabled = true;
            self.state.global_opacity = self.last_opacity;
            DimCommand::Show
        }
    }

    /// Makes the screen darker (positive `delta`) or brighter (negative),
    /// in percent, turning dimming on first at the remembered level if it
    /// was off. In multi-monitor mode with `display` naming the display under
    /// the cursor, only that display's override changes; otherwise the global
    /// opacity does, and a level above zero is remembered.
    pub fn adjust_opacity(&mut self, delta: i32, display: Option<&String>) -> (cmd: DimCommand)
        requires
            old(self).wf(),
        ensures
            final(self).wf(),
            (final(self).state@, final(self).last_opacity, cmd) == adjusted(
                old(self).state@,
                old(self).last_opacity,
                delta as int,
                name_of(display),
            ),
    {
        let was_on = self.state.enabled;
        if !was_on {
            self.state.enabled = true;
            self.state.global_opacity = self.last_opacity;
        }
        match display {
            Some(name) if self.state.multi_monitor => {
                let current = self.state.opacity_for(name);
                self.state.set_display_opacity(name, current as i64 + delta as i64);
            },
            _ => {
                let level = clamp_opacity(self.state.global_opacity as i64 + delta as i64);
                self.state.global_opacity = level;
                if level > 0 {
                    self.last_opacity = level;
                }
            },
        }
        if was_on {
            DimCommand::Retune
        } else {
            DimCommand::Show
        }
    }

    /// Applies a global shortcut: the toggle, or one opacity step darker or
    /// brighter on `display` (the display under the cursor).
    pub fn apply_hotkey(&mut self, action: HotkeyAction, display: Option<&String>) -> (cmd: DimCommand)
        requires
            old(self).wf(),
        ensures
            final(self).wf(),
            (final(self).state@, final(self).last_opacity, cmd) == after_hotkey(
                old(self).state@,
                old(self).last_opacity,
                action,
                name_of(display),
            ),
    {
        match action {
            HotkeyAction::Toggle => self.toggle_dimmer(),
            HotkeyAction::Increase => self.adjust_opacity(OPACITY_STEP, display),
            HotkeyAction::Decrease => self.adjust_opacity(-OPACITY_STEP, display),
        }
    }
}

} // verus!
