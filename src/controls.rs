//! State and hit-testing of the settings window's controls: the tab bar,
//! the on/off switches, the opacity slider and the update button.
use vstd::prelude::*;

use crate::monitor::Rect;
use crate::opacity::{clamped, MAX_OPACITY};

verus! {

/// Which tab of the settings window is shown.
#[derive(Clone, Copy, Debug, PartialEq, Eq, Structural)]
pub enum Tab {
    Dimmer,
    Settings,
    Shortcuts,
}

/// The empty rectangle at the origin, before a control is laid out.
pub fn empty_rect() -> (r: Rect)
    ensures
        r == (Rect { left: 0, top: 0, right: 0, bottom: 0 }),
{
    Rect { left: 0, top: 0, right: 0, bottom: 0 }
}

/// An on/off switch.
#[derive(Clone, Debug)]
pub struct ToggleState {
    pub checked: bool,
    pub rect: Rect,
}

impl ToggleState {
    /// A switch in the given position, not laid out yet.
    pub fn new(checked: bool) -> (r: ToggleState)
        ensures
            r.checked == checked,
            r.rect == empty_rect_spec(),
    {
        ToggleState { checked, rect: empty_rect() }
    }
}

/// The empty rectangle at the origin.
pub open spec fn empty_rect_spec() -> Rect {
    Rect { left: 0, top: 0, right: 0, bottom: 0 }
}

/// The opacity slider, in whole percent from 0 to 90.
#[derive(Clone, Debug)]
pub struct SliderState {
    pub value: i32,
    pub dragging: bool,
    /// The whole track.
    pub rect: Rect,
    /// The thumb's hit area.
    pub thumb_rect: Rect,
}

/// `a / b` rounded toward zero, as integer division in Rust does.
pub open spec fn div_trunc(a: int, b: int) -> int {
    if a >= 0 {
        a / b
    } else {
        -((-a) / b)
    }
}

/// The width of a rectangle.
pub open spec fn width_of(r: Rect) -> int {
    r.right - r.left
}

impl SliderState {
    /// A slider at `value`, clamped to `[0, 90]`.
    pub fn new(value: i32) -> (r: SliderState)
        ensures
            r.value == clamped(value as int),
            !r.dragging,
            r.rect == empty_rect_spec(),
            r.thumb_rect == empty_rect_spec(),
    {
        let v: i32 = if value < 0 {
            0
        } else if value > MAX_OPACITY as i32 {
            MAX_OPACITY as i32
        } else {
            value
        };
        SliderState { value: v, dragging: false, rect: empty_rect(), thumb_rect: empty_rect() }
    }

    /// The x position of the thumb: the track's left edge plus the value's
    /// share (out of 90) of the track's width, rounded toward zero. A value
    /// outside `[0, 90]` counts as clamped, so the thumb stays on the track.
    pub fn thumb_x(&self) -> (x: i32)
        ensures
            x == self.rect.left + div_trunc(clamped(self.value as int) * width_of(self.rect), 90),
    {
        let value: i64 = if self.value < 0 {
            0
        } else if self.value > MAX_OPACITY as i32 {
            MAX_OPACITY as i64
        } else {
            self.value as i64
        };
        let width: i64 = self.rect.right as i64 - self.rect.left as i64;
        assert(-0x1_0000_0000 * 90 <= value * width <= 0x1_0000_0000 * 90) by (nonlinear_arith)
            requires
                0 <= value <= 90,
                -0x1_0000_0000 <= width <= 0x1_0000_0000,
        ;
        let product: i64 = value * width;
        let share: i64 = if product >= 0 {
            product / 90
        } else {
            -((-product) / 90)
        };
        proof {
            let v = value as int;
            let w = width as int;
            if w >= 0 {
                assert(0 <= v * w <= 90 * w) by (nonlinear_arith)
                    requires
                        0 <= v <= 90,
                        w >= 0,
                ;
                assert(0 <= share <= w);
            } else {
                assert(90 * w <= v * w <= 0) by (nonlinear_arith)
                    requires
                        0 <= v <= 90,
                        w < 0,
                ;
                assert(w <= share <= 0);
            }
        }
        (self.rect.left as i64 + share) as i32
    }

    /// The value that the x position `x` on the track stands for: its share
    /// of the track's width, clamped to the track, times 90, rounded to the
    /// nearest whole percent (halves upward). A track without width keeps
    /// the current value.
    pub fn value_from_x(&self, x: i32) -> (v: i32)
        ensures
            width_of(self.rect) <= 0 ==> v == self.value,
            width_of(self.rect) > 0 ==> v == ({
                let w = width_of(self.rect);
                let rel = x - self.rect.left;
                let rel = if rel < 0 { 0 } else if rel > w { w } else { rel };
                (rel * 180 + w) / (2 * w)
            }),
            width_of(self.rect) > 0 ==> 0 <= v <= 90,
    {
        let width: i64 = self.rect.right as i64 - self.rect.left as i64;
        if width <= 0 {
            return self.value;
        }
        let mut rel: i64 = x as i64 - self.rect.left as i64;
        if rel < 0 {
            rel = 0;
        } else if rel > width {
            rel = width;
        }
        proof {
            assert(rel * 180 + width <= 2 * width * 90 + width) by (nonlinear_arith)
                requires
                    0 <= rel <= width,
            ;
            assert((rel * 180 + width) / (2 * width) <= 90) by (nonlinear_arith)
                requires
                    0 <= rel <= width,
                    width > 0,
            ;
        }
        ((rel * 180 + width) / (2 * width)) as i32
    }
}

/// The "Check Now" button.
#[derive(Clone, Debug)]
pub struct ButtonState {
    pub rect: Rect,
    pub hover: bool,
    pub disabled: bool,
    pub text: String,
}

impl ButtonState {
    /// An enabled button with the label `text`.
    pub fn new(text: &str) -> (r: ButtonState)
        ensures
            r.text@ == text@,
            !r.hover,
            !r.disabled,
            r.rect == empty_rect_spec(),
    {
        ButtonState { rect: empty_rect(), hover: false, disabled: false, text: String::from_str(text) }
    }
}

/// The whole state of the settings window.
#[derive(Clone, Debug)]
pub struct UiState {
    pub active_tab: Tab,
    pub tab_rects: [Rect; 3],
    pub tab_bar_rect: Rect,
    pub slider: SliderState,
    pub enabled_toggle: ToggleState,
    pub autostart_toggle: ToggleState,
    pub auto_update_toggle: ToggleState,
    pub check_update_btn: ButtonState,
    pub update_status_text: String,
    pub shortcut_texts: [String; 3],
    pub toast_message: String,
    pub toast_visible: bool,
    pub credit_rect: Rect,
}

impl UiState {
    /// The window as it opens: the dimmer tab, the slider at 30 percent,
    /// dimming and automatic updates switched on, autostart off, and the
    /// default shortcuts.
    pub fn new() -> (r: UiState)
        ensures
            r.active_tab == Tab::Dimmer,
            r.slider.value == 30,
            r.enabled_toggle.checked,
            !r.autostart_toggle.checked,
            r.auto_update_toggle.checked,
            r.check_update_btn.text@ == "Check Now"@,
            r.update_status_text@.len() == 0,
            r.shortcut_texts[0]@ == "Ctrl+Alt+End"@,
            r.shortcut_texts[1]@ == "Ctrl+Alt+Up"@,
            r.shortcut_texts[2]@ == "Ctrl+Alt+Down"@,
            r.toast_message@.len() == 0,
            !r.toast_visible,
    {
        UiState {
            active_tab: Tab::Dimmer,
            tab_rects: [empty_rect(), empty_rect(), empty_rect()],
            tab_bar_rect: empty_rect(),
            slider: SliderState::new(30),
            enabled_toggle: ToggleState::new(true),
            autostart_toggle: ToggleState::new(false),
            auto_update_toggle: ToggleState::new(true),
            check_update_btn: ButtonState::new("Check Now"),
            update_status_text: String::new(),
            shortcut_texts: [
                String::from_str("Ctrl+Alt+End"),
                String::from_str("Ctrl+Alt+Up"),
                String::from_str("Ctrl+Alt+Down"),
            ],
            toast_message: String::new(),
            toast_visible: false,
            credit_rect: empty_rect(),
        }
    }
}

} // verus!
