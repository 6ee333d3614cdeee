//! Keyboard intents of one frame, as plain flags, and the keys that give
//! them.

use vstd::prelude::*;

verus! {

/// One frame's worth of keyboard intents.
#[derive(Clone, Copy, Debug)]
pub struct InputState {
    pub next: bool,
    pub prev: bool,
    pub first: bool,
    pub last: bool,
    pub zoom_in: bool,
    pub zoom_out: bool,
    pub reset_view: bool,
    pub toggle_fullscreen: bool,
    pub toggle_help: bool,
}

impl InputState {
    /// Whether no intent is set.
    pub open spec fn is_idle(self) -> bool {
        !self.next && !self.prev && !self.first && !self.last && !self.zoom_in && !self.zoom_out
            && !self.reset_view && !self.toggle_fullscreen && !self.toggle_help
    }
}

/// The keys that the viewer reacts to.
#[derive(Clone, Copy, Debug, PartialEq, Eq, Structural)]
pub enum ViewerKey {
    ArrowRight,
    Space,
    ArrowLeft,
    Backspace,
    Home,
    End,
    Plus,
    Equals,
    Minus,
    Num0,
    R,
    F11,
    F,
    H,
    F1,
}

/// Whether `key` is among the keys `pressed` in this frame.
fn is_pressed(pressed: &Vec<ViewerKey>, key: ViewerKey) -> (r: bool)
    ensures
        r == pressed@.contains(key),
{
    let mut i: usize = 0;
    while i < pressed.len()
        invariant
            i <= pressed@.len(),
            forall|j: int| 0 <= j < i ==> pressed@[j] != key,
        decreases pressed@.len() - i,
    {
        if pressed[i] == key {
            return true;
        }
        i = i + 1;
    }
    false
}

impl InputState {
    /// The intents that the keys `pressed` in this frame give: next image on
    /// → or Space, previous on ← or Backspace, first on Home, last on End,
    /// zoom in on + or =, zoom out on -, reset on 0 or R, full screen on F11
    /// or F, help on H or F1.
    pub fn read(pressed: &Vec<ViewerKey>) -> (r: InputState)
        ensures
            r.next == (pressed@.contains(ViewerKey::ArrowRight) || pressed@.contains(
                ViewerKey::Space,
            )),
            r.prev == (pressed@.contains(ViewerKey::ArrowLeft) || pressed@.contains(
                ViewerKey::Backspace,
            )),
            r.first == pressed@.contains(ViewerKey::Home),
            r.last == pressed@.contains(ViewerKey::End),
            r.zoom_in == (pressed@.contains(ViewerKey::Plus) || pressed@.contains(
                ViewerKey::Equals,
            )),
            r.zoom_out == pressed@.contains(ViewerKey::Minus),
            r.reset_view == (pressed@.contains(ViewerKey::Num0) || pressed@.contains(ViewerKey::R)),
            r.toggle_fullscreen == (pressed@.contains(ViewerKey::F11) || pressed@.contains(
                ViewerKey::F,
            )),
            r.toggle_help == (pressed@.contains(ViewerKey::H) || pressed@.contains(ViewerKey::F1)),
    {
        let arrow_right = is_pressed(pressed, ViewerKey::ArrowRight);
        let space = is_pressed(pressed, ViewerKey::Space);
        let arrow_left = is_pressed(pressed, ViewerKey::ArrowLeft);
        let backspace = is_pressed(pressed, ViewerKey::Backspace);
        let plus = is_pressed(pressed, ViewerKey::Plus);
        let equals = is_pressed(pressed, ViewerKey::Equals);
        let num0 = is_pressed(pressed, ViewerKey::Num0);
        let r_key = is_pressed(pressed, ViewerKey::R);
        let f11 = is_pressed(pressed, ViewerKey::F11);
        let f_key = is_pressed(pressed, ViewerKey::F);
        let h_key = is_pressed(pressed, ViewerKey::H);
        let f1 = is_pressed(pressed, ViewerKey::F1);
        InputState {
            next: arrow_right || space,
            prev: arrow_left || backspace,
            first: is_pressed(pressed, ViewerKey::Home),
            last: is_pressed(pressed, ViewerKey::End),
            zoom_in: plus || equals,
            zoom_out: is_pressed(pressed, ViewerKey::Minus),
            reset_view: num0 || r_key,
            toggle_fullscreen: f11 || f_key,
            toggle_help: h_key || f1,
        }
    }
}

impl Default for InputState {
    /// A frame without any key pressed.
    fn default() -> (r: Self)
        ensures
            r.is_idle(),
    {
        InputState {
            next: false,
            prev: false,
            first: false,
            last: false,
            zoom_in: false,
            zoom_out: false,
            reset_view: false,
            toggle_fullscreen: false,
            toggle_help: false,
        }
    }
}

} // verus!
