//! Window input state: the part of the window's state that events keep up to date without any
//! scaling (sizes in physical pixels, focus, mouse buttons).

use vstd::prelude::*;

verus! {

/// A mouse button.
#[derive(PartialEq, Eq, Structural, Clone, Copy, Debug)]
pub enum MouseButtonKind {
    Left,
    Right,
    Middle,
    Back,
    Forward,
    Other(u16),
}

/// A window event, as far as the input state reads it.
#[derive(PartialEq, Eq, Structural, Clone, Copy, Debug)]
pub enum InputEvent {
    /// The window's inner size changed, in physical pixels (width, height).
    Resized(u32, u32),
    /// The window gained (`true`) or lost focus.
    Focused(bool),
    /// A mouse button went down (`pressed`) or up.
    MouseInput { pressed: bool, button: MouseButtonKind },
    /// Anything else.
    Other,
}

/// Input state of a window.
#[derive(PartialEq, Eq, Structural, Clone, Copy, Debug)]
pub struct InputState {
    pub physical_width: u32,
    pub physical_height: u32,
    pub focused: bool,
    pub left_mouse_btn: bool,
    pub right_mouse_btn: bool,
}

/// The input state after an event.
pub open spec fn spec_after_event(s: InputState, e: InputEvent) -> InputState {
    match e {
        InputEvent::Resized(w, h) => if w > 0 && h > 0 {
            InputState { physical_width: w, physical_height: h, ..s }
        } else {
            s
        },
        InputEvent::Focused(f) => InputState { focused: f, ..s },
        InputEvent::MouseInput { pressed, button } => match button {
            MouseButtonKind::Left => InputState { left_mouse_btn: pressed, ..s },
            MouseButtonKind::Right => InputState { right_mouse_btn: pressed, ..s },
            _ => s,
        },
        InputEvent::Other => s,
    }
}

/// Update the input state for an event. A resize to a zero width or height (what Windows
/// reports on minimise) is ignored. Returns whether the physical size changed, in which case
/// the logical size has to follow.
pub fn window_event(state: &mut InputState, event: &InputEvent) -> (resized: bool)
    ensures
        *final(state) == spec_after_event(*old(state), *event),
        resized == (event matches InputEvent::Resized(w, h) && w > 0 && h > 0),
{
    match *event {
        InputEvent::Resized(w, h) => {
            if w > 0 && h > 0 {
                state.physical_width = w;
                state.physical_height = h;
                true
            } else {
                false
            }
        },
        InputEvent::Focused(f) => {
            state.focused = f;
            false
        },
        InputEvent::MouseInput { pressed, button } => {
            match button {
                MouseButtonKind::Left => {
                    state.left_mouse_btn = pressed;
                },
                MouseButtonKind::Right => {
                    state.right_mouse_btn = pressed;
                },
                _ => {},
            }
            false
        },
        InputEvent::Other => false,
    }
}

/// A window never takes a zero size from events: from a state with a non-zero size, every
/// event leaves a non-zero size.
pub proof fn lemma_size_never_zero(s: InputState, e: InputEvent)
    requires
        s.physical_width > 0,
        s.physical_height > 0,
    ensures
        spec_after_event(s, e).physical_width > 0,
        spec_after_event(s, e).physical_height > 0,
{
}

/// A release after a press of the same button leaves that button up, whatever state came
/// before.
pub proof fn lemma_press_then_release(s: InputState, b: MouseButtonKind)
    ensures
        ({
            let pressed = spec_after_event(s, InputEvent::MouseInput { pressed: true, button: b });
            let released = spec_after_event(pressed, InputEvent::MouseInput { pressed: false, button: b });
            &&& !released.left_mouse_btn || b != MouseButtonKind::Left
            &&& !released.right_mouse_btn || b != MouseButtonKind::Right
            &&& released.physical_width == s.physical_width
            &&& released.physical_height == s.physical_height
            &&& released.focused == s.focused
        }),
{
}

} // verus!
