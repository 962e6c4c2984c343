//! How the window reacts to its events: closing, resizing, and switching
//! full-screen mode with the Escape key.
use vstd::prelude::*;

verus! {

/// The window events the visualiser reacts to.
#[derive(Clone, Copy, Debug, PartialEq, Eq, Structural)]
pub enum WindowInput {
    CloseRequested,
    Resized { width: u32, height: u32 },
    /// The Escape key went down.
    EscapePressed,
    Other,
}

/// What the window loop does in response to an event.
#[derive(Clone, Copy, Debug, PartialEq, Eq, Structural)]
pub enum WindowAction {
    Exit,
    Resize { width: u32, height: u32 },
    /// Enter (`true`) or leave (`false`) borderless full-screen mode.
    SetFullscreen(bool),
    Nothing,
}

/// The full-screen flag after an event, and the action it calls for.
pub open spec fn window_step(fullscreen: bool, input: WindowInput) -> (bool, WindowAction) {
    match input {
        WindowInput::CloseRequested => (fullscreen, WindowAction::Exit),
        WindowInput::Resized { width, height } => (
            fullscreen,
            WindowAction::Resize { width, height },
        ),
        WindowInput::EscapePressed => (!fullscreen, WindowAction::SetFullscreen(!fullscreen)),
        WindowInput::Other => (fullscreen, WindowAction::Nothing),
    }
}

/// Reacts to a window event: a close request exits, a resize resizes, and
/// Escape toggles full-screen mode.
pub fn handle_window_input(fullscreen: &mut bool, input: WindowInput) -> (a: WindowAction)
    ensures
        (*final(fullscreen), a) == window_step(*old(fullscreen), input),
        input == WindowInput::CloseRequested ==> a == WindowAction::Exit,
        input matches WindowInput::Resized { width, height } ==> a == (WindowAction::Resize {
            width,
            height,
        }),
        input == WindowInput::EscapePressed ==> *final(fullscreen) == !*old(fullscreen)
            && a == WindowAction::SetFullscreen(!*old(fullscreen)),
        input == WindowInput::Other ==> a == WindowAction::Nothing,
        input != WindowInput::EscapePressed ==> *final(fullscreen) == *old(fullscreen),
{
    match input {
        WindowInput::CloseRequested => WindowAction::Exit,
        WindowInput::Resized { width, height } => WindowAction::Resize { width, height },
        WindowInput::EscapePressed => {
            if *fullscreen {
                *fullscreen = false;
                WindowAction::SetFullscreen(false)
            } else {
                *fullscreen = true;
                WindowAction::SetFullscreen(true)
            }
        },
        WindowInput::Other => WindowAction::Nothing,
    }
}

/// Escape switches full-screen mode, and pressing it twice restores the mode
/// the window was in; no other event changes the mode.
pub proof fn law_escape_toggles(fullscreen: bool, input: WindowInput)
    ensures
        window_step(window_step(fullscreen, WindowInput::EscapePressed).0, WindowInput::EscapePressed).0
            == fullscreen,
        window_step(fullscreen, WindowInput::EscapePressed).0 != fullscreen,
        input != WindowInput::EscapePressed ==> window_step(fullscreen, input).0 == fullscreen,
        window_step(fullscreen, input).1 matches WindowAction::SetFullscreen(on) ==> on
            == window_step(fullscreen, input).0,
{
}

/// A close request exits and a resize resizes to the new size, whatever the
/// full-screen mode; unrelated events do nothing.
pub proof fn law_window_actions(fullscreen: bool, width: u32, height: u32)
    ensures
        window_step(fullscreen, WindowInput::CloseRequested).1 == WindowAction::Exit,
        window_step(fullscreen, WindowInput::Resized { width, height }).1 == (WindowAction::Resize {
            width,
            height,
        }),
        window_step(fullscreen, WindowInput::Other).1 == WindowAction::Nothing,
        window_step(fullscreen, WindowInput::EscapePressed).1 == WindowAction::SetFullscreen(
            !fullscreen,
        ),
{
}

} // verus!
