use wstm::events::{handle_window_input, WindowAction, WindowInput};

#[test]
fn escape_toggles_fullscreen() {
    let mut fullscreen = false;
    assert_eq!(
        handle_window_input(&mut fullscreen, WindowInput::EscapePressed),
        WindowAction::SetFullscreen(true)
    );
    assert!(fullscreen);
    assert_eq!(
        handle_window_input(&mut fullscreen, WindowInput::EscapePressed),
        WindowAction::SetFullscreen(false)
    );
    assert!(!fullscreen);
}

#[test]
fn other_events_keep_the_mode() {
    let mut fullscreen = true;
    assert_eq!(handle_window_input(&mut fullscreen, WindowInput::CloseRequested), WindowAction::Exit);
    assert_eq!(
        handle_window_input(&mut fullscreen, WindowInput::Resized { width: 800, height: 600 }),
        WindowAction::Resize { width: 800, height: 600 }
    );
    assert_eq!(handle_window_input(&mut fullscreen, WindowInput::Other), WindowAction::Nothing);
    assert!(fullscreen);
}
