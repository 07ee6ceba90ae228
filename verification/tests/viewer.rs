use mandelbrot::input::{command_for, Command, InputEvent, Key};

#[test]
fn closing_the_window_quits() {
    assert_eq!(command_for(InputEvent::Quit), Command::Quit);
}

#[test]
fn escape_quits_even_when_held() {
    assert_eq!(command_for(InputEvent::KeyDown { key: Key::Escape, repeat: false }), Command::Quit);
    assert_eq!(command_for(InputEvent::KeyDown { key: Key::Escape, repeat: true }), Command::Quit);
}

#[test]
fn fresh_presses_zoom_and_pan() {
    let press = |key: Key| command_for(InputEvent::KeyDown { key, repeat: false });
    assert_eq!(press(Key::E), Command::ZoomIn);
    assert_eq!(press(Key::Q), Command::ZoomOut);
    assert_eq!(press(Key::A), Command::PanLeft);
    assert_eq!(press(Key::D), Command::PanRight);
    assert_eq!(press(Key::W), Command::PanUp);
    assert_eq!(press(Key::S), Command::PanDown);
}

#[test]
fn held_keys_are_ignored() {
    for key in [Key::E, Key::Q, Key::A, Key::D, Key::W, Key::S, Key::Other] {
        assert_eq!(command_for(InputEvent::KeyDown { key, repeat: true }), Command::Ignore);
    }
}

#[test]
fn unbound_keys_and_other_events_are_ignored() {
    assert_eq!(command_for(InputEvent::KeyDown { key: Key::Other, repeat: false }), Command::Ignore);
    assert_eq!(command_for(InputEvent::Other), Command::Ignore);
}
