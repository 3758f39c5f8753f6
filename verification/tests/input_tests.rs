use syber::input::{
    egui_key_to_scancode, key_event, mouse_button_event, scancode_to_xdotool, xdotool_command,
    InputEvent, Key, MouseButtonKind, PointerButton,
};
use syber::input::{is_disconnect_hotkey, keys_to_forward, windows_input, KeyPress, WindowsInput};

#[test]
fn scancodes_of_keys() {
    assert_eq!(egui_key_to_scancode(Key::A), Some(0x1E));
    assert_eq!(egui_key_to_scancode(Key::Z), Some(0x2C));
    assert_eq!(egui_key_to_scancode(Key::Num0), Some(0x0B));
    assert_eq!(egui_key_to_scancode(Key::Num1), Some(0x02));
    assert_eq!(egui_key_to_scancode(Key::Escape), Some(0x01));
    assert_eq!(egui_key_to_scancode(Key::ArrowLeft), Some(0xE04B));
    assert_eq!(egui_key_to_scancode(Key::Delete), Some(0xE053));
    assert_eq!(egui_key_to_scancode(Key::F12), Some(0x58));
    assert_eq!(egui_key_to_scancode(Key::Other), None);
}

#[test]
fn key_and_button_events() {
    assert_eq!(
        key_event(Key::Q, true),
        Some(InputEvent::Keyboard { scancode: 0x10, pressed: true })
    );
    assert_eq!(key_event(Key::Other, false), None);
    assert_eq!(
        mouse_button_event(PointerButton::Secondary, false),
        Some(InputEvent::MouseButton { button: MouseButtonKind::Right, pressed: false })
    );
    assert_eq!(mouse_button_event(PointerButton::Extra1, true), None);
    assert_eq!(mouse_button_event(PointerButton::Extra2, true), None);
}

#[test]
fn xdotool_key_names() {
    assert_eq!(scancode_to_xdotool(0x1E), "a");
    assert_eq!(scancode_to_xdotool(0x0E), "BackSpace");
    assert_eq!(scancode_to_xdotool(0x1C), "Return");
    assert_eq!(scancode_to_xdotool(0x02), "1");
    assert_eq!(scancode_to_xdotool(0x0B), "0");
    assert_eq!(scancode_to_xdotool(0x57), "F11");
    // unknown codes fall back to space, extended keys among them
    assert_eq!(scancode_to_xdotool(0xE04B), "space");
    assert_eq!(scancode_to_xdotool(0x7F), "space");
}

#[test]
fn client_keys_reach_linux_server() {
    let keys = [Key::A, Key::M, Key::Num5, Key::Tab, Key::Enter, Key::F3, Key::Space];
    let names = ["a", "m", "5", "Tab", "Return", "F3", "space"];
    for (k, n) in keys.iter().zip(names) {
        assert_eq!(scancode_to_xdotool(egui_key_to_scancode(*k).unwrap()), n);
    }
}

fn cmd(ev: InputEvent) -> Option<Vec<String>> {
    xdotool_command(ev)
}

#[test]
fn xdotool_commands() {
    assert_eq!(
        cmd(InputEvent::Keyboard { scancode: 0x1E, pressed: true }).unwrap(),
        vec!["keydown", "a"]
    );
    assert_eq!(
        cmd(InputEvent::Keyboard { scancode: 0x39, pressed: false }).unwrap(),
        vec!["keyup", "space"]
    );
    assert_eq!(
        cmd(InputEvent::MouseMove { dx: -12, dy: 340 }).unwrap(),
        vec!["mousemove_relative", "--", "-12", "340"]
    );
    assert_eq!(
        cmd(InputEvent::MouseMove { dx: i16::MIN, dy: 0 }).unwrap(),
        vec!["mousemove_relative", "--", "-32768", "0"]
    );
    assert_eq!(
        cmd(InputEvent::MouseButton { button: MouseButtonKind::Middle, pressed: true }).unwrap(),
        vec!["mousedown", "2"]
    );
    assert_eq!(
        cmd(InputEvent::MouseButton { button: MouseButtonKind::Right, pressed: false }).unwrap(),
        vec!["mouseup", "3"]
    );
    assert_eq!(cmd(InputEvent::MouseButton { button: MouseButtonKind::Other, pressed: true }), None);
    assert_eq!(cmd(InputEvent::MouseWheel { up: true }).unwrap(), vec!["click", "4"]);
    assert_eq!(cmd(InputEvent::MouseWheel { up: false }).unwrap(), vec!["click", "5"]);
    assert_eq!(
        cmd(InputEvent::MousePosition { x: 100, y: 7 }).unwrap(),
        vec!["mousemove", "100", "7"]
    );
    assert_eq!(cmd(InputEvent::Other), None);
}

#[test]
fn sent_buttons_are_clicked() {
    let expected = [
        (PointerButton::Primary, "1"),
        (PointerButton::Secondary, "3"),
        (PointerButton::Middle, "2"),
    ];
    for (b, n) in expected {
        let ev = mouse_button_event(b, true).unwrap();
        assert_eq!(xdotool_command(ev).unwrap()[1], n);
    }
}

fn press(key: Key, ctrl: bool, shift: bool) -> KeyPress {
    KeyPress { key, pressed: true, ctrl, shift }
}

#[test]
fn disconnect_hotkey_is_ctrl_shift_q() {
    assert!(is_disconnect_hotkey(&press(Key::Q, true, true)));
    assert!(!is_disconnect_hotkey(&press(Key::Q, true, false)));
    assert!(!is_disconnect_hotkey(&press(Key::Q, false, true)));
    assert!(!is_disconnect_hotkey(&press(Key::W, true, true)));
}

#[test]
fn forwarded_keys_skip_only_the_hotkey() {
    let events = [
        press(Key::A, false, false),
        KeyPress { key: Key::A, pressed: false, ctrl: false, shift: false },
        press(Key::Other, false, false),
        press(Key::Q, true, false),
        press(Key::Q, true, true),
        press(Key::B, false, false),
    ];
    assert_eq!(
        keys_to_forward(&events),
        vec![
            InputEvent::Keyboard { scancode: 0x1E, pressed: true },
            InputEvent::Keyboard { scancode: 0x1E, pressed: false },
            InputEvent::Keyboard { scancode: 0x10, pressed: true },
            InputEvent::Keyboard { scancode: 0x30, pressed: true },
        ]
    );
    assert_eq!(keys_to_forward(&events[4..]), vec![InputEvent::Keyboard { scancode: 0x30, pressed: true }]);
    assert_eq!(keys_to_forward(&events[4..5]), vec![]);
    // a released hotkey is skipped too, and what follows it is sent
    let frame = [
        press(Key::A, false, false),
        KeyPress { key: Key::Q, pressed: false, ctrl: true, shift: true },
        press(Key::B, false, false),
    ];
    assert_eq!(
        keys_to_forward(&frame),
        vec![
            InputEvent::Keyboard { scancode: 0x1E, pressed: true },
            InputEvent::Keyboard { scancode: 0x30, pressed: true },
        ]
    );
    assert_eq!(keys_to_forward(&[]), vec![]);
}

#[test]
fn windows_replay_of_events() {
    assert_eq!(
        windows_input(InputEvent::Keyboard { scancode: 0x1E, pressed: false }),
        Some(WindowsInput::Key { scancode: 0x1E, key_up: true })
    );
    assert_eq!(
        windows_input(InputEvent::MouseMove { dx: -3, dy: 4 }),
        Some(WindowsInput::MoveRelative { dx: -3, dy: 4 })
    );
    assert_eq!(
        windows_input(InputEvent::MouseButton { button: MouseButtonKind::Middle, pressed: true }),
        Some(WindowsInput::Button { button: MouseButtonKind::Middle, down: true })
    );
    assert_eq!(
        windows_input(InputEvent::MouseButton { button: MouseButtonKind::Other, pressed: true }),
        None
    );
    assert_eq!(windows_input(InputEvent::MouseWheel { up: false }), Some(WindowsInput::Wheel));
    assert_eq!(
        windows_input(InputEvent::MousePosition { x: 100, y: -1 }),
        Some(WindowsInput::MoveAbsolute { x: 100, y: -1 })
    );
    assert_eq!(windows_input(InputEvent::Other), None);
}
