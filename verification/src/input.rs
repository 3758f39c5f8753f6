//! Input events: the client's key and button codes, and what a Linux server
//! runs to replay them.
use vstd::prelude::*;

use crate::text::{decimal, decimal_text};

verus! {

/// The keys the client forwards (other keys are not sent).
#[derive(Debug, Clone, Copy, PartialEq, Eq, Structural)]
pub enum Key {
    A,
    B,
    C,
    D,
    E,
    F,
    G,
    H,
    I,
    J,
    K,
    L,
    M,
    N,
    O,
    P,
    Q,
    R,
    S,
    T,
    U,
    V,
    W,
    X,
    Y,
    Z,
    Num0,
    Num1,
    Num2,
    Num3,
    Num4,
    Num5,
    Num6,
    Num7,
    Num8,
    Num9,
    Space,
    Enter,
    Backspace,
    Tab,
    Escape,
    Delete,
    ArrowLeft,
    ArrowRight,
    ArrowUp,
    ArrowDown,
    Home,
    End,
    PageUp,
    PageDown,
    F1,
    F2,
    F3,
    F4,
    F5,
    F6,
    F7,
    F8,
    F9,
    F10,
    F11,
    F12,
    Other,
}

/// PS/2 scan code set 1 of a key (extended keys carry the `E0` prefix in the high byte).
pub open spec fn key_scancode(key: Key) -> Option<u16> {
    match key {
        Key::A => Some(0x1Eu16),
        Key::B => Some(0x30u16),
        Key::C => Some(0x2Eu16),
        Key::D => Some(0x20u16),
        Key::E => Some(0x12u16),
        Key::F => Some(0x21u16),
        Key::G => Some(0x22u16),
        Key::H => Some(0x23u16),
        Key::I => Some(0x17u16),
        Key::J => Some(0x24u16),
        Key::K => Some(0x25u16),
        Key::L => Some(0x26u16),
        Key::M => Some(0x32u16),
        Key::N => Some(0x31u16),
        Key::O => Some(0x18u16),
        Key::P => Some(0x19u16),
        Key::Q => Some(0x10u16),
        Key::R => Some(0x13u16),
        Key::S => Some(0x1Fu16),
        Key::T => Some(0x14u16),
        Key::U => Some(0x16u16),
        Key::V => Some(0x2Fu16),
        Key::W => Some(0x11u16),
        Key::X => Some(0x2Du16),
        Key::Y => Some(0x15u16),
        Key::Z => Some(0x2Cu16),
        Key::Num0 => Some(0xBu16),
        Key::Num1 => Some(0x2u16),
        Key::Num2 => Some(0x3u16),
        Key::Num3 => Some(0x4u16),
        Key::Num4 => Some(0x5u16),
        Key::Num5 => Some(0x6u16),
        Key::Num6 => Some(0x7u16),
        Key::Num7 => Some(0x8u16),
        Key::Num8 => Some(0x9u16),
        Key::Num9 => Some(0xAu16),
        Key::Space => Some(0x39u16),
        Key::Enter => Some(0x1Cu16),
        Key::Backspace => Some(0xEu16),
        Key::Tab => Some(0xFu16),
        Key::Escape => Some(0x1u16),
        Key::Delete => Some(0xE053u16),
        Key::ArrowLeft => Some(0xE04Bu16),
        Key::ArrowRight => Some(0xE04Du16),
        Key::ArrowUp => Some(0xE048u16),
        Key::ArrowDown => Some(0xE050u16),
        Key::Home => Some(0xE047u16),
        Key::End => Some(0xE04Fu16),
        Key::PageUp => Some(0xE049u16),
        Key::PageDown => Some(0xE051u16),
        Key::F1 => Some(0x3Bu16),
        Key::F2 => Some(0x3Cu16),
        Key::F3 => Some(0x3Du16),
        Key::F4 => Some(0x3Eu16),
        Key::F5 => Some(0x3Fu16),
        Key::F6 => Some(0x40u16),
        Key::F7 => Some(0x41u16),
        Key::F8 => Some(0x42u16),
        Key::F9 => Some(0x43u16),
        Key::F10 => Some(0x44u16),
        Key::F11 => Some(0x57u16),
        Key::F12 => Some(0x58u16),
        Key::Other => None,
    }
}

/// Key to PS/2 scan code set 1 (the cross-platform basis of the input protocol).
pub fn egui_key_to_scancode(key: Key) -> (sc: Option<u16>)
    ensures
        sc == key_scancode(key),
{
    match key {
        Key::A => Some(0x1Eu16),
        Key::B => Some(0x30u16),
        Key::C => Some(0x2Eu16),
        Key::D => Some(0x20u16),
        Key::E => Some(0x12u16),
        Key::F => Some(0x21u16),
        Key::G => Some(0x22u16),
        Key::H => Some(0x23u16),
        Key::I => Some(0x17u16),
        Key::J => Some(0x24u16),
        Key::K => Some(0x25u16),
        Key::L => Some(0x26u16),
        Key::M => Some(0x32u16),
        Key::N => Some(0x31u16),
        Key::O => Some(0x18u16),
        Key::P => Some(0x19u16),
        Key::Q => Some(0x10u16),
        Key::R => Some(0x13u16),
        Key::S => Some(0x1Fu16),
        Key::T => Some(0x14u16),
        Key::U => Some(0x16u16),
        Key::V => Some(0x2Fu16),
        Key::W => Some(0x11u16),
        Key::X => Some(0x2Du16),
        Key::Y => Some(0x15u16),
        Key::Z => Some(0x2Cu16),
        Key::Num0 => Some(0xBu16),
        Key::Num1 => Some(0x2u16),
        Key::Num2 => Some(0x3u16),
        Key::Num3 => Some(0x4u16),
        Key::Num4 => Some(0x5u16),
        Key::Num5 => Some(0x6u16),
        Key::Num6 => Some(0x7u16),
        Key::Num7 => Some(0x8u16),
        Key::Num8 => Some(0x9u16),
        Key::Num9 => Some(0xAu16),
        Key::Space => Some(0x39u16),
        Key::Enter => Some(0x1Cu16),
        Key::Backspace => Some(0xEu16),
        Key::Tab => Some(0xFu16),
        Key::Escape => Some(0x1u16),
        Key::Delete => Some(0xE053u16),
        Key::ArrowLeft => Some(0xE04Bu16),
        Key::ArrowRight => Some(0xE04Du16),
        Key::ArrowUp => Some(0xE048u16),
        Key::ArrowDown => Some(0xE050u16),
        Key::Home => Some(0xE047u16),
        Key::End => Some(0xE04Fu16),
        Key::PageUp => Some(0xE049u16),
        Key::PageDown => Some(0xE051u16),
        Key::F1 => Some(0x3Bu16),
        Key::F2 => Some(0x3Cu16),
        Key::F3 => Some(0x3Du16),
        Key::F4 => Some(0x3Eu16),
        Key::F5 => Some(0x3Fu16),
        Key::F6 => Some(0x40u16),
        Key::F7 => Some(0x41u16),
        Key::F8 => Some(0x42u16),
        Key::F9 => Some(0x43u16),
        Key::F10 => Some(0x44u16),
        Key::F11 => Some(0x57u16),
        Key::F12 => Some(0x58u16),
        Key::Other => None,
    }
}

/// The pointer buttons the client sees.
#[derive(Debug, Clone, Copy, PartialEq, Eq, Structural)]
pub enum PointerButton {
    Primary,
    Secondary,
    Middle,
    Extra1,
    Extra2,
}

/// The mouse buttons of the input protocol.
#[derive(Debug, Clone, Copy, PartialEq, Eq, Structural)]
pub enum MouseButtonKind {
    Left,
    Right,
    Middle,
    /// Any other button the protocol carries.
    Other,
}

/// An input event as the protocol carries it (the part the server acts on).
#[derive(Debug, Clone, Copy, PartialEq, Eq, Structural)]
pub enum InputEvent {
    Keyboard { scancode: u16, pressed: bool },
    MouseMove { dx: i16, dy: i16 },
    MouseButton { button: MouseButtonKind, pressed: bool },
    /// `up` when the vertical delta is positive.
    MouseWheel { up: bool },
    MousePosition { x: i16, y: i16 },
    /// Gamepad, clipboard, cursor, file and the rest: not replayed.
    Other,
}

/// The protocol button of a pointer button (the extra buttons are not sent).
pub open spec fn pointer_button_kind(btn: PointerButton) -> Option<MouseButtonKind> {
    match btn {
        PointerButton::Primary => Some(MouseButtonKind::Left),
        PointerButton::Secondary => Some(MouseButtonKind::Right),
        PointerButton::Middle => Some(MouseButtonKind::Middle),
        _ => None,
    }
}

/// The keyboard event for a key press or release; none for keys without a scan code.
pub fn key_event(key: Key, pressed: bool) -> (ev: Option<InputEvent>)
    ensures
        match key_scancode(key) {
            Some(sc) => ev == Some(InputEvent::Keyboard { scancode: sc, pressed }),
            None => ev is None,
        },
{
    match egui_key_to_scancode(key) {
        Some(scancode) => Some(InputEvent::Keyboard { scancode, pressed }),
        None => None,
    }
}

/// The button event for a pointer button press or release; none for the extra buttons.
pub fn mouse_button_event(btn: PointerButton, pressed: bool) -> (ev: Option<InputEvent>)
    ensures
        match pointer_button_kind(btn) {
            Some(b) => ev == Some(InputEvent::MouseButton { button: b, pressed }),
            None => ev is None,
        },
{
    let button = match btn {
        PointerButton::Primary => MouseButtonKind::Left,
        PointerButton::Secondary => MouseButtonKind::Right,
        PointerButton::Middle => MouseButtonKind::Middle,
        _ => return None,
    };
    Some(InputEvent::MouseButton { button, pressed })
}

/// A key event as the client window reports it, with the modifiers held.
#[derive(Debug, Clone, Copy, PartialEq, Eq, Structural)]
pub struct KeyPress {
    pub key: Key,
    pub pressed: bool,
    pub ctrl: bool,
    pub shift: bool,
}

/// Ctrl+Shift+Q disconnects the client; it is never sent to the server.
pub open spec fn is_disconnect_hotkey_spec(k: KeyPress) -> bool {
    k.ctrl && k.shift && k.key == Key::Q
}

/// Whether the key event is the disconnect hotkey Ctrl+Shift+Q.
pub fn is_disconnect_hotkey(k: &KeyPress) -> (b: bool)
    ensures
        b == is_disconnect_hotkey_spec(*k),
{
    k.ctrl && k.shift && k.key == Key::Q
}

/// The keyboard event the client sends for one key event: none for the
/// disconnect hotkey, none for a key without a scan code.
pub open spec fn forwarded_key(k: KeyPress) -> Seq<InputEvent> {
    if is_disconnect_hotkey_spec(k) {
        Seq::empty()
    } else {
        match key_scancode(k.key) {
            Some(sc) => seq![InputEvent::Keyboard { scancode: sc, pressed: k.pressed }],
            None => Seq::empty(),
        }
    }
}

/// The keyboard events the client sends for one frame's key events: in order,
/// each key with a scan code except the disconnect hotkey, which is skipped.
pub open spec fn forwarded_keys(events: Seq<KeyPress>) -> Seq<InputEvent>
    decreases events.len(),
{
    if events.len() == 0 {
        Seq::empty()
    } else {
        forwarded_key(events[0]) + forwarded_keys(events.drop_first())
    }
}

/// The keyboard events to send for one frame's key events.
pub fn keys_to_forward(events: &[KeyPress]) -> (out: Vec<InputEvent>)
    ensures
        out@ == forwarded_keys(events@),
{
    let mut out: Vec<InputEvent> = Vec::new();
    let n = events.len();
    let mut i: usize = 0;
    assert(events@.subrange(0, n as int) =~= events@);
    assert(out@ + forwarded_keys(events@) =~= forwarded_keys(events@));
    while i < n
        invariant
            n == events@.len(),
            i <= n,
            out@ + forwarded_keys(events@.subrange(i as int, n as int)) == forwarded_keys(
                events@,
            ),
        decreases n - i,
    {
        let k = events[i];
        let ghost tail = events@.subrange(i as int, n as int);
        let ghost before = out@;
        assert(tail.drop_first() =~= events@.subrange(i + 1, n as int));
        assert(tail[0] == k);
        if !is_disconnect_hotkey(&k) {
            match key_event(k.key, k.pressed) {
                Some(ev) => {
                    out.push(ev);
                },
                None => {},
            }
        }
        assert(before + forwarded_keys(tail) =~= out@ + forwarded_keys(
            events@.subrange(i + 1, n as int),
        ));
        i = i + 1;
    }
    assert(forwarded_keys(events@.subrange(n as int, n as int)) =~= Seq::<InputEvent>::empty());
    assert(out@ + Seq::<InputEvent>::empty() =~= out@);
    out
}

/// The events of a frame are forwarded one by one: the events sent for two
/// runs of key events one after the other are those sent for each, in order.
pub proof fn law_keys_are_forwarded_one_by_one(a: Seq<KeyPress>, b: Seq<KeyPress>)
    ensures
        forwarded_keys(a + b) == forwarded_keys(a) + forwarded_keys(b),
    decreases a.len(),
{
    if a.len() == 0 {
        assert(a + b =~= b);
        assert(Seq::<InputEvent>::empty() + forwarded_keys(b) =~= forwarded_keys(b));
    } else {
        assert((a + b)[0] == a[0]);
        assert((a + b).drop_first() =~= a.drop_first() + b);
        law_keys_are_forwarded_one_by_one(a.drop_first(), b);
        assert(forwarded_key(a[0]) + (forwarded_keys(a.drop_first()) + forwarded_keys(b))
            =~= (forwarded_key(a[0]) + forwarded_keys(a.drop_first())) + forwarded_keys(b));
    }
}

/// The disconnect hotkey is never sent, and it holds nothing else back: the
/// events sent for a frame with the hotkey in it are those sent for the events
/// before it followed by those sent for the events after it. Any other key
/// event with a scan code is sent as its keyboard event.
pub proof fn law_hotkey_is_never_sent(before: Seq<KeyPress>, hotkey: KeyPress, after: Seq<KeyPress>)
    requires
        is_disconnect_hotkey_spec(hotkey),
    ensures
        forwarded_keys(before + seq![hotkey] + after) == forwarded_keys(before) + forwarded_keys(
            after,
        ),
        forall|k: KeyPress|
            !is_disconnect_hotkey_spec(k) && key_scancode(k.key) is Some ==> #[trigger] forwarded_keys(
                seq![k],
            ) == seq![InputEvent::Keyboard { scancode: key_scancode(k.key)->0, pressed: k.pressed }],
{
    law_keys_are_forwarded_one_by_one(before + seq![hotkey], after);
    law_keys_are_forwarded_one_by_one(before, seq![hotkey]);
    let h: Seq<KeyPress> = seq![hotkey];
    assert(h.drop_first() =~= Seq::<KeyPress>::empty());
    assert(h[0] == hotkey);
    assert(forwarded_key(hotkey) =~= Seq::<InputEvent>::empty());
    assert(forwarded_keys(h.drop_first()) =~= Seq::<InputEvent>::empty());
    assert(forwarded_keys(h) =~= Seq::<InputEvent>::empty());
    assert(forwarded_keys(before) + Seq::<InputEvent>::empty() =~= forwarded_keys(before));
    assert forall|k: KeyPress|
        !is_disconnect_hotkey_spec(k) && key_scancode(k.key) is Some implies #[trigger] forwarded_keys(
            seq![k],
        ) == seq![InputEvent::Keyboard { scancode: key_scancode(k.key)->0, pressed: k.pressed }] by {
        let one: Seq<KeyPress> = seq![k];
        assert(one.drop_first() =~= Seq::<KeyPress>::empty());
        assert(forwarded_key(k) + Seq::<InputEvent>::empty() =~= forwarded_key(k));
    }
}

// ─── Linux replay (xdotool) ─────────────────────────────────────────────────

/// The xdotool key name a Linux server gives a scan code, where its table has one.
pub open spec fn xdotool_named_key(sc: u16) -> Option<Seq<char>> {
    match sc {
        0x01 => Some("Escape"@),
        0x0E => Some("BackSpace"@),
        0x0F => Some("Tab"@),
        0x1C => Some("Return"@),
        0x39 => Some("space"@),
        0x1E => Some("a"@),
        0x30 => Some("b"@),
        0x2E => Some("c"@),
        0x20 => Some("d"@),
        0x12 => Some("e"@),
        0x21 => Some("f"@),
        0x22 => Some("g"@),
        0x23 => Some("h"@),
        0x17 => Some("i"@),
        0x24 => Some("j"@),
        0x25 => Some("k"@),
        0x26 => Some("l"@),
        0x32 => Some("m"@),
        0x31 => Some("n"@),
        0x18 => Some("o"@),
        0x19 => Some("p"@),
        0x10 => Some("q"@),
        0x13 => Some("r"@),
        0x1F => Some("s"@),
        0x14 => Some("t"@),
        0x16 => Some("u"@),
        0x2F => Some("v"@),
        0x11 => Some("w"@),
        0x2D => Some("x"@),
        0x15 => Some("y"@),
        0x2C => Some("z"@),
        0x3B => Some("F1"@),
        0x3C => Some("F2"@),
        0x3D => Some("F3"@),
        0x3E => Some("F4"@),
        0x3F => Some("F5"@),
        0x40 => Some("F6"@),
        0x41 => Some("F7"@),
        0x42 => Some("F8"@),
        0x43 => Some("F9"@),
        0x44 => Some("F10"@),
        0x57 => Some("F11"@),
        0x58 => Some("F12"@),
        0x02 => Some("1"@),
        0x03 => Some("2"@),
        0x04 => Some("3"@),
        0x05 => Some("4"@),
        0x06 => Some("5"@),
        0x07 => Some("6"@),
        0x08 => Some("7"@),
        0x09 => Some("8"@),
        0x0A => Some("9"@),
        0x0B => Some("0"@),
        _ => None,
    }
}

/// The xdotool key name for a scan code; `space` for codes the table lacks.
pub open spec fn xdotool_key_name(sc: u16) -> Seq<char> {
    match xdotool_named_key(sc) {
        Some(name) => name,
        None => "space"@,
    }
}

/// Scan code to the key name `xdotool` expects; `space` for unknown codes.
pub fn scancode_to_xdotool(sc: u16) -> (name: String)
    ensures
        name@ == xdotool_key_name(sc),
{
    let name: &str = match sc {
        0x01 => "Escape",
        0x0E => "BackSpace",
        0x0F => "Tab",
        0x1C => "Return",
        0x39 => "space",
        0x1E => "a",
        0x30 => "b",
        0x2E => "c",
        0x20 => "d",
        0x12 => "e",
        0x21 => "f",
        0x22 => "g",
        0x23 => "h",
        0x17 => "i",
        0x24 => "j",
        0x25 => "k",
        0x26 => "l",
        0x32 => "m",
        0x31 => "n",
        0x18 => "o",
        0x19 => "p",
        0x10 => "q",
        0x13 => "r",
        0x1F => "s",
        0x14 => "t",
        0x16 => "u",
        0x2F => "v",
        0x11 => "w",
        0x2D => "x",
        0x15 => "y",
        0x2C => "z",
        0x3B => "F1",
        0x3C => "F2",
        0x3D => "F3",
        0x3E => "F4",
        0x3F => "F5",
        0x40 => "F6",
        0x41 => "F7",
        0x42 => "F8",
        0x43 => "F9",
        0x44 => "F10",
        0x57 => "F11",
        0x58 => "F12",
        0x02 => "1",
        0x03 => "2",
        0x04 => "3",
        0x05 => "4",
        0x06 => "5",
        0x07 => "6",
        0x08 => "7",
        0x09 => "8",
        0x0A => "9",
        0x0B => "0",
        _ => "space",
    };
    String::from_str(name)
}

/// The xdotool button number of a protocol button (`1` left, `2` middle, `3` right).
pub open spec fn xdotool_button(b: MouseButtonKind) -> Option<Seq<char>> {
    match b {
        MouseButtonKind::Left => Some("1"@),
        MouseButtonKind::Middle => Some("2"@),
        MouseButtonKind::Right => Some("3"@),
        MouseButtonKind::Other => None,
    }
}

/// The `xdotool` arguments that replay an event on a Linux server; none for
/// events it does not replay.
pub open spec fn xdotool_args(ev: InputEvent) -> Option<Seq<Seq<char>>> {
    match ev {
        InputEvent::Keyboard { scancode, pressed } => Some(
            seq![if pressed { "keydown"@ } else { "keyup"@ }, xdotool_key_name(scancode)],
        ),
        InputEvent::MouseMove { dx, dy } => Some(
            seq!["mousemove_relative"@, "--"@, decimal(dx as int), decimal(dy as int)],
        ),
        InputEvent::MouseButton { button, pressed } => match xdotool_button(button) {
            Some(b) => Some(seq![if pressed { "mousedown"@ } else { "mouseup"@ }, b]),
            None => None,
        },
        InputEvent::MouseWheel { up } => Some(seq!["click"@, if up { "4"@ } else { "5"@ }]),
        InputEvent::MousePosition { x, y } => Some(
            seq!["mousemove"@, decimal(x as int), decimal(y as int)],
        ),
        InputEvent::Other => None,
    }
}

/// The views of a list of strings.
pub open spec fn views(v: Seq<String>) -> Seq<Seq<char>> {
    v.map_values(|s: String| s@)
}

/// The arguments of the `xdotool` command that replays an event.
pub fn xdotool_command(ev: InputEvent) -> (args: Option<Vec<String>>)
    ensures
        match xdotool_args(ev) {
            Some(a) => args matches Some(v) && views(v@) == a,
            None => args is None,
        },
{
    let mut v: Vec<String> = Vec::new();
    match ev {
        InputEvent::Keyboard { scancode, pressed } => {
            v.push(String::from_str(if pressed { "keydown" } else { "keyup" }));
            v.push(scancode_to_xdotool(scancode));
        },
        InputEvent::MouseMove { dx, dy } => {
            v.push(String::from_str("mousemove_relative"));
            v.push(String::from_str("--"));
            v.push(decimal_text(dx as i32));
            v.push(decimal_text(dy as i32));
        },
        InputEvent::MouseButton { button, pressed } => {
            let b = match button {
                MouseButtonKind::Left => "1",
                MouseButtonKind::Middle => "2",
                MouseButtonKind::Right => "3",
                MouseButtonKind::Other => return None,
            };
            v.push(String::from_str(if pressed { "mousedown" } else { "mouseup" }));
            v.push(String::from_str(b));
        },
        InputEvent::MouseWheel { up } => {
            v.push(String::from_str("click"));
            v.push(String::from_str(if up { "4" } else { "5" }));
        },
        InputEvent::MousePosition { x, y } => {
            v.push(String::from_str("mousemove"));
            v.push(decimal_text(x as i32));
            v.push(decimal_text(y as i32));
        },
        InputEvent::Other => return None,
    }
    assert(views(v@) =~= xdotool_args(ev).unwrap());
    Some(v)
}

// ─── Windows replay (SendInput) ─────────────────────────────────────────────

/// The `SendInput` call that replays an event on a Windows server.
#[derive(Debug, Clone, Copy, PartialEq, Eq, Structural)]
pub enum WindowsInput {
    /// A keyboard input by scan code (`KEYEVENTF_SCANCODE`, with
    /// `KEYEVENTF_KEYUP` on release).
    Key { scancode: u16, key_up: bool },
    /// A relative mouse move (`MOUSEEVENTF_MOVE`).
    MoveRelative { dx: i32, dy: i32 },
    /// A move to absolute coordinates (`MOUSEEVENTF_MOVE | MOUSEEVENTF_ABSOLUTE`).
    MoveAbsolute { x: i32, y: i32 },
    /// A left, right or middle button going down or up.
    Button { button: MouseButtonKind, down: bool },
    /// A wheel turn (`MOUSEEVENTF_WHEEL`) by the packet's vertical delta.
    Wheel,
}

/// The `SendInput` call for an event; none for events a Windows server does not
/// replay (buttons other than left, right and middle; gamepad and the rest).
pub open spec fn windows_replay(ev: InputEvent) -> Option<WindowsInput> {
    match ev {
        InputEvent::Keyboard { scancode, pressed } => Some(
            WindowsInput::Key { scancode, key_up: !pressed },
        ),
        InputEvent::MouseMove { dx, dy } => Some(
            WindowsInput::MoveRelative { dx: dx as i32, dy: dy as i32 },
        ),
        InputEvent::MouseButton { button, pressed } => if button == MouseButtonKind::Other {
            None
        } else {
            Some(WindowsInput::Button { button, down: pressed })
        },
        InputEvent::MouseWheel { .. } => Some(WindowsInput::Wheel),
        InputEvent::MousePosition { x, y } => Some(
            WindowsInput::MoveAbsolute { x: x as i32, y: y as i32 },
        ),
        InputEvent::Other => None,
    }
}

/// What a Windows server sends to `SendInput` for an event.
pub fn windows_input(ev: InputEvent) -> (w: Option<WindowsInput>)
    ensures
        w == windows_replay(ev),
{
    match ev {
        InputEvent::Keyboard { scancode, pressed } => Some(
            WindowsInput::Key { scancode, key_up: !pressed },
        ),
        InputEvent::MouseMove { dx, dy } => Some(
            WindowsInput::MoveRelative { dx: dx as i32, dy: dy as i32 },
        ),
        InputEvent::MouseButton { button, pressed } => match button {
            MouseButtonKind::Other => None,
            _ => Some(WindowsInput::Button { button, down: pressed }),
        },
        InputEvent::MouseWheel { .. } => Some(WindowsInput::Wheel),
        InputEvent::MousePosition { x, y } => Some(
            WindowsInput::MoveAbsolute { x: x as i32, y: y as i32 },
        ),
        InputEvent::Other => None,
    }
}

/// The two servers replay the same events: an event is replayed on Windows
/// exactly when it is replayed on Linux.
pub proof fn law_servers_replay_the_same_events(ev: InputEvent)
    ensures
        windows_replay(ev) is Some <==> xdotool_args(ev) is Some,
{
}

/// The letter a letter key types (lowercase); none for other keys.
pub open spec fn key_letter(k: Key) -> Option<char> {
    match k {
        Key::A => Some('a'),
        Key::B => Some('b'),
        Key::C => Some('c'),
        Key::D => Some('d'),
        Key::E => Some('e'),
        Key::F => Some('f'),
        Key::G => Some('g'),
        Key::H => Some('h'),
        Key::I => Some('i'),
        Key::J => Some('j'),
        Key::K => Some('k'),
        Key::L => Some('l'),
        Key::M => Some('m'),
        Key::N => Some('n'),
        Key::O => Some('o'),
        Key::P => Some('p'),
        Key::Q => Some('q'),
        Key::R => Some('r'),
        Key::S => Some('s'),
        Key::T => Some('t'),
        Key::U => Some('u'),
        Key::V => Some('v'),
        Key::W => Some('w'),
        Key::X => Some('x'),
        Key::Y => Some('y'),
        Key::Z => Some('z'),
        _ => None,
    }
}

/// The code of `c` in a row of keys whose codes run up from `first`.
pub open spec fn row_code(row: Seq<char>, first: int, c: char) -> Option<int>
    decreases row.len(),
{
    if row.len() == 0 {
        None
    } else if row[0] == c {
        Some(first)
    } else {
        row_code(row.drop_first(), first + 1, c)
    }
}

/// The PS/2 set-1 scan code of a letter, read off the keyboard's rows: the
/// codes run up along each row, from `q` at 0x10, from `a` at 0x1E and from
/// `z` at 0x2C.
pub open spec fn ps2_letter_code(c: char) -> Option<int> {
    match row_code(seq!['q', 'w', 'e', 'r', 't', 'y', 'u', 'i', 'o', 'p'], 0x10, c) {
        Some(x) => Some(x),
        None => match row_code(seq!['a', 's', 'd', 'f', 'g', 'h', 'j', 'k', 'l'], 0x1E, c) {
            Some(x) => Some(x),
            None => row_code(seq!['z', 'x', 'c', 'v', 'b', 'n', 'm'], 0x2C, c),
        },
    }
}

/// A letter key typed on the client is typed as the same letter on a Linux
/// server: the client sends the letter's PS/2 set-1 scan code (as the
/// keyboard's rows give it), and the server names that code as the letter.
pub proof fn law_letter_keys_type_their_letter(k: Key)
    ensures
        key_letter(k) matches Some(c) ==> {
            &&& ps2_letter_code(c) matches Some(code)
            &&& key_scancode(k) == Some(code as u16)
            &&& xdotool_key_name(code as u16) == seq![c]
        },
{
    reveal_with_fuel(row_code, 11);
    match k {
        Key::A => {
            reveal_strlit("a");
        },
        Key::B => {
            reveal_strlit("b");
        },
        Key::C => {
            reveal_strlit("c");
        },
        Key::D => {
            reveal_strlit("d");
        },
        Key::E => {
            reveal_strlit("e");
        },
        Key::F => {
            reveal_strlit("f");
        },
        Key::G => {
            reveal_strlit("g");
        },
        Key::H => {
            reveal_strlit("h");
        },
        Key::I => {
            reveal_strlit("i");
        },
        Key::J => {
            reveal_strlit("j");
        },
        Key::K => {
            reveal_strlit("k");
        },
        Key::L => {
            reveal_strlit("l");
        },
        Key::M => {
            reveal_strlit("m");
        },
        Key::N => {
            reveal_strlit("n");
        },
        Key::O => {
            reveal_strlit("o");
        },
        Key::P => {
            reveal_strlit("p");
        },
        Key::Q => {
            reveal_strlit("q");
        },
        Key::R => {
            reveal_strlit("r");
        },
        Key::S => {
            reveal_strlit("s");
        },
        Key::T => {
            reveal_strlit("t");
        },
        Key::U => {
            reveal_strlit("u");
        },
        Key::V => {
            reveal_strlit("v");
        },
        Key::W => {
            reveal_strlit("w");
        },
        Key::X => {
            reveal_strlit("x");
        },
        Key::Y => {
            reveal_strlit("y");
        },
        Key::Z => {
            reveal_strlit("z");
        },
        _ => {},
    }
}

/// Every key that the client sends with a one-byte scan code has its own name on
/// a Linux server (it is not replayed as the fallback `space`); only the extended
/// keys (arrows, Home, End, Page Up/Down, Delete) fall outside the server's table.
pub proof fn law_client_keys_are_named_by_server(key: Key)
    ensures
        key_scancode(key) matches Some(sc) ==> (sc < 0x100 ==> xdotool_named_key(sc) is Some),
{
}

/// Different keys send different scan codes.
pub proof fn law_scancodes_tell_keys_apart(k1: Key, k2: Key)
    ensures
        k1 != k2 && key_scancode(k1) is Some ==> key_scancode(k1) != key_scancode(k2),
{
}

/// Every pointer button the client sends is one a Linux server clicks.
pub proof fn law_sent_buttons_are_replayed(btn: PointerButton)
    ensures
        pointer_button_kind(btn) matches Some(kind) ==> xdotool_button(kind) is Some,
{
}

} // verus!
