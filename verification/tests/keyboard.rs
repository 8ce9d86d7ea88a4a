use wayland_seat::keyboard::{
    KeyboardFocus, KeyboardHandle, KeyboardMessage, KeyboardUserData, ModifiersState, SeatState,
    SerializedMods, WlKeyboard,
};
use wayland_seat::keys::{serialize_pressed_keys, Keycode};
use wayland_seat::objects::{ClientId, Liveness, ObjectId, Serial};

fn object(client: u64, object: u64) -> ObjectId {
    ObjectId { client: ClientId(client), object }
}

fn keyboard() -> KeyboardHandle {
    KeyboardHandle {
        focus: None,
        pressed_keys: vec![Keycode(38)],
        mods_state: ModifiersState {
            serialized: SerializedMods {
                depressed: 1,
                latched: 2,
                locked: 4,
                layout_effective: 3,
            },
        },
        repeat_rate: 25,
        repeat_delay: 200,
        known_kbds: Vec::new(),
        last_enter: None,
    }
}

fn focus(client: u64) -> Option<(KeyboardFocus, Serial)> {
    let focus = KeyboardFocus { client: Some(ClientId(client)), surface: Some(object(client, 1)) };
    Some((focus, Serial(40)))
}

#[test]
fn the_client_of_an_object_has_focus() {
    let mut kbd = keyboard();
    assert!(!kbd.client_of_object_has_focus(&object(1, 9)));
    kbd.focus = focus(1);
    assert!(kbd.client_of_object_has_focus(&object(1, 9)));
    assert!(!kbd.client_of_object_has_focus(&object(2, 9)));
    kbd.focus = Some((KeyboardFocus { client: None, surface: None }, Serial(1)));
    assert!(!kbd.client_of_object_has_focus(&object(1, 9)));
}

#[test]
fn a_new_keyboard_of_the_focused_client_is_told_everything() {
    let mut kbd = keyboard();
    kbd.focus = focus(1);
    let messages = kbd.new_kbd(WlKeyboard { id: object(1, 5), version: 4 }, true);
    assert_eq!(
        messages,
        vec![
            KeyboardMessage::RepeatInfo { rate: 25, delay: 200 },
            KeyboardMessage::Enter {
                serial: Serial(40),
                surface: object(1, 1),
                keys: serialize_pressed_keys(&[Keycode(38)]),
            },
            KeyboardMessage::Modifiers {
                serial: Serial(40),
                depressed: 1,
                latched: 2,
                locked: 4,
                group: 3,
            },
        ]
    );
    assert_eq!(kbd.known_kbds, vec![object(1, 5)]);
}

#[test]
fn an_old_keyboard_of_another_client_is_told_nothing() {
    let mut kbd = keyboard();
    kbd.focus = focus(1);
    let messages = kbd.new_kbd(WlKeyboard { id: object(2, 5), version: 3 }, true);
    assert_eq!(messages, Vec::<KeyboardMessage>::new());
    assert_eq!(kbd.known_kbds, vec![object(2, 5)]);
}

#[test]
fn a_keyboard_without_keymap_is_not_registered() {
    let mut kbd = keyboard();
    kbd.focus = focus(1);
    let messages = kbd.new_kbd(WlKeyboard { id: object(1, 5), version: 7 }, false);
    assert_eq!(messages, Vec::<KeyboardMessage>::new());
    assert_eq!(kbd.known_kbds, Vec::<ObjectId>::new());
}

#[test]
fn keyboards_of_a_client() {
    let mut kbd = keyboard();
    kbd.known_kbds = vec![object(1, 5), object(2, 6), object(1, 7), object(1, 8)];
    let mut live = Liveness {
        objects: vec![object(1, 5), object(2, 6), object(1, 8)],
        clients: vec![ClientId(1), ClientId(2)],
        seats: Vec::new(),
    };
    assert_eq!(kbd.client_keyboards(&ClientId(1), &live), vec![object(1, 5), object(1, 8)]);
    live.clients = vec![ClientId(2)];
    assert_eq!(kbd.client_keyboards(&ClientId(1), &live), Vec::<ObjectId>::new());
    // Whether the client is still connected plays no part here.
    assert_eq!(kbd.focused_kbds(&object(1, 1), &live), vec![object(1, 5), object(1, 8)]);
}

#[test]
fn a_destroyed_keyboard_is_forgotten() {
    let mut handle = keyboard();
    handle.known_kbds = vec![object(1, 5), object(2, 6)];
    let mut data = KeyboardUserData { handle: Some(handle) };
    SeatState::destroyed(&object(1, 5), &mut data);
    let handle = KeyboardHandle::from_resource(Some(&data)).unwrap();
    assert_eq!(handle.known_kbds, vec![object(2, 6)]);
}

#[test]
fn a_keyboard_without_capability_has_no_handle() {
    let mut data = KeyboardUserData { handle: None };
    SeatState::destroyed(&object(1, 5), &mut data);
    assert!(KeyboardHandle::from_resource(Some(&data)).is_none());
    assert!(KeyboardHandle::from_resource(None).is_none());
}
