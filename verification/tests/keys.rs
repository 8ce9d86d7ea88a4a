use wayland_seat::keys::{
    byte_order_of, serialize_pressed_keys, serialize_pressed_keys_in, ByteOrder, KeyState, Keycode,
    UnknownKeyState, WlKeyState,
};

#[test]
fn pressed_keys_are_shifted_and_stand_in_memory_order() {
    let keys = [Keycode(9), Keycode(264), Keycode(0x0102_0304 + 8)];
    let mut expected: Vec<u8> = Vec::new();
    for code in [1u32, 256, 0x0102_0304] {
        expected.extend_from_slice(&code.to_ne_bytes());
    }
    assert_eq!(serialize_pressed_keys(&keys), expected);
}

#[test]
fn pressed_keys_in_either_order() {
    let keys = [Keycode(0x0102_0304 + 8), Keycode(8)];
    assert_eq!(
        serialize_pressed_keys_in(ByteOrder::Little, &keys),
        vec![4, 3, 2, 1, 0, 0, 0, 0]
    );
    assert_eq!(
        serialize_pressed_keys_in(ByteOrder::Big, &keys),
        vec![1, 2, 3, 4, 0, 0, 0, 0]
    );
}

#[test]
fn largest_keycode() {
    assert_eq!(
        serialize_pressed_keys_in(ByteOrder::Little, &[Keycode(u32::MAX)]),
        vec![0xf7, 0xff, 0xff, 0xff]
    );
}

#[test]
fn no_pressed_keys() {
    assert_eq!(serialize_pressed_keys(&[]), Vec::<u8>::new());
}

#[test]
fn each_key_is_read_back_from_its_bytes() {
    let keys = [Keycode(38), Keycode(50), Keycode(70_000)];
    let bytes = serialize_pressed_keys(&keys);
    assert_eq!(bytes.len(), 12);
    for (i, key) in keys.iter().enumerate() {
        let chunk = [bytes[4 * i], bytes[4 * i + 1], bytes[4 * i + 2], bytes[4 * i + 3]];
        assert_eq!(u32::from_ne_bytes(chunk) + 8, key.raw());
    }
}

#[test]
fn key_states_go_there_and_back() {
    for state in [KeyState::Pressed, KeyState::Released] {
        assert_eq!(KeyState::try_from(WlKeyState::from(state)), Ok(state));
    }
    assert_eq!(WlKeyState::from(KeyState::Pressed), WlKeyState::Pressed);
    assert_eq!(WlKeyState::from(KeyState::Released), WlKeyState::Released);
}

#[test]
fn repeated_is_no_key_state() {
    let refused = KeyState::try_from(WlKeyState::Repeated);
    assert_eq!(refused, Err(UnknownKeyState(WlKeyState::Repeated)));
    assert_eq!(
        UnknownKeyState(WlKeyState::Repeated).message(),
        "Unknown KeyState Repeated"
    );
    assert_eq!(
        UnknownKeyState(WlKeyState::Pressed).message(),
        "Unknown KeyState Pressed"
    );
    assert_eq!(
        UnknownKeyState(WlKeyState::Released).message(),
        "Unknown KeyState Released"
    );
}

#[test]
fn byte_order_is_told_by_the_bytes_of_one() {
    assert_eq!(byte_order_of(&1u32.to_le_bytes()), ByteOrder::Little);
    assert_eq!(byte_order_of(&1u32.to_be_bytes()), ByteOrder::Big);
}
