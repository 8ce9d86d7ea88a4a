use std::sync::atomic::{AtomicBool, Ordering};
use std::sync::Arc;
use wayland_seat::hooks::{DestructionHook, SurfaceData};
use wayland_seat::keyboard::{
    KeyboardEvent, KeyboardFocus, KeyboardHandle, KeyboardMessage, KeyboardUserData,
    ModifiersState, SerializedMods,
};
use wayland_seat::keys::{serialize_pressed_keys, KeyState, Keycode, WlKeyState};
use wayland_seat::objects::{ClientId, HookId, Liveness, ObjectId, SeatId, Serial};
use wayland_seat::seat::{for_each_focused_kbds, Seat, SeatAction};
use wayland_seat::text_input::handle::TextInputHandle;
use wayland_seat::text_input::protocol::TextInputMessage;
use wayland_seat::text_input::request::{
    InputMethodHandle, TextInputManagerState, TextInputUserData,
};

const SURFACE: ObjectId = ObjectId { client: ClientId(1), object: 1 };
const KBD: ObjectId = ObjectId { client: ClientId(1), object: 2 };
const DEAD_KBD: ObjectId = ObjectId { client: ClientId(1), object: 3 };
const OTHER_KBD: ObjectId = ObjectId { client: ClientId(2), object: 4 };
const TEXT_INPUT: ObjectId = ObjectId { client: ClientId(1), object: 5 };
const OTHER_TEXT_INPUT: ObjectId = ObjectId { client: ClientId(2), object: 6 };
const INPUT_METHOD: ObjectId = ObjectId { client: ClientId(3), object: 7 };

fn live() -> Liveness {
    Liveness {
        objects: vec![SURFACE, KBD, OTHER_KBD, TEXT_INPUT, OTHER_TEXT_INPUT],
        clients: vec![ClientId(1), ClientId(2), ClientId(3)],
        seats: vec![SeatId(1)],
    }
}

fn mods() -> ModifiersState {
    ModifiersState {
        serialized: SerializedMods { depressed: 1, latched: 2, locked: 4, layout_effective: 8 },
    }
}

fn seat<Sink>(sink: Option<Sink>, input_method: Option<ObjectId>) -> Seat<Sink> {
    let mut handle = TextInputHandle::default();
    handle.set_internal_input_method(sink);
    handle.add_instance(TEXT_INPUT);
    handle.add_instance(OTHER_TEXT_INPUT);
    Seat {
        id: SeatId(1),
        keyboard: KeyboardUserData {
            handle: Some(KeyboardHandle {
                focus: None,
                pressed_keys: Vec::new(),
                mods_state: mods(),
                repeat_rate: 25,
                repeat_delay: 200,
                known_kbds: vec![KBD, DEAD_KBD, OTHER_KBD],
                last_enter: None,
            }),
        },
        text_input: TextInputUserData {
            handle,
            input_method_handle: InputMethodHandle { instance: input_method },
        },
    }
}

fn to_kbd(message: KeyboardMessage) -> SeatAction {
    SeatAction::Keyboard(KeyboardEvent { keyboard: KBD, message })
}

fn last_enter<Sink>(seat: &Seat<Sink>) -> Option<Serial> {
    seat.get_keyboard().unwrap().last_enter
}

struct DropFlag(Arc<AtomicBool>);

impl Drop for DropFlag {
    fn drop(&mut self) {
        self.0.store(true, Ordering::SeqCst);
    }
}

/// A surface that still has keyboard focus must not keep the seat alive.
#[test]
fn a_focused_surface_does_not_keep_the_seat_alive() {
    let dropped = Arc::new(AtomicBool::new(false));
    // The sentinel lives in the seat, so it drops exactly when the seat does.
    let mut seat = seat(Some(DropFlag(dropped.clone())), None);
    let mut surface = SurfaceData::new(SURFACE);
    let keyboard = seat.keyboard.handle.as_mut().unwrap();
    assert_eq!((keyboard.repeat_delay, keyboard.repeat_rate), (200, 25));
    keyboard.focus = Some((
        KeyboardFocus { client: Some(SURFACE.client), surface: Some(SURFACE) },
        Serial(1),
    ));
    surface.enter(&mut seat, &[], Serial(1), HookId(1), &live());

    // Tear down without clearing focus first. The state of the surface outlives this.
    assert!(!dropped.load(Ordering::SeqCst));
    drop(seat);
    assert!(
        dropped.load(Ordering::SeqCst),
        "the seat outlived everything that should own it"
    );
    let gone = Liveness { seats: Vec::new(), ..live() };
    let (_, hook) = surface.destruction_hooks[0];
    let events = hook.run::<DropFlag>(&surface.id, None, &gone);
    assert_eq!(events, Vec::<KeyboardEvent>::new());
}

#[test]
fn only_live_keyboards_of_the_client_are_focused() {
    let seat = seat::<u8>(None, None);
    assert_eq!(for_each_focused_kbds(&seat, &SURFACE, &live()), vec![KBD]);
    let mut without = seat;
    without.keyboard.handle = None;
    assert_eq!(for_each_focused_kbds(&without, &SURFACE, &live()), Vec::<ObjectId>::new());
}

#[test]
fn entering_without_input_method() {
    let mut seat = seat::<u8>(None, None);
    let mut surface = SurfaceData::new(SURFACE);
    let actions = surface.enter(&mut seat, &[Keycode(38)], Serial(9), HookId(1), &live());
    let keys = serialize_pressed_keys(&[Keycode(38)]);
    assert_eq!(
        actions,
        vec![to_kbd(KeyboardMessage::Enter { serial: Serial(9), surface: SURFACE, keys })]
    );
    assert_eq!(last_enter(&seat), Some(Serial(9)));
    // The focus is set in any case: clients bind text input lazily.
    assert_eq!(seat.text_input.handle.focus(), Some(SURFACE));
    assert_eq!(
        surface.destruction_hooks,
        vec![(HookId(1), DestructionHook { seat: SeatId(1), serial: Serial(9) })]
    );
}

#[test]
fn entering_with_a_wayland_input_method() {
    let mut seat = seat::<u8>(None, Some(INPUT_METHOD));
    let mut surface = SurfaceData::new(SURFACE);
    let actions = surface.enter(&mut seat, &[], Serial(9), HookId(1), &live());
    assert_eq!(
        actions,
        vec![
            to_kbd(KeyboardMessage::Enter {
                serial: Serial(9),
                surface: SURFACE,
                keys: Vec::new()
            }),
            SeatAction::DeactivateInputMethod,
            SeatAction::TextInput(TextInputMessage::Enter {
                text_input: TEXT_INPUT,
                surface: SURFACE
            }),
        ]
    );
}

#[test]
fn entering_with_an_internal_input_method() {
    let mut seat = seat(Some(0u8), None);
    let mut surface = SurfaceData::new(SURFACE);
    let actions = surface.enter(&mut seat, &[], Serial(9), HookId(1), &live());
    assert_eq!(actions.len(), 2);
    assert_eq!(
        actions[1],
        SeatAction::TextInput(TextInputMessage::Enter { text_input: TEXT_INPUT, surface: SURFACE })
    );
}

#[test]
fn whoever_is_told_enter_is_told_leave() {
    let mut seat = seat(Some(0u8), Some(INPUT_METHOD));
    let mut surface = SurfaceData::new(SURFACE);
    surface.enter(&mut seat, &[], Serial(9), HookId(1), &live());
    seat.text_input.handle.inner.active_text_input_id = Some(TEXT_INPUT);
    let actions = surface.leave(&mut seat, Serial(10), &live());
    assert_eq!(
        actions,
        vec![
            to_kbd(KeyboardMessage::Leave { serial: Serial(10), surface: SURFACE }),
            SeatAction::DeactivateInputMethod,
            SeatAction::TextInput(TextInputMessage::Leave {
                text_input: TEXT_INPUT,
                surface: SURFACE
            }),
        ]
    );
    assert_eq!(last_enter(&seat), None);
    assert_eq!(seat.text_input.handle.focus(), None);
    assert_eq!(seat.text_input.handle.inner.active_text_input_id, None);
    assert_eq!(surface.destruction_hooks, Vec::new());
}

#[test]
fn leaving_without_input_method_keeps_the_active_text_input() {
    let mut seat = seat::<u8>(None, None);
    let mut surface = SurfaceData::new(SURFACE);
    seat.text_input.handle.inner.active_text_input_id = Some(TEXT_INPUT);
    let actions = surface.leave(&mut seat, Serial(10), &live());
    assert_eq!(
        actions,
        vec![to_kbd(KeyboardMessage::Leave { serial: Serial(10), surface: SURFACE })]
    );
    assert_eq!(seat.text_input.handle.inner.active_text_input_id, Some(TEXT_INPUT));
}

#[test]
fn a_surface_destroyed_with_the_focus_leaves() {
    let mut seat = seat::<u8>(None, None);
    let mut surface = SurfaceData::new(SURFACE);
    surface.enter(&mut seat, &[], Serial(9), HookId(1), &live());
    let (_, hook) = surface.destruction_hooks[0];
    assert_eq!(
        hook.run(&SURFACE, Some(&seat), &live()),
        vec![KeyboardEvent {
            keyboard: KBD,
            message: KeyboardMessage::Leave { serial: Serial(9), surface: SURFACE },
        }]
    );
    let disconnected = Liveness { clients: vec![ClientId(2)], ..live() };
    assert_eq!(hook.run(&SURFACE, Some(&seat), &disconnected), Vec::<KeyboardEvent>::new());
}

#[test]
fn keys_go_to_the_focused_client() {
    let seat = seat::<u8>(None, None);
    let surface = SurfaceData::new(SURFACE);
    let events = surface.key(&seat, Keycode(38), KeyState::Pressed, Serial(3), 77, &live());
    assert_eq!(
        events,
        vec![KeyboardEvent {
            keyboard: KBD,
            message: KeyboardMessage::Key {
                serial: Serial(3),
                time: 77,
                key: 30,
                state: WlKeyState::Pressed,
            },
        }]
    );
}

#[test]
fn a_key_without_evdev_code_is_fine_while_nobody_listens() {
    let mut seat = seat::<u8>(None, None);
    seat.keyboard.handle.as_mut().unwrap().known_kbds = vec![OTHER_KBD];
    let surface = SurfaceData::new(SURFACE);
    let events = surface.key(&seat, Keycode(3), KeyState::Released, Serial(3), 77, &live());
    assert_eq!(events, Vec::<KeyboardEvent>::new());
}

#[test]
fn modifiers_go_to_the_focused_client() {
    let seat = seat::<u8>(None, None);
    let surface = SurfaceData::new(SURFACE);
    assert_eq!(
        surface.modifiers(&seat, mods(), Serial(4), &live()),
        vec![KeyboardEvent {
            keyboard: KBD,
            message: KeyboardMessage::Modifiers {
                serial: Serial(4),
                depressed: 1,
                latched: 2,
                locked: 4,
                group: 8,
            },
        }]
    );
}

#[test]
fn whoever_entered_leaves_whatever_comes_in_between() {
    let mut seat = seat(Some(0u8), None);
    let mut surface = SurfaceData::new(SURFACE);
    surface.enter(&mut seat, &[], Serial(9), HookId(1), &live());
    // Another keyboard and another text input of the client appear.
    let new_kbd = ObjectId { client: ClientId(1), object: 20 };
    let new_text_input = ObjectId { client: ClientId(1), object: 21 };
    seat.keyboard.handle.as_mut().unwrap().known_kbds.insert(0, new_kbd);
    seat.text_input.handle.add_instance(new_text_input);
    let mut now = live();
    now.objects.push(new_kbd);
    let actions = surface.leave(&mut seat, Serial(10), &now);
    assert_eq!(actions.len(), 4);
    assert!(actions
        .contains(&to_kbd(KeyboardMessage::Leave { serial: Serial(10), surface: SURFACE })));
    assert!(actions.contains(&SeatAction::TextInput(TextInputMessage::Leave {
        text_input: TEXT_INPUT,
        surface: SURFACE
    })));
}

#[test]
fn leave_is_sent_although_the_input_method_is_gone() {
    let mut seat = seat(Some(0u8), None);
    let mut surface = SurfaceData::new(SURFACE);
    surface.enter(&mut seat, &[], Serial(9), HookId(1), &live());
    seat.text_input.handle.set_internal_input_method(None);
    let leave = vec![
        to_kbd(KeyboardMessage::Leave { serial: Serial(10), surface: SURFACE }),
        SeatAction::TextInput(TextInputMessage::Leave { text_input: TEXT_INPUT, surface: SURFACE }),
    ];
    assert_eq!(surface.leave(&mut seat, Serial(10), &live()), leave);
    // Entered without an input method, nobody is owed a `leave`.
    surface.enter(&mut seat, &[], Serial(11), HookId(2), &live());
    assert_eq!(
        surface.leave(&mut seat, Serial(12), &live()),
        vec![to_kbd(KeyboardMessage::Leave { serial: Serial(12), surface: SURFACE })]
    );
}

fn kbd_leave(serial: u32) -> SeatAction {
    to_kbd(KeyboardMessage::Leave { serial: Serial(serial), surface: SURFACE })
}

#[test]
fn without_input_method_nobody_is_told_leave_who_was_not_told_enter() {
    let mut seat = seat(Some(0u8), None);
    let mut surface = SurfaceData::new(SURFACE);
    surface.enter(&mut seat, &[], Serial(9), HookId(1), &live());
    // The object that was told goes, the input method goes, and another object comes.
    TextInputManagerState::destroyed(&mut seat.text_input, TEXT_INPUT);
    seat.text_input.handle.set_internal_input_method(None);
    let late = ObjectId { client: ClientId(1), object: 30 };
    seat.text_input.handle.add_instance(late);
    seat.text_input.handle.inner.active_text_input_id = Some(late);
    assert_eq!(surface.leave(&mut seat, Serial(10), &live()), vec![kbd_leave(10)]);
    // Nobody was told, so the active text input is left alone.
    assert_eq!(seat.text_input.handle.inner.active_text_input_id, Some(late));
}

#[test]
fn without_input_method_only_those_who_were_told_enter_are_told_leave() {
    let mut seat = seat(Some(0u8), None);
    let mut surface = SurfaceData::new(SURFACE);
    surface.enter(&mut seat, &[], Serial(9), HookId(1), &live());
    seat.text_input.handle.set_internal_input_method(None);
    seat.text_input.handle.add_instance(ObjectId { client: ClientId(1), object: 30 });
    assert_eq!(
        surface.leave(&mut seat, Serial(10), &live()),
        vec![
            kbd_leave(10),
            SeatAction::TextInput(TextInputMessage::Leave {
                text_input: TEXT_INPUT,
                surface: SURFACE
            }),
        ]
    );
}

#[test]
fn hooks_of_other_seats_stay() {
    let mut both = live();
    both.seats.push(SeatId(2));
    let mut one = seat::<u8>(None, None);
    let mut two = seat::<u8>(None, None);
    two.id = SeatId(2);
    let mut surface = SurfaceData::new(SURFACE);
    surface.enter(&mut one, &[], Serial(1), HookId(1), &both);
    surface.enter(&mut two, &[], Serial(2), HookId(2), &both);
    surface.enter(&mut one, &[], Serial(3), HookId(3), &both);
    let first = (HookId(3), DestructionHook { seat: SeatId(1), serial: Serial(3) });
    let second = (HookId(2), DestructionHook { seat: SeatId(2), serial: Serial(2) });
    assert_eq!(surface.destruction_hooks, vec![second, first]);
    surface.leave(&mut two, Serial(4), &both);
    surface.leave(&mut two, Serial(5), &both);
    assert_eq!(surface.destruction_hooks, vec![first]);
    // Destroyed now, the surface leaves the one seat that is left, with its last serial.
    assert_eq!(
        first.1.run(&SURFACE, Some(&one), &both),
        vec![KeyboardEvent {
            keyboard: KBD,
            message: KeyboardMessage::Leave { serial: Serial(3), surface: SURFACE },
        }]
    );
}
