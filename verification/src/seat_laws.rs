//! What is said of a seat comes down to keyboards, text-input objects and messages themselves.
use crate::hooks::DestructionHook;
use crate::keyboard::{
    keyboard_beside, keyboard_of, KeyboardEvent, KeyboardMessage, KeyboardView,
};
use crate::keyboard_laws::{
    law_client_keyboards_one_by_one, law_focused_keyboards_one_by_one, lemma_reads_back, reads_back,
};
use crate::keys::{
    keys_bytes, law_evdev_codes, law_key_states_read_back, wl_state_of, ByteOrder, KeyState, Keycode,
    WlKeyState,
};
use crate::objects::{Liveness, ObjectId, Serial};
use crate::seat::{
    actions_view, events_view, hook_events, to_each, Seat, SeatAction, SeatView,
};
use crate::sequences::lemma_filter_contains;
use crate::text_input::protocol::TextInputMessage;
use crate::text_input::state::TextInputView;
use vstd::prelude::*;

verus! {

/// One message to several keyboards gives as many events as keyboards, each with its keyboard and
/// that message, whatever the message.
pub proof fn law_one_event_each(kbds: Seq<ObjectId>, message: KeyboardMessage<Seq<u8>>)
    ensures
        to_each(kbds, message).len() == kbds.len(),
        forall|i: int|
            0 <= i < kbds.len() ==> (#[trigger] to_each(kbds, message)[i]).keyboard == kbds[i]
                && to_each(kbds, message)[i].message == message,
{
}

/// The keyboards beside a surface are found on the keyboard of the seat, one by one: one more known
/// keyboard is one more found, at the end, exactly if it exists and has the client of the surface.
/// A seat without a keyboard has none.
pub proof fn law_keyboards_of_a_seat<Sink>(
    seat: SeatView<Sink>,
    keyboard: KeyboardView,
    kbd: ObjectId,
    surface: ObjectId,
    live: &Liveness,
)
    requires
        seat.keyboard == Some(keyboard),
    ensures
        keyboard.known_kbds.len() == 0 ==> seat.focused_kbds(surface, live).len() == 0,
        (SeatView::<Sink> { keyboard: None, ..seat }).focused_kbds(surface, live).len() == 0,
        ({
            let more = SeatView::<Sink> {
                keyboard: Some(
                    KeyboardView { known_kbds: keyboard.known_kbds.push(kbd), ..keyboard },
                ),
                ..seat
            };
            if live.objects@.contains(kbd) && kbd.client == surface.client {
                more.focused_kbds(surface, live) == seat.focused_kbds(surface, live).push(kbd)
            } else {
                more.focused_kbds(surface, live) == seat.focused_kbds(surface, live)
            }
        }),
{
    law_focused_keyboards_one_by_one(keyboard.known_kbds, kbd, surface, live);
    if keyboard.known_kbds.len() == 0 {
        assert(keyboard.known_kbds =~= Seq::<ObjectId>::empty());
    }
}

/// A keyboard is one of those beside a surface exactly if it is known, exists, and has the client of
/// the surface.
pub proof fn law_who_is_beside<Sink>(
    seat: SeatView<Sink>,
    kbd: ObjectId,
    surface: ObjectId,
    live: &Liveness,
)
    ensures
        seat.focused_kbds(surface, live).contains(kbd) <==> seat.keyboard is Some
            && seat.keyboard->0.known_kbds.contains(kbd) && live.objects@.contains(kbd) && kbd.client
            == surface.client,
{
    if let Some(keyboard) = seat.keyboard {
        lemma_filter_contains(keyboard.known_kbds, keyboard_beside(surface, live), kbd);
    }
}

/// There is an input method if a Wayland one is bound, or an internal one is registered, and not
/// otherwise.
pub proof fn law_input_methods<Sink>(seat: SeatView<Sink>)
    ensures
        seat.has_ime() <==> seat.input_method is Some || seat.text_input.internal_im is Some,
{
}

/// A key reaches each keyboard beside the surface once, whatever its state, with the serial, the
/// time, the keycode less eight and the state that were given.
pub proof fn law_key_reaches_each_keyboard<Sink>(
    seat: SeatView<Sink>,
    surface: ObjectId,
    key: Keycode,
    state: KeyState,
    serial: Serial,
    time: u32,
    live: &Liveness,
)
    requires
        key.0 >= 8,
    ensures
        ({
            let kbds = seat.focused_kbds(surface, live);
            let events = to_each(
                kbds,
                KeyboardMessage::Key {
                    serial,
                    time,
                    key: key.evdev_code(),
                    state: wl_state_of(state),
                },
            );
            &&& events.len() == kbds.len()
            &&& forall|i: int|
                0 <= i < kbds.len() ==> {
                    &&& (#[trigger] events[i]).keyboard == kbds[i]
                    &&& events[i].message is Key
                    &&& events[i].message->Key_serial == serial
                    &&& events[i].message->time == time
                    &&& events[i].message->key + 8 == key.0
                    &&& events[i].message->state is Pressed <==> state is Pressed
                    &&& events[i].message->state is Released <==> state is Released
                }
        }),
{
    law_evdev_codes(key, seq![]);
    law_key_states_read_back(state, WlKeyState::Pressed);
}

/// Giving the focus to a surface does this and nothing else, in this order: each keyboard beside it
/// is told `enter` with the serial and the keys that were given, whatever input methods there are; a
/// Wayland input method is deactivated; and if there is an input method, each text-input object of
/// the client is told `enter`.
pub proof fn law_what_entering_does<Sink>(
    seat: SeatView<Sink>,
    surface: ObjectId,
    keys: Seq<u8>,
    serial: Serial,
    live: &Liveness,
)
    ensures
        ({
            let actions = seat.enter_actions(surface, keys, serial, live);
            let kbds = seat.focused_kbds(surface, live);
            let objects = (TextInputView::<Sink> {
                focus: Some(surface),
                ..seat.text_input
            }).focused(live);
            let n: int = kbds.len() as int;
            let d: int = if seat.input_method is Some {
                1
            } else {
                0
            };
            let t: int = if seat.input_method is Some || seat.text_input.internal_im is Some {
                objects.len() as int
            } else {
                0
            };
            &&& actions.len() == n + d + t
            &&& forall|i: int|
                0 <= i < n ==> #[trigger] actions[i] == SeatAction::Keyboard(
                    KeyboardEvent {
                        keyboard: kbds[i],
                        message: KeyboardMessage::Enter { serial, surface, keys },
                    },
                )
            &&& d == 1 ==> actions[n] is DeactivateInputMethod
            &&& forall|j: int|
                0 <= j < t ==> #[trigger] actions[n + d + j] == SeatAction::<Seq<u8>>::TextInput(
                    TextInputMessage::Enter { text_input: objects[j].0, surface },
                )
        }),
{
    assert((TextInputView::<Sink> { focus: Some(surface), ..seat.text_input })
        == seat.focused_on(surface));
}

/// Whatever input methods there are, each keyboard that is known, exists and has the client of the
/// surface is told `enter` when the surface gets the focus, with the serial that was given and keys
/// from which each pressed keycode less eight is read back.
pub proof fn law_pressed_keys_are_told<Sink>(
    seat: SeatView<Sink>,
    surface: ObjectId,
    order: ByteOrder,
    keys: Seq<Keycode>,
    serial: Serial,
    live: &Liveness,
    kbd: ObjectId,
) -> (i: int)
    requires
        seat.keyboard is Some,
        seat.keyboard->0.known_kbds.contains(kbd),
        live.objects@.contains(kbd),
        kbd.client == surface.client,
        forall|k: int| 0 <= k < keys.len() ==> (#[trigger] keys[k]).0 >= 8,
    ensures
        ({
            let actions = seat.enter_actions(surface, keys_bytes(order, keys), serial, live);
            &&& 0 <= i < actions.len()
            &&& actions[i] matches SeatAction::Keyboard(event)
            &&& event.keyboard == kbd
            &&& event.message matches KeyboardMessage::Enter {
                serial: told_serial,
                surface: told_surface,
                keys: bytes,
            }
            &&& told_serial == serial
            &&& told_surface == surface
            &&& reads_back(order, bytes, keys)
        }),
{
    law_evdev_codes(Keycode(8), keys);
    lemma_reads_back(order, keys);
    law_who_is_beside(seat, kbd, surface, live);
    law_what_entering_does(seat, surface, keys_bytes(order, keys), serial, live);
    let kbds = seat.focused_kbds(surface, live);
    let i = choose|i: int| 0 <= i < kbds.len() && kbds[i] == kbd;
    i
}

/// Taking the focus from a surface does this and nothing else, in this order: each keyboard beside
/// it is told `leave` with the serial that was given; a Wayland input method is deactivated; and if
/// there is an input method, each text-input object of the focused client is told `leave`, otherwise
/// those that are owed one.
pub proof fn law_what_leaving_does<Sink>(
    seat: SeatView<Sink>,
    surface: ObjectId,
    serial: Serial,
    live: &Liveness,
)
    ensures
        ({
            let actions = seat.leave_actions(surface, serial, live);
            let kbds = seat.focused_kbds(surface, live);
            let objects = seat.text_input.focused(live);
            let owed = seat.text_input.owed_messages(live);
            let ime = seat.input_method is Some || seat.text_input.internal_im is Some;
            let n: int = kbds.len() as int;
            let d: int = if seat.input_method is Some {
                1
            } else {
                0
            };
            &&& actions.len() == n + d + if ime {
                objects.len()
            } else {
                owed.len()
            }
            &&& forall|i: int|
                0 <= i < n ==> #[trigger] actions[i] == SeatAction::<Seq<u8>>::Keyboard(
                    KeyboardEvent {
                        keyboard: kbds[i],
                        message: KeyboardMessage::Leave { serial, surface },
                    },
                )
            &&& d == 1 ==> actions[n] is DeactivateInputMethod
            &&& ime ==> forall|j: int|
                0 <= j < objects.len() ==> #[trigger] actions[n + d + j] == SeatAction::<
                    Seq<u8>,
                >::TextInput(
                    TextInputMessage::Leave {
                        text_input: objects[j].0,
                        surface: seat.text_input.focus->0,
                    },
                )
            &&& !ime ==> forall|j: int|
                0 <= j < owed.len() ==> #[trigger] actions[n + d + j] == SeatAction::<
                    Seq<u8>,
                >::TextInput(owed[j])
        }),
{
}

/// Giving the focus to a surface changes the serial of the last `enter`, the text-input focus and
/// who was told, and nothing else of the seat.
pub proof fn law_seat_after_entering<Sink>(
    seat: SeatView<Sink>,
    surface: ObjectId,
    serial: Serial,
    live: &Liveness,
)
    ensures
        ({
            let after = seat.entered(surface, serial, live);
            let moved = TextInputView::<Sink> { focus: Some(surface), ..seat.text_input };
            &&& after.id == seat.id
            &&& after.input_method == seat.input_method
            &&& after.keyboard is Some <==> seat.keyboard is Some
            &&& seat.keyboard is Some ==> only_last_enter(
                seat.keyboard->0,
                after.keyboard->0,
                Some(serial),
            )
            &&& after.text_input.focus == Some(surface)
            &&& after.text_input.active_text_input_id == seat.text_input.active_text_input_id
            &&& after.text_input.internal_im == seat.text_input.internal_im
            &&& after.text_input.instances == if seat.input_method is Some
                || seat.text_input.internal_im is Some {
                moved.after_enter(live).instances
            } else {
                seat.text_input.instances
            }
        }),
{
}

/// Taking the focus away clears the serial of the last `enter` and the text-input focus, notes who
/// was told, ends the active text input if anybody is told for an input method's sake, and changes
/// nothing else of the seat.
pub proof fn law_seat_after_leaving<Sink>(seat: SeatView<Sink>, live: &Liveness)
    ensures
        ({
            let after = seat.left(live);
            let ime = seat.input_method is Some || seat.text_input.internal_im is Some;
            &&& after.id == seat.id
            &&& after.input_method == seat.input_method
            &&& after.keyboard is Some <==> seat.keyboard is Some
            &&& seat.keyboard is Some ==> only_last_enter(
                seat.keyboard->0,
                after.keyboard->0,
                None,
            )
            &&& after.text_input.focus is None
            &&& after.text_input.internal_im == seat.text_input.internal_im
            &&& ime || seat.text_input.owed_messages(live).len() > 0
                ==> after.text_input.active_text_input_id is None
            &&& !ime && seat.text_input.owed_messages(live).len() == 0
                ==> after.text_input.active_text_input_id == seat.text_input.active_text_input_id
            &&& ime ==> after.text_input.instances == seat.text_input.after_leave(live).instances
            &&& !ime ==> after.text_input.instances == seat.text_input.after_owed_leave(
                live,
            ).instances
        }),
{
}

/// The keyboards differ in the serial of the last `enter` only.
pub open spec fn only_last_enter(
    before: KeyboardView,
    after: KeyboardView,
    last_enter: Option<Serial>,
) -> bool {
    &&& after.last_enter == last_enter
    &&& after.focus == before.focus
    &&& after.pressed_keys == before.pressed_keys
    &&& after.mods_state == before.mods_state
    &&& after.repeat_rate == before.repeat_rate
    &&& after.repeat_delay == before.repeat_delay
    &&& after.known_kbds == before.known_kbds
}

/// A destroyed surface is left one by one: one more known keyboard is one more event, at the end,
/// with the surface and the serial of the hook, exactly if the keyboard exists and has the client of
/// the surface, which is still connected. Without a seat there is none.
pub proof fn law_destruction_one_by_one<Sink>(
    hook: DestructionHook,
    surface: ObjectId,
    seat: SeatView<Sink>,
    keyboard: KeyboardView,
    kbd: ObjectId,
    live: &Liveness,
)
    requires
        seat.keyboard == Some(keyboard),
    ensures
        hook_events::<Sink>(hook, surface, None, live).len() == 0,
        keyboard.known_kbds.len() == 0 ==> hook_events(hook, surface, Some(seat), live).len() == 0,
        ({
            let more = SeatView::<Sink> {
                keyboard: Some(
                    KeyboardView { known_kbds: keyboard.known_kbds.push(kbd), ..keyboard },
                ),
                ..seat
            };
            let before = hook_events(hook, surface, Some(seat), live);
            let after = hook_events(hook, surface, Some(more), live);
            if live.objects@.contains(kbd) && kbd.client == surface.client && live.clients@.contains(
                surface.client,
            ) {
                after == before.push(
                    KeyboardEvent {
                        keyboard: kbd,
                        message: KeyboardMessage::Leave { serial: hook.serial, surface },
                    },
                )
            } else {
                after == before
            }
        }),
{
    let client = surface.client;
    let known = keyboard.known_kbds;
    let leave = KeyboardMessage::<Seq<u8>>::Leave { serial: hook.serial, surface };
    law_client_keyboards_one_by_one(known, kbd, client, live);
    if known.len() == 0 {
        assert(known =~= Seq::<ObjectId>::empty());
    }
    let kept = known.filter(keyboard_of(client, live));
    assert(to_each(kept.push(kbd), leave) =~= to_each(kept, leave).push(
        KeyboardEvent { keyboard: kbd, message: leave },
    ));
}

/// Contracts see actions and events as they are, as many as there are, each in its place.
pub proof fn law_actions_are_seen_whole(
    event: KeyboardEvent,
    message: TextInputMessage,
    actions: Seq<SeatAction>,
    events: Seq<KeyboardEvent>,
)
    ensures
        SeatAction::Keyboard(event)@ == SeatAction::Keyboard(event@),
        SeatAction::<Vec<u8>>::DeactivateInputMethod@ == SeatAction::<
            Seq<u8>,
        >::DeactivateInputMethod,
        SeatAction::<Vec<u8>>::TextInput(message)@ == SeatAction::<Seq<u8>>::TextInput(message),
        actions_view(actions).len() == actions.len(),
        forall|i: int|
            0 <= i < actions.len() ==> #[trigger] actions_view(actions)[i] == actions[i]@,
        events_view(events).len() == events.len(),
        forall|i: int| 0 <= i < events.len() ==> #[trigger] events_view(events)[i] == events[i]@,
{
}

/// Contracts see every part of a seat as it is.
pub proof fn law_seats_are_seen_whole<Sink>(seat: Seat<Sink>)
    ensures
        seat@.id == seat.id,
        seat@.keyboard is Some <==> seat.keyboard.handle is Some,
        seat.keyboard.handle matches Some(handle) ==> seat@.keyboard == Some(handle@),
        seat@.text_input == seat.text_input.handle.inner@,
        seat@.input_method == seat.text_input.input_method_handle.instance,
{
}

} // verus!
