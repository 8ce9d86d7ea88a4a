//! What is said of keyboards comes down to the objects, versions and serials themselves.
use crate::keyboard::{
    keyboard_beside, keyboard_of, messages_view, modifiers_message, other_than, KeyboardEvent,
    KeyboardHandle, KeyboardMessage, KeyboardUserData, KeyboardView, SerializedMods, WlKeyboard,
};
use crate::keys::{
    all_evdev, keys_bytes, law_evdev_codes, law_keys_read_back, ByteOrder, Keycode,
};
use crate::objects::{ClientId, Liveness, ObjectId, SeatId, Serial};
use crate::sequences::lemma_filter_push;
use vstd::prelude::*;

verus! {

/// A snapshot lists what is alive: an object, a seat or a client is alive exactly if it is listed.
pub proof fn law_listed_is_alive(live: &Liveness, id: ObjectId, seat: SeatId)
    ensures
        live.object_alive(id) <==> exists|i: int|
            0 <= i < live.objects@.len() && live.objects@[i] == id,
        live.seat_exists(seat) <==> exists|i: int|
            0 <= i < live.seats@.len() && live.seats@[i] == seat,
        live.connected_client(id) is Some <==> exists|i: int|
            0 <= i < live.clients@.len() && live.clients@[i] == id.client,
        live.connected_client(id) matches Some(client) ==> client == id.client,
{
}

/// The keyboards of a client are found one by one: one more known keyboard is one more found, at the
/// end, exactly if it exists and its client is the one asked for and connected.
pub proof fn law_client_keyboards_one_by_one(
    known: Seq<ObjectId>,
    kbd: ObjectId,
    client: ClientId,
    live: &Liveness,
)
    ensures
        Seq::<ObjectId>::empty().filter(keyboard_of(client, live)).len() == 0,
        live.objects@.contains(kbd) && kbd.client == client && live.clients@.contains(client)
            ==> known.push(kbd).filter(keyboard_of(client, live)) == known.filter(
            keyboard_of(client, live),
        ).push(kbd),
        !(live.objects@.contains(kbd) && kbd.client == client && live.clients@.contains(client))
            ==> known.push(kbd).filter(keyboard_of(client, live)) == known.filter(
            keyboard_of(client, live),
        ),
{
    reveal(Seq::filter);
    lemma_filter_push(known, keyboard_of(client, live), kbd);
}

/// The keyboards beside a surface are found one by one: one more known keyboard is one more found,
/// at the end, exactly if it exists and has the client of the surface.
pub proof fn law_focused_keyboards_one_by_one(
    known: Seq<ObjectId>,
    kbd: ObjectId,
    surface: ObjectId,
    live: &Liveness,
)
    ensures
        Seq::<ObjectId>::empty().filter(keyboard_beside(surface, live)).len() == 0,
        live.objects@.contains(kbd) && kbd.client == surface.client ==> known.push(kbd).filter(
            keyboard_beside(surface, live),
        ) == known.filter(keyboard_beside(surface, live)).push(kbd),
        !(live.objects@.contains(kbd) && kbd.client == surface.client) ==> known.push(kbd).filter(
            keyboard_beside(surface, live),
        ) == known.filter(keyboard_beside(surface, live)),
{
    reveal(Seq::filter);
    lemma_filter_push(known, keyboard_beside(surface, live), kbd);
}

/// A destroyed keyboard is dropped wherever it stands, and all others stay in their order.
pub proof fn law_forgotten_one_by_one(known: Seq<ObjectId>, kbd: ObjectId, gone: ObjectId)
    ensures
        Seq::<ObjectId>::empty().filter(other_than(gone)).len() == 0,
        known.push(gone).filter(other_than(gone)) == known.filter(other_than(gone)),
        kbd != gone ==> known.push(kbd).filter(other_than(gone)) == known.filter(
            other_than(gone),
        ).push(kbd),
{
    reveal(Seq::filter);
    lemma_filter_push(known, other_than(gone), gone);
    lemma_filter_push(known, other_than(gone), kbd);
}

/// An object has the focus through its client, and the focus can be told exactly if there is a
/// surface to name and every pressed key is at least eight.
pub proof fn law_focus_of_a_client(keyboard: KeyboardView, id: ObjectId)
    ensures
        keyboard.focuses_client_of(id) <==> keyboard.focus is Some
            && (keyboard.focus->0).0.client is Some && (keyboard.focus->0).0.client->0 == id.client,
        keyboard.can_tell_focus() <==> keyboard.focus is Some && (keyboard.focus->0).0.surface is Some
            && forall|i: int|
            0 <= i < keyboard.pressed_keys.len() ==> (#[trigger] keyboard.pressed_keys[i]).0 >= 8,
{
    law_evdev_codes(Keycode(0), keyboard.pressed_keys);
}

/// A new keyboard is told how keys repeat first, exactly if its version is at least four, and all
/// such versions are told the same. If its client has the focus, it is told two things more and
/// nothing else: `enter`, with keys from which each pressed key is read back, and the modifiers.
pub proof fn law_new_keyboard_is_told(
    keyboard: KeyboardView,
    order: ByteOrder,
    kbd: WlKeyboard,
    version: u32,
)
    ensures
        ({
            let told = keyboard.welcome(order, kbd);
            let n: int = if kbd.version >= 4 {
                1
            } else {
                0
            };
            let focused = keyboard.focus is Some && (keyboard.focus->0).0.client == Some(
                kbd.id.client,
            );
            let (focus, since) = keyboard.focus->0;
            let mods = keyboard.mods_state.serialized;
            &&& told.len() == n + if focused {
                2int
            } else {
                0
            }
            &&& kbd.version >= 4 ==> told[0] == (KeyboardMessage::<Seq<u8>>::RepeatInfo {
                rate: keyboard.repeat_rate,
                delay: keyboard.repeat_delay,
            })
            &&& forall|i: int|
                0 <= i < told.len() && (#[trigger] told[i]) is RepeatInfo ==> i == 0 && kbd.version
                    >= 4
            &&& focused && focus.surface is Some ==> {
                &&& told[n] is Enter
                &&& told[n]->Enter_serial == since
                &&& Some(told[n]->Enter_surface) == focus.surface
                &&& told[n]->Enter_keys == keys_bytes(order, keyboard.pressed_keys)
                &&& told[n + 1] == (KeyboardMessage::<Seq<u8>>::Modifiers {
                    serial: since,
                    depressed: mods.depressed,
                    latched: mods.latched,
                    locked: mods.locked,
                    group: mods.layout_effective,
                })
            }
            &&& kbd.version >= 4 && version >= 4 ==> keyboard.welcome(
                order,
                WlKeyboard { id: kbd.id, version },
            ) == told
        }),
        keyboard.focuses_client_of(kbd.id) && keyboard.can_tell_focus() ==> {
            let told = keyboard.welcome(order, kbd);
            let bytes = told[if kbd.version >= 4 {
                1int
            } else {
                0
            }]->Enter_keys;
            reads_back(order, bytes, keyboard.pressed_keys)
        },
{
    if keyboard.can_tell_focus() {
        lemma_reads_back(order, keyboard.pressed_keys);
    }
}

/// Each keycode less eight stands in its own four bytes, and there is nothing else.
pub open spec fn reads_back(
    order: ByteOrder,
    bytes: Seq<u8>,
    keys: Seq<Keycode>,
) -> bool {
    &&& bytes.len() == 4 * keys.len()
    &&& forall|i: int|
        0 <= i < keys.len() ==> (#[trigger] keys[i]).0 - 8 == match order {
            ByteOrder::Little => bytes[4 * i] + 256 * bytes[4 * i + 1] + 65536 * bytes[4 * i + 2]
                + 16777216 * bytes[4 * i + 3],
            ByteOrder::Big => bytes[4 * i + 3] + 256 * bytes[4 * i + 2] + 65536 * bytes[4 * i + 1]
                + 16777216 * bytes[4 * i],
        }
}

/// The wire form of keys reads back.
pub proof fn lemma_reads_back(order: ByteOrder, keys: Seq<Keycode>)
    requires
        all_evdev(keys),
    ensures
        reads_back(order, keys_bytes(order, keys), keys),
{
    law_keys_read_back(order, keys);
}

/// The message of the modifiers carries each of them where it belongs.
pub proof fn law_modifiers_carry_over(serial: Serial, mods: SerializedMods)
    ensures
        ({
            let message = modifiers_message(serial, mods);
            &&& message is Modifiers
            &&& message->Modifiers_serial == serial
            &&& message->depressed == mods.depressed
            &&& message->latched == mods.latched
            &&& message->locked == mods.locked
            &&& message->group == mods.layout_effective
        }),
{
}

/// Contracts see every field of a message as it is.
pub proof fn law_messages_are_seen_whole(message: KeyboardMessage, event: KeyboardEvent)
    ensures
        event@.keyboard == event.keyboard,
        event@.message == event.message@,
        message matches KeyboardMessage::RepeatInfo { rate, delay } ==> message@
            == (KeyboardMessage::<Seq<u8>>::RepeatInfo { rate, delay }),
        message matches KeyboardMessage::Enter { serial, surface, keys } ==> message@
            == (KeyboardMessage::Enter { serial, surface, keys: keys@ }),
        message matches KeyboardMessage::Leave { serial, surface } ==> message@
            == (KeyboardMessage::<Seq<u8>>::Leave { serial, surface }),
        message matches KeyboardMessage::Key { serial, time, key, state } ==> message@
            == (KeyboardMessage::<Seq<u8>>::Key { serial, time, key, state }),
        message matches KeyboardMessage::Modifiers { serial, depressed, latched, locked, group }
            ==> message@ == (KeyboardMessage::<Seq<u8>>::Modifiers {
            serial,
            depressed,
            latched,
            locked,
            group,
        }),
{
}

/// Contracts see as many messages as there are, each in its place.
pub proof fn law_message_lists_are_seen_whole(messages: Seq<KeyboardMessage>)
    ensures
        messages_view(messages).len() == messages.len(),
        forall|i: int|
            0 <= i < messages.len() ==> #[trigger] messages_view(messages)[i] == messages[i]@,
{
}

/// Contracts see every field of a keyboard as it is.
pub proof fn law_keyboards_are_seen_whole(handle: KeyboardHandle, data: KeyboardUserData)
    ensures
        handle@.focus == handle.focus,
        handle@.pressed_keys == handle.pressed_keys@,
        handle@.mods_state == handle.mods_state,
        handle@.repeat_rate == handle.repeat_rate,
        handle@.repeat_delay == handle.repeat_delay,
        handle@.known_kbds == handle.known_kbds@,
        handle@.last_enter == handle.last_enter,
        data@ is Some <==> data.handle is Some,
        data.handle matches Some(handle) ==> data@->0 == handle@,
{
}

} // verus!
