//! The keyboard of a seat and its `wl_keyboard` objects.
use crate::keys::{
    all_evdev, keys_bytes, native_byte_order, native_order, serialize_pressed_keys_in, ByteOrder,
    Keycode, WlKeyState,
};
use crate::objects::{ClientId, Liveness, ObjectId, Serial};
use crate::sequences::{lemma_filter_contains, lemma_filter_take};
use vstd::prelude::*;

verus! {

/// The state of the modifiers, as it goes over the wire.
#[derive(Clone, Copy, Debug, PartialEq, Eq, Structural)]
pub struct SerializedMods {
    /// Modifiers that are held down.
    pub depressed: u32,
    /// Modifiers that apply to the next key only.
    pub latched: u32,
    /// Modifiers that are locked.
    pub locked: u32,
    /// The keyboard layout in effect.
    pub layout_effective: u32,
}

/// The state of the modifiers.
#[derive(Clone, Copy, Debug, PartialEq, Eq, Structural)]
pub struct ModifiersState {
    /// The state as it goes over the wire.
    pub serialized: SerializedMods,
}

/// A `wl_keyboard` object.
#[derive(Clone, Copy, Debug, PartialEq, Eq, Structural)]
pub struct WlKeyboard {
    /// The object.
    pub id: ObjectId,
    /// The version of the interface that the client bound.
    pub version: u32,
}

/// What has the keyboard focus.
#[derive(Clone, Copy, Debug, PartialEq, Eq, Structural)]
pub struct KeyboardFocus {
    /// The client behind it, if there is one.
    pub client: Option<ClientId>,
    /// Its surface, if it has one.
    pub surface: Option<ObjectId>,
}

impl KeyboardFocus {
    /// Whether the object belongs to the client that has the focus.
    pub fn same_client_as(&self, id: &ObjectId) -> (r: bool)
        ensures
            r == (self.client == Some(id.client)),
    {
        match self.client {
            Some(client) => client == id.client,
            None => false,
        }
    }
}

/// A message to a `wl_keyboard` object.
///
/// `Keys` is the wire form of pressed keys: `Vec<u8>` in the program, `Seq<u8>` in contracts.
#[derive(Clone, Debug, PartialEq)]
pub enum KeyboardMessage<Keys = Vec<u8>> {
    /// How keys repeat.
    RepeatInfo {
        /// Repetitions per second.
        rate: i32,
        /// Milliseconds before the first repetition.
        delay: i32,
    },
    /// A surface got the focus.
    Enter {
        /// The serial of the event.
        serial: Serial,
        /// The surface.
        surface: ObjectId,
        /// The keys that are pressed.
        keys: Keys,
    },
    /// A surface lost the focus.
    Leave {
        /// The serial of the event.
        serial: Serial,
        /// The surface.
        surface: ObjectId,
    },
    /// A key changed its state.
    Key {
        /// The serial of the event.
        serial: Serial,
        /// When it happened, in milliseconds.
        time: u32,
        /// The evdev code of the key.
        key: u32,
        /// The new state.
        state: WlKeyState,
    },
    /// The modifiers changed.
    Modifiers {
        /// The serial of the event.
        serial: Serial,
        /// Modifiers that are held down.
        depressed: u32,
        /// Modifiers that apply to the next key only.
        latched: u32,
        /// Modifiers that are locked.
        locked: u32,
        /// The keyboard layout in effect.
        group: u32,
    },
}

/// A message, and the object that it goes to.
#[derive(Clone, Debug, PartialEq)]
pub struct KeyboardEvent<Keys = Vec<u8>> {
    /// The object.
    pub keyboard: ObjectId,
    /// The message.
    pub message: KeyboardMessage<Keys>,
}

impl View for KeyboardMessage<Vec<u8>> {
    type V = KeyboardMessage<Seq<u8>>;

    open spec fn view(&self) -> KeyboardMessage<Seq<u8>> {
        match *self {
            KeyboardMessage::RepeatInfo { rate, delay } => KeyboardMessage::RepeatInfo {
                rate,
                delay,
            },
            KeyboardMessage::Enter { serial, surface, keys } => KeyboardMessage::Enter {
                serial,
                surface,
                keys: keys@,
            },
            KeyboardMessage::Leave { serial, surface } => KeyboardMessage::Leave {
                serial,
                surface,
            },
            KeyboardMessage::Key { serial, time, key, state } => KeyboardMessage::Key {
                serial,
                time,
                key,
                state,
            },
            KeyboardMessage::Modifiers { serial, depressed, latched, locked, group } =>
                KeyboardMessage::Modifiers { serial, depressed, latched, locked, group },
        }
    }
}

impl View for KeyboardEvent<Vec<u8>> {
    type V = KeyboardEvent<Seq<u8>>;

    open spec fn view(&self) -> KeyboardEvent<Seq<u8>> {
        KeyboardEvent { keyboard: self.keyboard, message: self.message@ }
    }
}

/// A list of messages, with the keys in them as sequences of bytes.
pub open spec fn messages_view(messages: Seq<KeyboardMessage<Vec<u8>>>) -> Seq<
    KeyboardMessage<Seq<u8>>,
> {
    messages.map_values(|message: KeyboardMessage<Vec<u8>>| message@)
}

/// The modifiers, as a message.
pub open spec fn modifiers_message(serial: Serial, mods: SerializedMods) -> KeyboardMessage<
    Seq<u8>,
> {
    KeyboardMessage::Modifiers {
        serial,
        depressed: mods.depressed,
        latched: mods.latched,
        locked: mods.locked,
        group: mods.layout_effective,
    }
}

/// The keyboard of a seat.
#[derive(Debug)]
pub struct KeyboardHandle {
    /// What has the keyboard focus, and since which event.
    pub focus: Option<(KeyboardFocus, Serial)>,
    /// The keys that are pressed.
    pub pressed_keys: Vec<Keycode>,
    /// The state of the modifiers.
    pub mods_state: ModifiersState,
    /// Repetitions per second.
    pub repeat_rate: i32,
    /// Milliseconds before the first repetition.
    pub repeat_delay: i32,
    /// The `wl_keyboard` objects, oldest first. They are remembered weakly.
    pub known_kbds: Vec<ObjectId>,
    /// The serial of the last `enter`, while the focus stays.
    pub last_enter: Option<Serial>,
}

/// The keyboard of a seat, as contracts speak of it.
#[verifier::ext_equal]
pub struct KeyboardView {
    /// What has the keyboard focus, and since which event.
    pub focus: Option<(KeyboardFocus, Serial)>,
    /// The keys that are pressed.
    pub pressed_keys: Seq<Keycode>,
    /// The state of the modifiers.
    pub mods_state: ModifiersState,
    /// Repetitions per second.
    pub repeat_rate: i32,
    /// Milliseconds before the first repetition.
    pub repeat_delay: i32,
    /// The `wl_keyboard` objects, oldest first.
    pub known_kbds: Seq<ObjectId>,
    /// The serial of the last `enter`, while the focus stays.
    pub last_enter: Option<Serial>,
}

impl View for KeyboardHandle {
    type V = KeyboardView;

    open spec fn view(&self) -> KeyboardView {
        KeyboardView {
            focus: self.focus,
            pressed_keys: self.pressed_keys@,
            mods_state: self.mods_state,
            repeat_rate: self.repeat_rate,
            repeat_delay: self.repeat_delay,
            known_kbds: self.known_kbds@,
            last_enter: self.last_enter,
        }
    }
}

/// The keyboard exists and belongs to the connected client.
pub open spec fn keyboard_of(client: ClientId, live: &Liveness) -> spec_fn(ObjectId) -> bool {
    |kbd: ObjectId| live.object_alive(kbd) && live.connected_client(kbd) == Some(client)
}

/// The keyboard exists and belongs to the client that owns the surface.
pub open spec fn keyboard_beside(surface: ObjectId, live: &Liveness) -> spec_fn(ObjectId) -> bool {
    |kbd: ObjectId| live.object_alive(kbd) && kbd.client == surface.client
}

/// The object is another one.
pub open spec fn other_than(id: ObjectId) -> spec_fn(ObjectId) -> bool {
    |kbd: ObjectId| kbd != id
}

impl KeyboardView {
    /// The object belongs to the client that has the focus.
    pub open spec fn focuses_client_of(self, id: ObjectId) -> bool {
        self.focus matches Some((focus, _)) && focus.client == Some(id.client)
    }

    /// A keyboard can be told of the focus: there is a surface to name and every pressed key has
    /// an evdev code.
    pub open spec fn can_tell_focus(self) -> bool {
        &&& self.focus matches Some((focus, _)) && focus.surface is Some
        &&& all_evdev(self.pressed_keys)
    }

    /// How keys repeat, for those who understand the message.
    pub open spec fn repeat_messages(self, version: u32) -> Seq<KeyboardMessage<Seq<u8>>> {
        if version >= 4 {
            seq![KeyboardMessage::RepeatInfo { rate: self.repeat_rate, delay: self.repeat_delay }]
        } else {
            seq![]
        }
    }

    /// The focus, for those whose client has it. The modifiers come after `enter`.
    pub open spec fn focus_messages(self, order: ByteOrder, id: ObjectId) -> Seq<
        KeyboardMessage<Seq<u8>>,
    > {
        match self.focus {
            Some((focus, serial)) => if focus.client == Some(id.client) {
                seq![
                    KeyboardMessage::Enter {
                        serial,
                        surface: focus.surface->0,
                        keys: keys_bytes(order, self.pressed_keys),
                    },
                    modifiers_message(serial, self.mods_state.serialized),
                ]
            } else {
                seq![]
            },
            None => seq![],
        }
    }

    /// What a new keyboard is told.
    pub open spec fn welcome(self, order: ByteOrder, kbd: WlKeyboard) -> Seq<
        KeyboardMessage<Seq<u8>>,
    > {
        self.repeat_messages(kbd.version) + self.focus_messages(order, kbd.id)
    }
}

impl KeyboardHandle {
    /// Check if the client of the given object currently has the keyboard focus.
    pub fn client_of_object_has_focus(&self, id: &ObjectId) -> (r: bool)
        ensures
            r == self@.focuses_client_of(*id),
    {
        match &self.focus {
            Some((focus, _)) => focus.same_client_as(id),
            None => false,
        }
    }

    /// All `wl_keyboard` objects of a client.
    pub fn client_keyboards(&self, client: &ClientId, live: &Liveness) -> (r: Vec<ObjectId>)
        ensures
            r@ == self@.known_kbds.filter(keyboard_of(*client, live)),
    {
        let ghost pred = keyboard_of(*client, live);
        let ghost known = self.known_kbds@;
        let mut found: Vec<ObjectId> = Vec::new();
        let mut i: usize = 0;
        proof {
            reveal(Seq::filter);
            assert(known.take(0).filter(pred) =~= seq![]);
        }
        while i < self.known_kbds.len()
            invariant
                i <= self.known_kbds.len(),
                known == self.known_kbds@,
                pred == keyboard_of(*client, live),
                found@ == known.take(i as int).filter(pred),
            decreases self.known_kbds.len() - i,
        {
            proof {
                lemma_filter_take(known, pred, i as int);
            }
            let kbd = self.known_kbds[i];
            if live.is_alive(&kbd) {
                if let Some(owner) = live.client(&kbd) {
                    if owner == *client {
                        found.push(kbd);
                    }
                }
            }
            i += 1;
        }
        assert(known.take(i as int) =~= known);
        found
    }

    /// The `wl_keyboard` objects that belong to the client of a surface.
    pub fn focused_kbds(&self, surface: &ObjectId, live: &Liveness) -> (r: Vec<ObjectId>)
        ensures
            r@ == self@.known_kbds.filter(keyboard_beside(*surface, live)),
    {
        let ghost pred = keyboard_beside(*surface, live);
        let ghost known = self.known_kbds@;
        let mut found: Vec<ObjectId> = Vec::new();
        let mut i: usize = 0;
        proof {
            reveal(Seq::filter);
            assert(known.take(0).filter(pred) =~= seq![]);
        }
        while i < self.known_kbds.len()
            invariant
                i <= self.known_kbds.len(),
                known == self.known_kbds@,
                pred == keyboard_beside(*surface, live),
                found@ == known.take(i as int).filter(pred),
            decreases self.known_kbds.len() - i,
        {
            proof {
                lemma_filter_take(known, pred, i as int);
            }
            let kbd = self.known_kbds[i];
            if live.is_alive(&kbd) && kbd.same_client_as(surface) {
                found.push(kbd);
            }
            i += 1;
        }
        assert(known.take(i as int) =~= known);
        found
    }

    /// Register a new keyboard, with pressed keys in the given byte order.
    ///
    /// `keymap_sent` says whether the keymap, which goes to the keyboard before anything else,
    /// could be sent. A keyboard without a keymap is not registered.
    pub fn new_kbd_in(&mut self, order: ByteOrder, kbd: WlKeyboard, keymap_sent: bool) -> (messages:
        Vec<KeyboardMessage>)
        requires
            keymap_sent && old(self)@.focuses_client_of(kbd.id) ==> old(self)@.can_tell_focus(),
        ensures
            messages_view(messages@) == if keymap_sent {
                old(self)@.welcome(order, kbd)
            } else {
                seq![]
            },
            final(self)@ == if keymap_sent {
                KeyboardView { known_kbds: old(self)@.known_kbds.push(kbd.id), ..old(self)@ }
            } else {
                old(self)@
            },
    {
        let mut messages: Vec<KeyboardMessage> = Vec::new();
        if !keymap_sent {
            assert(messages_view(messages@) =~= seq![]);
            return messages;
        }
        if kbd.version >= 4 {
            messages.push(
                KeyboardMessage::RepeatInfo { rate: self.repeat_rate, delay: self.repeat_delay },
            );
        }
        assert(messages_view(messages@) =~= self@.repeat_messages(kbd.version));
        if let Some((focus, serial)) = self.focus {
            if focus.same_client_as(&kbd.id) {
                let keys = serialize_pressed_keys_in(order, self.pressed_keys.as_slice());
                messages.push(
                    KeyboardMessage::Enter { serial, surface: focus.surface.unwrap(), keys },
                );
                // Modifiers must be sent after the enter event.
                let mods = self.mods_state.serialized;
                messages.push(
                    KeyboardMessage::Modifiers {
                        serial,
                        depressed: mods.depressed,
                        latched: mods.latched,
                        locked: mods.locked,
                        group: mods.layout_effective,
                    },
                );
            }
        }
        assert(messages_view(messages@) =~= self@.welcome(order, kbd));
        self.known_kbds.push(kbd.id);
        messages
    }

    /// Register a new keyboard.
    ///
    /// `keymap_sent` says whether the keymap, which goes to the keyboard before anything else,
    /// could be sent. A keyboard without a keymap is not registered.
    ///
    /// This should be done first, before anything else is done with this keyboard.
    pub fn new_kbd(&mut self, kbd: WlKeyboard, keymap_sent: bool) -> (messages: Vec<
        KeyboardMessage,
    >)
        requires
            keymap_sent && old(self)@.focuses_client_of(kbd.id) ==> old(self)@.can_tell_focus(),
        ensures
            messages_view(messages@) == if keymap_sent {
                old(self)@.welcome(native_order(), kbd)
            } else {
                seq![]
            },
            final(self)@ == if keymap_sent {
                KeyboardView { known_kbds: old(self)@.known_kbds.push(kbd.id), ..old(self)@ }
            } else {
                old(self)@
            },
    {
        self.new_kbd_in(native_byte_order(), kbd, keymap_sent)
    }

    /// The keyboard that a `wl_keyboard` object belongs to.
    ///
    /// `data` is what the object carries. `None` for an object that carries nothing of this
    /// library, and for one that was created without the keyboard capability.
    pub fn from_resource(data: Option<&KeyboardUserData>) -> (r: Option<&KeyboardHandle>)
        ensures
            match data {
                Some(data) => match data.handle {
                    Some(handle) => r == Some(&handle),
                    None => r is None,
                },
                None => r is None,
            },
    {
        match data {
            Some(data) => data.handle.as_ref(),
            None => None,
        }
    }
}

/// What the `wl_keyboard` objects of a seat share.
#[derive(Debug)]
pub struct KeyboardUserData {
    /// The keyboard of the seat, if it has one.
    pub handle: Option<KeyboardHandle>,
}

impl View for KeyboardUserData {
    type V = Option<KeyboardView>;

    open spec fn view(&self) -> Option<KeyboardView> {
        match self.handle {
            Some(handle) => Some(handle@),
            None => None,
        }
    }
}

/// The seat side of the display.
#[derive(Debug)]
pub struct SeatState;

impl SeatState {
    /// Forget a `wl_keyboard` object that was destroyed.
    pub fn destroyed(keyboard: &ObjectId, data: &mut KeyboardUserData)
        ensures
            final(data)@ == match old(data)@ {
                Some(handle) => Some(
                    KeyboardView {
                        known_kbds: handle.known_kbds.filter(other_than(*keyboard)),
                        ..handle
                    },
                ),
                None => None,
            },
    {
        if let Some(handle) = &mut data.handle {
            handle.forget(keyboard);
        }
    }
}

impl KeyboardHandle {
    /// Forget a `wl_keyboard` object.
    fn forget(&mut self, keyboard: &ObjectId)
        ensures
            final(self)@ == (KeyboardView {
                known_kbds: old(self)@.known_kbds.filter(other_than(*keyboard)),
                ..old(self)@
            }),
    {
        let ghost pred = other_than(*keyboard);
        let ghost known = self.known_kbds@;
        let mut kept: Vec<ObjectId> = Vec::new();
        let mut i: usize = 0;
        proof {
            reveal(Seq::filter);
            assert(known.take(0).filter(pred) =~= seq![]);
        }
        while i < self.known_kbds.len()
            invariant
                i <= self.known_kbds.len(),
                known == self.known_kbds@,
                pred == other_than(*keyboard),
                kept@ == known.take(i as int).filter(pred),
            decreases self.known_kbds.len() - i,
        {
            proof {
                lemma_filter_take(known, pred, i as int);
            }
            if self.known_kbds[i] != *keyboard {
                kept.push(self.known_kbds[i]);
            }
            i += 1;
        }
        assert(known.take(i as int) =~= known);
        self.known_kbds = kept;
    }
}

/// A keyboard that was destroyed is told nothing more: it is none of the keyboards of any client.
pub proof fn law_destroyed_keyboard_is_forgotten(
    known: Seq<ObjectId>,
    kbd: ObjectId,
    surface: ObjectId,
    client: ClientId,
    live: &Liveness,
)
    ensures
        !known.filter(other_than(kbd)).filter(keyboard_beside(surface, live)).contains(kbd),
        !known.filter(other_than(kbd)).filter(keyboard_of(client, live)).contains(kbd),
{
    let left = known.filter(other_than(kbd));
    lemma_filter_contains(known, other_than(kbd), kbd);
    lemma_filter_contains(left, keyboard_beside(surface, live), kbd);
    lemma_filter_contains(left, keyboard_of(client, live), kbd);
}

} // verus!
