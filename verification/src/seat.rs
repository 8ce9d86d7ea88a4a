//! A seat: what happens when a surface gets or loses its keyboard focus, and while it has it.
use crate::hook_laws::{
    after_steps, all_can_come, hooks_due, last_change, law_each_seat_has_its_hook, own_hooks,
    FocusChange, FocusStep,
};
use crate::hooks::{
    entries_with, entries_without, named_otherwise, DestructionHook, SurfaceData, SurfaceView,
};
use crate::keyboard::{
    keyboard_beside, keyboard_of, modifiers_message, KeyboardEvent, KeyboardHandle,
    KeyboardMessage, KeyboardUserData, KeyboardView, ModifiersState,
};
use crate::keys::{
    all_evdev, keys_bytes, native_byte_order, native_order, serialize_pressed_keys_in, wl_state_of,
    ByteOrder, KeyState, Keycode, WlKeyState,
};
use crate::objects::{HookId, Liveness, ObjectId, SeatId, Serial};
use crate::sequences::{lemma_filter_contains, lemma_filter_push};
use crate::text_input::histories::{
    all_quiet, entered_at, law_owed_leave_was_told, lemma_beside_is_focused,
    lemma_focused_is_beside, lemma_marking_keeps_focused, lemma_owed_is_remembered,
    lemma_remembered_is_owed, lemma_remembered_is_tracked, lemma_remembered_over,
    lemma_told_is_remembered, remembers, run, survives, told_during, History, Step, World,
};
use crate::text_input::protocol::TextInputMessage;
use crate::text_input::request::TextInputUserData;
use crate::text_input::state::TextInputView;
use vstd::prelude::*;

verus! {

/// A seat.
///
/// `Sink` is whatever the compositor hands text-input events to when it acts as the input method
/// itself.
#[derive(Debug)]
pub struct Seat<Sink> {
    /// The seat.
    pub id: SeatId,
    /// The keyboard of the seat, shared with its `wl_keyboard` objects.
    pub keyboard: KeyboardUserData,
    /// The text input of the seat, shared with its text-input objects.
    pub text_input: TextInputUserData<Sink>,
}

/// A seat, as contracts speak of it.
#[verifier::ext_equal]
pub struct SeatView<Sink> {
    /// The seat.
    pub id: SeatId,
    /// The keyboard of the seat, if it has one.
    pub keyboard: Option<KeyboardView>,
    /// The text-input state of the seat.
    pub text_input: TextInputView<Sink>,
    /// The Wayland input method of the seat, if one is bound.
    pub input_method: Option<ObjectId>,
}

impl<Sink> View for Seat<Sink> {
    type V = SeatView<Sink>;

    open spec fn view(&self) -> SeatView<Sink> {
        SeatView {
            id: self.id,
            keyboard: self.keyboard@,
            text_input: self.text_input.handle@,
            input_method: self.text_input.input_method_handle.instance,
        }
    }
}

/// Something that is to be done because the focus moved.
///
/// `Keys` is the wire form of pressed keys: `Vec<u8>` in the program, `Seq<u8>` in contracts.
#[derive(Clone, Debug, PartialEq)]
pub enum SeatAction<Keys = Vec<u8>> {
    /// Send a message to a `wl_keyboard` object.
    Keyboard(KeyboardEvent<Keys>),
    /// Deactivate the Wayland input method.
    DeactivateInputMethod,
    /// Send a message to a text-input object.
    TextInput(TextInputMessage),
}

impl View for SeatAction<Vec<u8>> {
    type V = SeatAction<Seq<u8>>;

    open spec fn view(&self) -> SeatAction<Seq<u8>> {
        match *self {
            SeatAction::Keyboard(event) => SeatAction::Keyboard(event@),
            SeatAction::DeactivateInputMethod => SeatAction::DeactivateInputMethod,
            SeatAction::TextInput(message) => SeatAction::TextInput(message),
        }
    }
}

/// A list of actions, with the keys in them as sequences of bytes.
pub open spec fn actions_view(actions: Seq<SeatAction<Vec<u8>>>) -> Seq<SeatAction<Seq<u8>>> {
    actions.map_values(|action: SeatAction<Vec<u8>>| action@)
}

/// A list of events, with the keys in them as sequences of bytes.
pub open spec fn events_view(events: Seq<KeyboardEvent<Vec<u8>>>) -> Seq<KeyboardEvent<Seq<u8>>> {
    events.map_values(|event: KeyboardEvent<Vec<u8>>| event@)
}

/// One message to each of several keyboards.
pub open spec fn to_each(kbds: Seq<ObjectId>, message: KeyboardMessage<Seq<u8>>) -> Seq<
    KeyboardEvent<Seq<u8>>,
> {
    kbds.map_values(|keyboard: ObjectId| KeyboardEvent { keyboard, message })
}

/// Events as actions.
pub open spec fn keyboard_actions(events: Seq<KeyboardEvent<Seq<u8>>>) -> Seq<
    SeatAction<Seq<u8>>,
> {
    events.map_values(|event: KeyboardEvent<Seq<u8>>| SeatAction::Keyboard(event))
}

/// Messages as actions.
pub open spec fn text_input_actions(messages: Seq<TextInputMessage>) -> Seq<SeatAction<Seq<u8>>> {
    messages.map_values(|message: TextInputMessage| SeatAction::TextInput(message))
}

impl<Sink> SeatView<Sink> {
    /// The keyboards of the client that owns a surface.
    pub open spec fn focused_kbds(self, surface: ObjectId, live: &Liveness) -> Seq<ObjectId> {
        match self.keyboard {
            Some(keyboard) => keyboard.known_kbds.filter(keyboard_beside(surface, live)),
            None => seq![],
        }
    }

    /// There is an input method: a Wayland one, or the compositor acting as one.
    pub open spec fn has_ime(self) -> bool {
        self.input_method is Some || self.text_input.internal_im is Some
    }

    /// The seat with another `last_enter` on its keyboard.
    pub open spec fn with_last_enter(self, last_enter: Option<Serial>) -> Option<KeyboardView> {
        match self.keyboard {
            Some(keyboard) => Some(KeyboardView { last_enter, ..keyboard }),
            None => None,
        }
    }

    /// The text-input state with the focus on a surface, before anybody is told.
    pub open spec fn focused_on(self, surface: ObjectId) -> TextInputView<Sink> {
        TextInputView { focus: Some(surface), ..self.text_input }
    }

    /// The seat after it gave its focus to a surface.
    pub open spec fn entered(self, surface: ObjectId, serial: Serial, live: &Liveness) -> SeatView<
        Sink,
    > {
        SeatView {
            keyboard: self.with_last_enter(Some(serial)),
            text_input: if self.has_ime() {
                self.focused_on(surface).after_enter(live)
            } else {
                self.focused_on(surface)
            },
            ..self
        }
    }

    /// The seat after it took its focus away.
    pub open spec fn left(self, live: &Liveness) -> SeatView<Sink> {
        let text_input = if self.has_ime() {
            self.text_input.after_leave(live)
        } else {
            self.text_input.after_owed_leave(live)
        };
        SeatView {
            keyboard: self.with_last_enter(None),
            text_input: TextInputView { focus: None, ..text_input },
            ..self
        }
    }

    /// The Wayland input method, if one is bound, is deactivated.
    pub open spec fn deactivation(self) -> Seq<SeatAction<Seq<u8>>> {
        if self.input_method is Some {
            seq![SeatAction::DeactivateInputMethod]
        } else {
            seq![]
        }
    }

    /// What is done when a surface gets the focus: the keyboards of its client are told `enter`,
    /// the input method is deactivated, and if there is one at all, the text-input objects of the
    /// client are told `enter`.
    pub open spec fn enter_actions(
        self,
        surface: ObjectId,
        keys: Seq<u8>,
        serial: Serial,
        live: &Liveness,
    ) -> Seq<SeatAction<Seq<u8>>> {
        keyboard_actions(
            to_each(
                self.focused_kbds(surface, live),
                KeyboardMessage::Enter { serial, surface, keys },
            ),
        ) + self.deactivation() + if self.has_ime() {
            text_input_actions(self.focused_on(surface).enter_messages(live))
        } else {
            seq![]
        }
    }

    /// What is done when a surface loses the focus: the keyboards of its client are told `leave`,
    /// the input method is deactivated, and if there is one at all, the text-input objects of the
    /// client with the text-input focus are told `leave`. Without one, only those are that were told
    /// `enter` while there was one.
    pub open spec fn leave_actions(
        self,
        surface: ObjectId,
        serial: Serial,
        live: &Liveness,
    ) -> Seq<SeatAction<Seq<u8>>> {
        keyboard_actions(
            to_each(
                self.focused_kbds(surface, live),
                KeyboardMessage::Leave { serial, surface },
            ),
        ) + self.deactivation() + if self.has_ime() {
            text_input_actions(self.text_input.leave_messages(live))
        } else {
            text_input_actions(self.text_input.owed_messages(live))
        }
    }
}

impl<Sink> Seat<Sink> {
    /// The keyboard of the seat, if it has one.
    pub fn get_keyboard(&self) -> (r: Option<&KeyboardHandle>)
        ensures
            match self.keyboard.handle {
                Some(handle) => r == Some(&handle),
                None => r is None,
            },
    {
        self.keyboard.handle.as_ref()
    }

    /// Remember the serial of the last `enter`.
    fn set_last_enter(&mut self, last_enter: Option<Serial>)
        ensures
            final(self)@ == (SeatView::<Sink> {
                keyboard: old(self)@.with_last_enter(last_enter),
                ..old(self)@
            }),
    {
        if let Some(keyboard) = &mut self.keyboard.handle {
            keyboard.last_enter = last_enter;
        }
    }

    /// Whether there is an input method: a Wayland one, or the compositor acting as one.
    fn any_input_method(&self) -> (r: bool)
        ensures
            r == self@.has_ime(),
    {
        self.text_input.input_method_handle.has_instance()
            || self.text_input.handle.has_internal_input_method()
    }
}

/// The keyboards of the client that owns a surface.
///
/// None if the seat has no keyboard.
pub fn for_each_focused_kbds<Sink>(seat: &Seat<Sink>, surface: &ObjectId, live: &Liveness) -> (r:
    Vec<ObjectId>)
    ensures
        r@ == seat@.focused_kbds(*surface, live),
{
    match seat.get_keyboard() {
        Some(keyboard) => keyboard.focused_kbds(surface, live),
        None => Vec::new(),
    }
}

/// Copy a message.
fn copy_message(message: &KeyboardMessage) -> (copy: KeyboardMessage)
    ensures
        copy@ == message@,
{
    match message {
        KeyboardMessage::RepeatInfo { rate, delay } => KeyboardMessage::RepeatInfo {
            rate: *rate,
            delay: *delay,
        },
        KeyboardMessage::Enter { serial, surface, keys } => {
            let copied = keys.clone();
            assert(copied@ =~= keys@);
            KeyboardMessage::Enter { serial: *serial, surface: *surface, keys: copied }
        },
        KeyboardMessage::Leave { serial, surface } => KeyboardMessage::Leave {
            serial: *serial,
            surface: *surface,
        },
        KeyboardMessage::Key { serial, time, key, state } => KeyboardMessage::Key {
            serial: *serial,
            time: *time,
            key: *key,
            state: *state,
        },
        KeyboardMessage::Modifiers { serial, depressed, latched, locked, group } =>
            KeyboardMessage::Modifiers {
                serial: *serial,
                depressed: *depressed,
                latched: *latched,
                locked: *locked,
                group: *group,
            },
    }
}

/// One message for each of several keyboards.
fn tell_each(kbds: &Vec<ObjectId>, message: &KeyboardMessage) -> (events: Vec<KeyboardEvent>)
    ensures
        events_view(events@) == to_each(kbds@, message@),
        events@.len() == kbds@.len(),
        forall|i: int|
            0 <= i < kbds@.len() ==> (#[trigger] events@[i]).keyboard == kbds@[i]
                && events@[i].message@ == message@,
{
    let mut events: Vec<KeyboardEvent> = Vec::new();
    let mut i: usize = 0;
    while i < kbds.len()
        invariant
            i <= kbds.len(),
            events@.len() == i,
            forall|j: int|
                0 <= j < i ==> (#[trigger] events@[j])@ == (KeyboardEvent {
                    keyboard: kbds@[j],
                    message: message@,
                }),
        decreases kbds.len() - i,
    {
        events.push(KeyboardEvent { keyboard: kbds[i], message: copy_message(message) });
        i += 1;
    }
    assert(events_view(events@) =~= to_each(kbds@, message@));
    events
}

/// Append one message for each of several keyboards.
fn push_keyboard_actions(
    actions: &mut Vec<SeatAction>,
    kbds: &Vec<ObjectId>,
    message: &KeyboardMessage,
)
    ensures
        actions_view(final(actions)@) == actions_view(old(actions)@) + keyboard_actions(
            to_each(kbds@, message@),
        ),
{
    let ghost all = keyboard_actions(to_each(kbds@, message@));
    let mut i: usize = 0;
    assert(actions_view(actions@) =~= actions_view(old(actions)@) + all.take(0));
    while i < kbds.len()
        invariant
            i <= kbds.len(),
            all == keyboard_actions(to_each(kbds@, message@)),
            actions_view(actions@) == actions_view(old(actions)@) + all.take(i as int),
        decreases kbds.len() - i,
    {
        let ghost before = actions@;
        let action = SeatAction::Keyboard(KeyboardEvent { keyboard: kbds[i], message: copy_message(message) });
        actions.push(action);
        proof {
            assert(action@ == all[i as int]);
            assert(actions_view(actions@) =~= actions_view(before).push(action@));
            assert(actions_view(actions@) =~= actions_view(old(actions)@) + all.take(i + 1));
        }
        i += 1;
    }
    assert(all.take(i as int) =~= all);
}

/// Append messages to text-input objects.
fn push_text_input_actions(actions: &mut Vec<SeatAction>, messages: &Vec<TextInputMessage>)
    ensures
        actions_view(final(actions)@) == actions_view(old(actions)@) + text_input_actions(
            messages@,
        ),
{
    let ghost all = text_input_actions(messages@);
    let mut i: usize = 0;
    assert(actions_view(actions@) =~= actions_view(old(actions)@) + all.take(0));
    while i < messages.len()
        invariant
            i <= messages.len(),
            all == text_input_actions(messages@),
            actions_view(actions@) == actions_view(old(actions)@) + all.take(i as int),
        decreases messages.len() - i,
    {
        let ghost before = actions@;
        let action = SeatAction::TextInput(messages[i]);
        actions.push(action);
        proof {
            assert(action@ == all[i as int]);
            assert(actions_view(actions@) =~= actions_view(before).push(action@));
            assert(actions_view(actions@) =~= actions_view(old(actions)@) + all.take(i + 1));
        }
        i += 1;
    }
    assert(all.take(i as int) =~= all);
}

/// Append the deactivation of the input method.
fn push_deactivation(actions: &mut Vec<SeatAction>)
    ensures
        actions_view(final(actions)@) == actions_view(old(actions)@).push(
            SeatAction::DeactivateInputMethod,
        ),
{
    actions.push(SeatAction::DeactivateInputMethod);
    assert(actions_view(actions@) =~= actions_view(old(actions)@).push(
        SeatAction::DeactivateInputMethod,
    ));
}

/// Give the keyboard focus of a seat to a surface, with pressed keys in the given byte order.
///
/// `hook_id` names the destruction hook that the surface gets.
pub fn enter_internal_in<Sink>(
    order: ByteOrder,
    surface: &mut SurfaceData,
    seat: &mut Seat<Sink>,
    keys: &[Keycode],
    serial: Serial,
    hook_id: HookId,
    live: &Liveness,
) -> (actions: Vec<SeatAction>)
    requires
        old(seat)@.keyboard is Some,
        old(surface).wf(),
        all_evdev(keys@),
    ensures
        final(surface).wf(),
        final(surface)@ == old(surface)@.entered(old(seat)@.id, serial, hook_id, live),
        final(surface).focus_hooks.listed() == entries_with(
            old(surface).focus_hooks.listed(),
            old(seat)@.id,
            hook_id,
            live,
        ),
        final(seat)@ == old(seat)@.entered(old(surface)@.id, serial, live),
        actions_view(actions@) == old(seat)@.enter_actions(
            old(surface)@.id,
            keys_bytes(order, keys@),
            serial,
            live,
        ),
{
    let ghost before = seat@;
    let id = surface.id;
    let mut actions: Vec<SeatAction> = Vec::new();
    assert(actions_view(actions@) =~= seq![]);
    seat.set_last_enter(Some(serial));
    let serialized_keys = serialize_pressed_keys_in(order, keys);
    let kbds = for_each_focused_kbds(seat, &id, live);
    let message = KeyboardMessage::Enter { serial, surface: id, keys: serialized_keys };
    push_keyboard_actions(&mut actions, &kbds, &message);

    // The hook names the seat and does not hold it: the seat's keyboard holds the focused surface,
    // and a hook that held the seat would close a cycle that nothing breaks when the compositor
    // goes down with the surface still focused.
    surface.install_focus_hook(seat.id, serial, hook_id, live);

    if seat.text_input.input_method_handle.has_instance() {
        push_deactivation(&mut actions);
    }
    let ghost told_keyboards = keyboard_actions(to_each(kbds@, message@));
    assert(actions_view(actions@) =~= told_keyboards + before.deactivation());

    // Always set the focus, whether or not the client has text-input objects: clients bind them
    // lazily.
    seat.text_input.handle.set_focus(Some(id));

    // Only send `enter` once there is an actual input method. Without the `enter` the client will
    // never send `enable`, so an internal input method that did not count here would never be
    // asked to do anything.
    if seat.any_input_method() {
        let messages = seat.text_input.handle.enter(live);
        push_text_input_actions(&mut actions, &messages);
    }
    assert(seat@.text_input == before.entered(id, serial, live).text_input);
    assert(actions_view(actions@) =~= before.enter_actions(
        id,
        keys_bytes(order, keys@),
        serial,
        live,
    ));
    actions
}

/// Give the keyboard focus of a seat to a surface.
///
/// `hook_id` names the destruction hook that the surface gets. All pressed keys stand in one byte
/// order, that of this machine.
pub fn enter_internal<Sink>(
    surface: &mut SurfaceData,
    seat: &mut Seat<Sink>,
    keys: &[Keycode],
    serial: Serial,
    hook_id: HookId,
    live: &Liveness,
) -> (actions: Vec<SeatAction>)
    requires
        old(seat)@.keyboard is Some,
        old(surface).wf(),
        all_evdev(keys@),
    ensures
        final(surface).wf(),
        final(surface)@ == old(surface)@.entered(old(seat)@.id, serial, hook_id, live),
        final(surface).focus_hooks.listed() == entries_with(
            old(surface).focus_hooks.listed(),
            old(seat)@.id,
            hook_id,
            live,
        ),
        final(seat)@ == old(seat)@.entered(old(surface)@.id, serial, live),
        actions_view(actions@) == old(seat)@.enter_actions(
            old(surface)@.id,
            keys_bytes(native_order(), keys@),
            serial,
            live,
        ),
{
    enter_internal_in(native_byte_order(), surface, seat, keys, serial, hook_id, live)
}

impl SurfaceData {
    /// The surface gets the keyboard focus of a seat.
    ///
    /// `hook_id` names the destruction hook that the surface gets. All pressed keys stand in one
    /// byte order, that of this machine.
    pub fn enter<Sink>(
        &mut self,
        seat: &mut Seat<Sink>,
        keys: &[Keycode],
        serial: Serial,
        hook_id: HookId,
        live: &Liveness,
    ) -> (actions: Vec<SeatAction>)
        requires
            old(seat)@.keyboard is Some,
            old(self).wf(),
            all_evdev(keys@),
        ensures
            final(self).wf(),
            final(self)@ == old(self)@.entered(old(seat)@.id, serial, hook_id, live),
            final(self).focus_hooks.listed() == entries_with(
                old(self).focus_hooks.listed(),
                old(seat)@.id,
                hook_id,
                live,
            ),
            final(seat)@ == old(seat)@.entered(old(self)@.id, serial, live),
            actions_view(actions@) == old(seat)@.enter_actions(
                old(self)@.id,
                keys_bytes(native_order(), keys@),
                serial,
                live,
            ),
    {
        enter_internal(self, seat, keys, serial, hook_id, live)
    }

    /// The surface loses the keyboard focus of a seat.
    pub fn leave<Sink>(&mut self, seat: &mut Seat<Sink>, serial: Serial, live: &Liveness) -> (actions:
        Vec<SeatAction>)
        requires
            old(seat)@.keyboard is Some,
            old(self).wf(),
        ensures
            final(self).wf(),
            final(self)@ == old(self)@.left(old(seat)@.id, live),
            final(self).focus_hooks.listed() == entries_without(
                old(self).focus_hooks.listed(),
                old(seat)@.id,
                live,
            ),
            final(seat)@ == old(seat)@.left(live),
            actions_view(actions@) == old(seat)@.leave_actions(old(self)@.id, serial, live),
    {
        let ghost before = seat@;
        let id = self.id;
        let mut actions: Vec<SeatAction> = Vec::new();
        assert(actions_view(actions@) =~= seq![]);
        seat.set_last_enter(None);
        let kbds = for_each_focused_kbds(seat, &id, live);
        let message = KeyboardMessage::Leave { serial, surface: id };
        push_keyboard_actions(&mut actions, &kbds, &message);
        self.remove_focus_hook(&seat.id, live);
        if seat.text_input.input_method_handle.has_instance() {
            push_deactivation(&mut actions);
        }
        let ghost told_keyboards = keyboard_actions(to_each(kbds@, message@));
        assert(actions_view(actions@) =~= told_keyboards + before.deactivation());

        // Mirrors `enter`: whoever was told `enter` must be told `leave`, also if the input method
        // went away in between.
        let messages = if seat.any_input_method() {
            seat.text_input.handle.leave(live)
        } else {
            seat.text_input.handle.leave_entered(live)
        };
        push_text_input_actions(&mut actions, &messages);
        seat.text_input.handle.set_focus(None);
        assert(actions_view(actions@) =~= before.leave_actions(id, serial, live));
        actions
    }

    /// A key changes its state while the surface has the focus.
    pub fn key<Sink>(
        &self,
        seat: &Seat<Sink>,
        key: Keycode,
        state: KeyState,
        serial: Serial,
        time: u32,
        live: &Liveness,
    ) -> (events: Vec<KeyboardEvent>)
        requires
            seat@.focused_kbds(self@.id, live).len() > 0 ==> key.has_evdev(),
        ensures
            events_view(events@) == to_each(
                seat@.focused_kbds(self@.id, live),
                KeyboardMessage::Key {
                    serial,
                    time,
                    key: key.evdev_code(),
                    state: wl_state_of(state),
                },
            ),
            events@.len() == seat@.focused_kbds(self@.id, live).len(),
            forall|i: int|
                0 <= i < events@.len() ==> {
                    &&& (#[trigger] events@[i]).keyboard == seat@.focused_kbds(self.id, live)[i]
                    &&& events@[i].message matches KeyboardMessage::Key {
                        serial: told_serial,
                        time: told_time,
                        key: told_key,
                        state: told_state,
                    }
                    &&& told_serial == serial
                    &&& told_time == time
                    &&& told_key + 8 == key.0
                    &&& told_state is Pressed <==> state is Pressed
                    &&& told_state is Released <==> state is Released
                },
    {
        let kbds = for_each_focused_kbds(seat, &self.id, live);
        if kbds.len() == 0 {
            let events: Vec<KeyboardEvent> = Vec::new();
            assert(events_view(events@) =~= seq![]);
            return events;
        }
        let message = KeyboardMessage::Key {
            serial,
            time,
            key: key.evdev(),
            state: WlKeyState::from(state),
        };
        let events = tell_each(&kbds, &message);
        assert forall|i: int| 0 <= i < events@.len() implies (#[trigger] events@[i]).message
            == message by {
            assert(events@[i].message@ == message@);
        }
        events
    }

    /// The modifiers change while the surface has the focus.
    pub fn modifiers<Sink>(
        &self,
        seat: &Seat<Sink>,
        modifiers: ModifiersState,
        serial: Serial,
        live: &Liveness,
    ) -> (events: Vec<KeyboardEvent>)
        ensures
            events_view(events@) == to_each(
                seat@.focused_kbds(self@.id, live),
                modifiers_message(serial, modifiers.serialized),
            ),
            events@.len() == seat@.focused_kbds(self@.id, live).len(),
            forall|i: int|
                0 <= i < events@.len() ==> {
                    &&& (#[trigger] events@[i]).keyboard == seat@.focused_kbds(self.id, live)[i]
                    &&& events@[i].message matches KeyboardMessage::Modifiers {
                        serial: told_serial,
                        depressed,
                        latched,
                        locked,
                        group,
                    }
                    &&& told_serial == serial
                    &&& depressed == modifiers.serialized.depressed
                    &&& latched == modifiers.serialized.latched
                    &&& locked == modifiers.serialized.locked
                    &&& group == modifiers.serialized.layout_effective
                },
    {
        let kbds = for_each_focused_kbds(seat, &self.id, live);
        let mods = modifiers.serialized;
        let message = KeyboardMessage::Modifiers {
            serial,
            depressed: mods.depressed,
            latched: mods.latched,
            locked: mods.locked,
            group: mods.layout_effective,
        };
        let events = tell_each(&kbds, &message);
        assert forall|i: int| 0 <= i < events@.len() implies (#[trigger] events@[i]).message
            == message by {
            assert(events@[i].message@ == message@);
        }
        events
    }
}

/// What is done when a focused surface is destroyed: the keyboards of its client, if it is still
/// connected, are told `leave` with the serial of the `enter`. `seat` is the seat that the hook
/// names, if it still exists.
pub open spec fn hook_events<Sink>(
    hook: DestructionHook,
    surface: ObjectId,
    seat: Option<SeatView<Sink>>,
    live: &Liveness,
) -> Seq<KeyboardEvent<Seq<u8>>> {
    match (seat, live.connected_client(surface)) {
        (Some(seat), Some(client)) => to_each(
            seat.keyboard->0.known_kbds.filter(keyboard_of(client, live)),
            KeyboardMessage::Leave { serial: hook.serial, surface },
        ),
        _ => seq![],
    }
}

/// The seat, as contracts speak of it, if it exists.
pub open spec fn seat_view<Sink>(seat: Option<&Seat<Sink>>) -> Option<SeatView<Sink>> {
    match seat {
        Some(seat) => Some(seat@),
        None => None,
    }
}

impl DestructionHook {
    /// Do what is to be done when the surface is destroyed.
    ///
    /// `seat` is the seat that the hook names, if it still exists.
    pub fn run<Sink>(&self, surface: &ObjectId, seat: Option<&Seat<Sink>>, live: &Liveness) -> (events:
        Vec<KeyboardEvent>)
        requires
            seat matches Some(seat) ==> seat@.id == self.seat && (live.connected_client(
                *surface,
            ) is Some ==> seat@.keyboard is Some),
        ensures
            events_view(events@) == hook_events(*self, *surface, seat_view(seat), live),
            forall|i: int|
                0 <= i < events@.len() ==> (#[trigger] events@[i]).message == (
                KeyboardMessage::<Vec<u8>>::Leave { serial: self.serial, surface: *surface }),
    {
        let events: Vec<KeyboardEvent> = Vec::new();
        let seat = match seat {
            Some(seat) => seat,
            None => {
                assert(events_view(events@) =~= seq![]);
                return events;
            },
        };
        let client = match live.client(surface) {
            Some(client) => client,
            None => {
                assert(events_view(events@) =~= seq![]);
                return events;
            },
        };
        let keyboard = seat.get_keyboard().unwrap();
        let kbds = keyboard.client_keyboards(&client, live);
        let message = KeyboardMessage::Leave { serial: self.serial, surface: *surface };
        let events = tell_each(&kbds, &message);
        assert forall|i: int| 0 <= i < events@.len() implies (#[trigger] events@[i]).message
            == message by {
            assert(events@[i].message@ == message@);
        }
        events
    }
}

/// The action that takes back an `enter`.
pub open spec fn counterpart(serial: Serial) -> spec_fn(SeatAction<Seq<u8>>) -> SeatAction<
    Seq<u8>,
> {
    |action: SeatAction<Seq<u8>>|
        match action {
            SeatAction::Keyboard(
                KeyboardEvent { keyboard, message: KeyboardMessage::Enter { surface, .. } },
            ) => SeatAction::Keyboard(
                KeyboardEvent { keyboard, message: KeyboardMessage::Leave { serial, surface } },
            ),
            SeatAction::TextInput(
                TextInputMessage::Enter { text_input, surface },
            ) => SeatAction::TextInput(TextInputMessage::Leave { text_input, surface }),
            other => other,
        }
}

/// Whoever is told `enter` is told `leave`: if nothing changes in between, losing the focus does
/// exactly what getting it did, with `leave` in place of `enter`, to the same objects in the same
/// order. It does more only if there is no input method and some object is owed a `leave` for the
/// surface already.
pub proof fn law_leave_mirrors_enter<Sink>(
    seat: SeatView<Sink>,
    surface: ObjectId,
    keys: Seq<u8>,
    entered: Serial,
    left: Serial,
    live: &Liveness,
)
    requires
        seat.has_ime() || forall|id: ObjectId| !#[trigger] remembers(seat.text_input, id, surface),
    ensures
        seat.entered(surface, entered, live).leave_actions(surface, left, live)
            == seat.enter_actions(surface, keys, entered, live).map_values(counterpart(left)),
{
    let after = seat.entered(surface, entered, live);
    lemma_marking_keeps_focused(
        seat.text_input.instances,
        after.text_input.instances,
        surface,
    );
    assert(after.text_input.focused(live) == seat.focused_on(surface).focused(live));
    if !seat.has_ime() && after.text_input.owed_messages(live).len() > 0 {
        lemma_owed_is_remembered(after.text_input, live, 0);
        let id = after.text_input.owed_messages(live)[0]->Leave_text_input;
        assert(remembers(after.text_input, id, surface));
        let i = choose|i: int| entered_at(after.text_input.instances, i, id, surface);
        assert(entered_at(seat.text_input.instances, i, id, surface));
        assert(remembers(seat.text_input, id, surface));
    }
    assert(after.focused_kbds(surface, live) == seat.focused_kbds(surface, live));
    let told = seat.enter_actions(surface, keys, entered, live);
    let taken_back = after.leave_actions(surface, left, live);
    assert(taken_back.len() == told.len());
    assert(taken_back =~= told.map_values(counterpart(left)));
}

/// `enter` to a keyboard.
pub open spec fn enter_to_keyboard(
    keyboard: ObjectId,
    surface: ObjectId,
    keys: Seq<u8>,
    serial: Serial,
) -> SeatAction<Seq<u8>> {
    SeatAction::Keyboard(
        KeyboardEvent { keyboard, message: KeyboardMessage::Enter { serial, surface, keys } },
    )
}

/// `leave` to a keyboard.
pub open spec fn leave_to_keyboard(
    keyboard: ObjectId,
    surface: ObjectId,
    serial: Serial,
) -> SeatAction<Seq<u8>> {
    SeatAction::Keyboard(
        KeyboardEvent { keyboard, message: KeyboardMessage::Leave { serial, surface } },
    )
}

/// `enter` to a text-input object.
pub open spec fn enter_to_text_input(text_input: ObjectId, surface: ObjectId) -> SeatAction<
    Seq<u8>,
> {
    SeatAction::TextInput(TextInputMessage::Enter { text_input, surface })
}

/// `leave` to a text-input object.
pub open spec fn leave_to_text_input(text_input: ObjectId, surface: ObjectId) -> SeatAction<
    Seq<u8>,
> {
    SeatAction::TextInput(TextInputMessage::Leave { text_input, surface })
}

/// Whoever is told `enter` is told `leave`, whatever happens in between: when a surface loses the
/// focus that it was given, each keyboard that was told `enter` and is still there is told `leave`,
/// and while the surface exists, so is each text-input object that was told `enter` and is still
/// tracked, if there is an input method or the object is remembered.
pub proof fn law_whoever_entered_leaves<Sink>(
    at_enter: SeatView<Sink>,
    at_leave: SeatView<Sink>,
    surface: ObjectId,
    keys: Seq<u8>,
    entered: Serial,
    left: Serial,
    back_then: &Liveness,
    now: &Liveness,
)
    requires
        at_enter.keyboard is Some,
        at_leave.keyboard is Some,
        at_leave.text_input.focus == Some(surface),
    ensures
        forall|kbd: ObjectId|
            at_enter.enter_actions(surface, keys, entered, back_then).contains(
                #[trigger] enter_to_keyboard(kbd, surface, keys, entered),
            ) && at_leave.keyboard->0.known_kbds.contains(kbd) && now.object_alive(kbd)
                ==> at_leave.leave_actions(surface, left, now).contains(
                leave_to_keyboard(kbd, surface, left),
            ),
        now.object_alive(surface) ==> forall|text_input: ObjectId|
            at_enter.enter_actions(surface, keys, entered, back_then).contains(
                #[trigger] enter_to_text_input(text_input, surface),
            ) && at_leave.text_input.position(text_input) is Some && (at_leave.has_ime()
                || remembers(at_leave.text_input, text_input, surface)) ==> at_leave.leave_actions(
                surface,
                left,
                now,
            ).contains(leave_to_text_input(text_input, surface)),
{
    let told = at_enter.enter_actions(surface, keys, entered, back_then);
    let taken_back = at_leave.leave_actions(surface, left, now);
    let kbds_then = at_enter.focused_kbds(surface, back_then);
    let kbds_now = at_leave.focused_kbds(surface, now);
    let enter = KeyboardMessage::Enter { serial: entered, surface, keys };
    let leave = KeyboardMessage::<Seq<u8>>::Leave { serial: left, surface };
    let to_kbds_then = keyboard_actions(to_each(kbds_then, enter));
    let to_kbds_now = keyboard_actions(to_each(kbds_now, leave));
    assert forall|kbd: ObjectId|
        told.contains(#[trigger] enter_to_keyboard(kbd, surface, keys, entered))
            && at_leave.keyboard->0.known_kbds.contains(kbd) && now.object_alive(
            kbd,
        ) implies taken_back.contains(leave_to_keyboard(kbd, surface, left)) by {
        let action = enter_to_keyboard(kbd, surface, keys, entered);
        let i = choose|i: int| 0 <= i < told.len() && told[i] == action;
        assert(i < to_kbds_then.len());
        assert(to_kbds_then[i] == action);
        assert(kbds_then[i] == kbd);
        assert(kbds_then.contains(kbd));
        lemma_filter_contains(
            at_enter.keyboard->0.known_kbds,
            keyboard_beside(surface, back_then),
            kbd,
        );
        lemma_filter_contains(
            at_leave.keyboard->0.known_kbds,
            keyboard_beside(surface, now),
            kbd,
        );
        let j = choose|j: int| 0 <= j < kbds_now.len() && kbds_now[j] == kbd;
        assert(to_kbds_now[j] == leave_to_keyboard(kbd, surface, left));
        assert(taken_back[j] == to_kbds_now[j]);
    }
    if now.object_alive(surface) {
        assert forall|text_input: ObjectId|
            told.contains(#[trigger] enter_to_text_input(text_input, surface))
                && at_leave.text_input.position(text_input) is Some && (at_leave.has_ime()
                || remembers(
                at_leave.text_input,
                text_input,
                surface,
            )) implies taken_back.contains(leave_to_text_input(text_input, surface)) by {
            lemma_told_text_input(at_enter, surface, keys, entered, back_then, text_input);
            let j = if at_leave.has_ime() {
                lemma_beside_is_focused(at_leave.text_input, now, text_input)
            } else {
                lemma_remembered_is_owed(at_leave.text_input, now, text_input)
            };
            let before = to_kbds_now.len() + at_leave.deactivation().len();
            assert(taken_back[before + j] == leave_to_text_input(text_input, surface));
        }
    }
}

/// A text-input object that is told `enter` stands among the focused ones.
proof fn lemma_told_text_input<Sink>(
    seat: SeatView<Sink>,
    surface: ObjectId,
    keys: Seq<u8>,
    serial: Serial,
    live: &Liveness,
    text_input: ObjectId,
) -> (k: int)
    requires
        seat.enter_actions(surface, keys, serial, live).contains(
            enter_to_text_input(text_input, surface),
        ),
    ensures
        seat.has_ime(),
        0 <= k < seat.focused_on(surface).focused(live).len(),
        text_input.client == surface.client,
        seat.text_input.position(text_input) is Some,
        remembers(seat.entered(surface, serial, live).text_input, text_input, surface),
{
    let told = seat.enter_actions(surface, keys, serial, live);
    let enter = KeyboardMessage::Enter { serial, surface, keys };
    let to_kbds = keyboard_actions(to_each(seat.focused_kbds(surface, live), enter));
    let i = choose|i: int|
        0 <= i < told.len() && told[i] == enter_to_text_input(text_input, surface);
    let k = i - to_kbds.len() - seat.deactivation().len();
    assert(0 <= k < seat.focused_on(surface).focused(live).len());
    lemma_focused_is_beside(seat.focused_on(surface), live, k);
    lemma_told_is_remembered(seat.focused_on(surface), live, k);
    k
}

/// A `leave` outlives the input method: a text-input object that was told `enter` is told `leave`,
/// whatever clients request in between, whatever other objects come and go, and whatever input
/// methods come and go, as long as nobody is told `enter` or `leave` in between.
pub proof fn law_leave_outlives_the_input_method<Sink>(
    seat: SeatView<Sink>,
    at_leave: SeatView<Sink>,
    surface: ObjectId,
    keys: Seq<u8>,
    entered: Serial,
    left: Serial,
    history: History<Sink>,
    back_then: &Liveness,
    now: &Liveness,
)
    requires
        ({
            let start = World {
                text_input: seat.entered(surface, entered, back_then).text_input,
                input_method: seat.input_method,
            };
            let end = run(start, history);
            &&& all_quiet(history)
            &&& at_leave.text_input == end.text_input
            &&& at_leave.input_method == end.input_method
        }),
        seat.keyboard is Some,
        at_leave.keyboard is Some,
        at_leave.text_input.focus == Some(surface),
        now.object_alive(surface),
    ensures
        forall|text_input: ObjectId|
            seat.enter_actions(surface, keys, entered, back_then).contains(
                #[trigger] enter_to_text_input(text_input, surface),
            ) && survives(history, text_input) ==> at_leave.leave_actions(
                surface,
                left,
                now,
            ).contains(leave_to_text_input(text_input, surface)),
{
    let start = World {
        text_input: seat.entered(surface, entered, back_then).text_input,
        input_method: seat.input_method,
    };
    law_whoever_entered_leaves(seat, at_leave, surface, keys, entered, left, back_then, now);
    assert forall|text_input: ObjectId|
        seat.enter_actions(surface, keys, entered, back_then).contains(
            #[trigger] enter_to_text_input(text_input, surface),
        ) && survives(history, text_input) implies at_leave.leave_actions(
        surface,
        left,
        now,
    ).contains(leave_to_text_input(text_input, surface)) by {
        lemma_told_text_input(seat, surface, keys, entered, back_then, text_input);
        lemma_remembered_over(start, history, text_input, surface);
        lemma_remembered_is_tracked(at_leave.text_input, text_input, surface);
    }
}

/// Without an input method, whoever is told `leave` was told `enter`: after any history from a
/// state in which nobody was told anything, a text-input object that is told `leave` for a surface
/// was told `enter` for that surface in some step.
pub proof fn law_whoever_leaves_entered<Sink>(
    start: World<Sink>,
    history: History<Sink>,
    seat: SeatView<Sink>,
    surface: ObjectId,
    left: Serial,
    live: &Liveness,
)
    requires
        forall|id: ObjectId, s: ObjectId| !#[trigger] remembers(start.text_input, id, s),
        seat.text_input == run(start, history).text_input,
        !seat.has_ime(),
    ensures
        forall|text_input: ObjectId, s: ObjectId|
            seat.leave_actions(surface, left, live).contains(
                #[trigger] leave_to_text_input(text_input, s),
            ) ==> told_during(start, history, text_input, s),
{
    let actions = seat.leave_actions(surface, left, live);
    let leave = KeyboardMessage::<Seq<u8>>::Leave { serial: left, surface };
    let to_kbds = keyboard_actions(to_each(seat.focused_kbds(surface, live), leave));
    assert forall|text_input: ObjectId, s: ObjectId|
        actions.contains(#[trigger] leave_to_text_input(text_input, s)) implies told_during(
        start,
        history,
        text_input,
        s,
    ) by {
        let i = choose|i: int|
            0 <= i < actions.len() && actions[i] == leave_to_text_input(text_input, s);
        let k = i - to_kbds.len();
        assert(0 <= k < seat.text_input.owed_messages(live).len());
        lemma_owed_is_remembered(seat.text_input, live, k);
        law_owed_leave_was_told(start, history, text_input, s);
    }
}

/// Giving and taking the keyboard focus are steps of the text-input history of a seat, so that what
/// holds of all histories holds over them.
pub proof fn law_focus_moves_are_steps<Sink>(
    seat: SeatView<Sink>,
    surface: ObjectId,
    serial: Serial,
    live: &Liveness,
)
    ensures
        ({
            let world = World { text_input: seat.text_input, input_method: seat.input_method };
            let enter = seq![Step::Focus(Some(surface))] + if seat.has_ime() {
                seq![Step::Enter(*live)]
            } else {
                seq![]
            };
            let leave = seq![
                if seat.has_ime() {
                    Step::Leave(*live)
                } else {
                    Step::OwedLeave(*live)
                },
                Step::Focus(None),
            ];
            &&& seat.entered(surface, serial, live).text_input == run(world, enter).text_input
            &&& seat.left(live).text_input == run(world, leave).text_input
        }),
{
    let focus = Step::<Sink>::Focus(Some(surface));
    let entering = seq![focus, Step::Enter(*live)];
    let leaving = if seat.has_ime() {
        Step::<Sink>::Leave(*live)
    } else {
        Step::OwedLeave(*live)
    };
    reveal_with_fuel(run, 3);
    assert(seq![focus] + seq![Step::Enter(*live)] =~= entering);
    assert(entering.drop_last() =~= seq![focus]);
    assert(seq![focus] + seq![] =~= seq![focus]);
    assert(seq![focus].drop_last() =~= seq![]);
    assert(seq![leaving, Step::Focus(None)].drop_last() =~= seq![leaving]);
    assert(seq![leaving].drop_last() =~= seq![]);
}

/// Losing the focus forgets who had it: a seat without focus, on which nobody is owed a `leave`, is
/// left by a surface as if the surface had never had its focus.
pub proof fn law_leave_forgets_enter<Sink>(
    seat: SeatView<Sink>,
    surface: ObjectId,
    serial: Serial,
    live: &Liveness,
)
    requires
        seat.text_input.focus is None,
        forall|i: int|
            0 <= i < seat.text_input.instances.len() ==> (
            #[trigger] seat.text_input.instances[i]).entered is None,
    ensures
        seat.entered(surface, serial, live).left(live) == seat.left(live),
{
    let entered = seat.entered(surface, serial, live);
    let twice = entered.left(live);
    let once = seat.left(live);
    if !seat.has_ime() && entered.text_input.owed_messages(live).len() > 0 {
        lemma_owed_is_remembered(entered.text_input, live, 0);
        let id = entered.text_input.owed_messages(live)[0]->Leave_text_input;
        let i = choose|i: int| entered_at(entered.text_input.instances, i, id, surface);
        assert(seat.text_input.instances[i].entered is None);
    }
    assert(twice.text_input.instances =~= once.text_input.instances);
}

/// A focused surface does not keep the seat alive: its hook does nothing once the seat is gone.
pub proof fn law_hook_of_gone_seat_is_inert<Sink>(
    hook: DestructionHook,
    surface: ObjectId,
    live: &Liveness,
)
    ensures
        hook_events::<Sink>(hook, surface, None, live) == Seq::<KeyboardEvent<Seq<u8>>>::empty(),
{
}

/// A surface that is destroyed while it has the focus leaves: the keyboards that were told `enter`
/// are told `leave` with the same serial, provided that its client is still connected.
pub proof fn law_destroyed_surface_leaves<Sink>(
    surface: SurfaceView,
    seat: SeatView<Sink>,
    serial: Serial,
    hook_id: HookId,
    live: &Liveness,
)
    requires
        seat.keyboard is Some,
        live.clients@.contains(surface.id.client),
        live.seat_exists(seat.id),
        surface.is_fresh(hook_id),
    ensures
        surface.entered(seat.id, serial, hook_id, live).destruction_hooks.last() == (
            hook_id,
            DestructionHook { seat: seat.id, serial },
        ),
        hook_events(
            DestructionHook { seat: seat.id, serial },
            surface.id,
            Some(seat.entered(surface.id, serial, live)),
            live,
        ) == to_each(
            seat.focused_kbds(surface.id, live),
            KeyboardMessage::Leave { serial, surface: surface.id },
        ),
{
    let hook = (hook_id, DestructionHook { seat: seat.id, serial });
    let hooks = surface.destruction_hooks;
    if surface.live_hooks(live).dom().contains(seat.id) {
        let replaced = surface.focus_hooks[seat.id];
        lemma_filter_push(hooks, named_otherwise(replaced), hook);
    }
    assert(keyboard_of(surface.id.client, live) =~= keyboard_beside(surface.id, live));
}

/// What is done when a surface is destroyed for several hooks of one seat, oldest first.
pub open spec fn hooks_events<Sink>(
    hooks: Seq<(HookId, DestructionHook)>,
    surface: ObjectId,
    seat: Option<SeatView<Sink>>,
    live: &Liveness,
) -> Seq<KeyboardEvent<Seq<u8>>>
    decreases hooks.len(),
{
    if hooks.len() == 0 {
        seq![]
    } else {
        hooks_events(hooks.drop_last(), surface, seat, live) + hook_events(
            hooks.last().1,
            surface,
            seat,
            live,
        )
    }
}

/// A surface that is destroyed leaves each seat once, whichever seats gave and took their focus
/// before. If the last thing that a seat did was to give its focus to the surface, however often it
/// did so, each keyboard of the client is told `leave` once, with the serial of that last `enter`,
/// provided that the seat still exists and the client is still connected. If it took its focus
/// away, or never gave it, nobody is told anything.
pub proof fn law_destroyed_surface_leaves_once<Sink>(
    surface: SurfaceView,
    start: &Liveness,
    steps: Seq<FocusStep>,
    id: SeatId,
    seat: Option<SeatView<Sink>>,
    live: &Liveness,
)
    requires
        surface.consistent(start),
        all_can_come(surface, start, steps),
        own_hooks(surface, id).len() == 0,
    ensures
        hooks_events(own_hooks(after_steps(surface, steps), id), surface.id, seat, live) == match (
            last_change(steps, id),
            seat,
            live.connected_client(surface.id),
        ) {
            (Some(FocusChange::Enter { serial, .. }), Some(seat), Some(client)) => to_each(
                seat.keyboard->0.known_kbds.filter(keyboard_of(client, live)),
                KeyboardMessage::Leave { serial, surface: surface.id },
            ),
            _ => seq![],
        },
{
    law_each_seat_has_its_hook(surface, start, steps, id);
    let due = hooks_due(surface, steps, id);
    reveal_with_fuel(hooks_events, 2);
    if last_change(steps, id) matches Some(FocusChange::Enter { .. }) {
        assert(due.drop_last() =~= seq![]);
        assert(hooks_events(due, surface.id, seat, live) =~= hook_events(
            due[0].1,
            surface.id,
            seat,
            live,
        ));
    }
}

} // verus!
