//! The operations on the text-input state of a seat.
use crate::objects::{Liveness, ObjectId};
use crate::text_input::protocol::TextInputMessage;
use crate::text_input::state::{
    beside, marked, nothing_pending, told_of, Instance, TextInput, TextInputState, TextInputView,
};
use vstd::prelude::*;

verus! {

/// The text-input objects of a seat.
#[derive(Debug)]
pub struct TextInputHandle<Sink> {
    /// The state behind the handle.
    pub inner: TextInput<Sink>,
}

impl<Sink> View for TextInputHandle<Sink> {
    type V = TextInputView<Sink>;

    open spec fn view(&self) -> TextInputView<Sink> {
        self.inner@
    }
}

impl<Sink> TextInputView<Sink> {
    /// The state after one more commit of an object was counted.
    pub open spec fn counted(self, id: ObjectId) -> TextInputView<Sink> {
        match self.position(id) {
            Some(i) => TextInputView {
                instances: self.instances.update(
                    i,
                    Instance {
                        serial: (self.instances[i].serial + 1) as u32,
                        ..self.instances[i]
                    },
                ),
                ..self
            },
            None => self,
        }
    }

    /// One more commit of the object can be counted.
    pub open spec fn can_count(self, id: ObjectId) -> bool {
        self.position(id) matches Some(i) ==> self.instances[i].serial < u32::MAX
    }

    /// The state with one more object, which was told nothing yet.
    pub open spec fn tracking(self, instance: ObjectId) -> TextInputView<Sink> {
        TextInputView {
            instances: self.instances.push(
                Instance { instance, entered: None, serial: 0, pending_state: nothing_pending() },
            ),
            ..self
        }
    }

    /// The state after `enter` was sent: who was told is remembered.
    pub open spec fn after_enter(self, live: &Liveness) -> TextInputView<Sink> {
        match self.live_focus(live) {
            Some(surface) => TextInputView {
                instances: marked(self.instances, beside(surface), Some(surface)),
                ..self
            },
            None => self,
        }
    }

    /// The state after `leave` was sent: no text input is active, and who was told is owed no
    /// `leave` any more.
    pub open spec fn after_leave(self, live: &Liveness) -> TextInputView<Sink> {
        TextInputView {
            active_text_input_id: None,
            instances: match self.live_focus(live) {
                Some(surface) => marked(self.instances, beside(surface), None),
                None => self.instances,
            },
            ..self
        }
    }

    /// `leave` for each object of the client of the focused surface that was told `enter` for it,
    /// and not yet `leave`.
    pub open spec fn owed_messages(self, live: &Liveness) -> Seq<TextInputMessage> {
        match self.live_focus(live) {
            Some(surface) => self.instances.filter(told_of(surface)).map_values(
                |instance: Instance<Seq<char>>|
                    TextInputMessage::Leave { text_input: instance.instance, surface },
            ),
            None => seq![],
        }
    }

    /// The state after each `leave` that was owed was sent: if there was one, no text input is
    /// active.
    pub open spec fn after_owed_leave(self, live: &Liveness) -> TextInputView<Sink> {
        TextInputView {
            active_text_input_id: if self.owed_messages(live).len() > 0 {
                None
            } else {
                self.active_text_input_id
            },
            instances: match self.live_focus(live) {
                Some(surface) => marked(self.instances, told_of(surface), None),
                None => self.instances,
            },
            ..self
        }
    }

    /// `enter` for each object of the client of the focused surface.
    pub open spec fn enter_messages(self, live: &Liveness) -> Seq<TextInputMessage> {
        self.focused(live).map_values(
            |t: (ObjectId, ObjectId, u32)|
                TextInputMessage::Enter { text_input: t.0, surface: t.1 },
        )
    }

    /// `leave` for each object of the client of the focused surface.
    pub open spec fn leave_messages(self, live: &Liveness) -> Seq<TextInputMessage> {
        self.focused(live).map_values(
            |t: (ObjectId, ObjectId, u32)|
                TextInputMessage::Leave { text_input: t.0, surface: t.1 },
        )
    }
}

impl<Sink> Default for TextInputHandle<Sink> {
    /// No objects, no focus and no input method.
    fn default() -> (r: TextInputHandle<Sink>)
        ensures
            r@ == (TextInputView::<Sink> {
                instances: seq![],
                focus: None,
                active_text_input_id: None,
                internal_im: None,
            }),
    {
        TextInputHandle { inner: TextInput::default() }
    }
}

impl<Sink> TextInputHandle<Sink> {
    /// Track a new object.
    pub fn add_instance(&mut self, instance: ObjectId)
        ensures
            final(self)@ == old(self)@.tracking(instance),
    {
        self.inner.instances.push(
            Instance {
                instance,
                entered: None,
                serial: 0,
                pending_state: TextInputState::default(),
            },
        );
        assert(self@.instances =~= old(self)@.tracking(instance).instances);
    }

    /// Count one more commit of an object.
    pub fn increment_serial(&mut self, text_input: &ObjectId)
        requires
            old(self)@.can_count(*text_input),
        ensures
            final(self)@ == old(self)@.counted(*text_input),
    {
        if let Some(i) = self.inner.find(text_input) {
            self.inner.instances[i].serial += 1;
            assert(self@.instances =~= old(self)@.counted(*text_input).instances);
        }
    }

    /// Register an input method that is part of the compositor, or clear it with `None`.
    ///
    /// Without one, and without a Wayland input method, every text-input request is discarded.
    /// Registering one makes the compositor the input method: it starts receiving events, and may
    /// drive the client with [`Self::with_active_text_input`] and [`Self::done`].
    pub fn set_internal_input_method(&mut self, sink: Option<Sink>)
        ensures
            final(self)@ == (TextInputView::<Sink> { internal_im: sink, ..old(self)@ }),
    {
        self.inner.internal_im = sink;
    }

    /// Whether an input method that is part of the compositor is registered.
    pub fn has_internal_input_method(&self) -> (r: bool)
        ensures
            r == (self@.internal_im is Some),
    {
        self.inner.internal_im.is_some()
    }

    /// The sink of the internal input method, handed out so that the caller can feed it without
    /// holding on to this handle.
    pub fn internal_sink(&self) -> (r: Option<&Sink>)
        ensures
            match self@.internal_im {
                Some(sink) => r == Some(&sink),
                None => r is None,
            },
    {
        self.inner.internal_im.as_ref()
    }

    /// The currently focused surface.
    pub fn focus(&self) -> (r: Option<ObjectId>)
        ensures
            r == self@.focus,
    {
        self.inner.focus
    }

    /// Advance the focus for the client to `surface`.
    ///
    /// This doesn't send any `enter` or `leave` events.
    pub fn set_focus(&mut self, surface: Option<ObjectId>)
        ensures
            final(self)@ == (TextInputView::<Sink> { focus: surface, ..old(self)@ }),
    {
        self.inner.focus = surface;
    }

    /// Clear the active text input, and send `leave` on the objects of the client of the focused
    /// surface.
    pub fn leave(&mut self, live: &Liveness) -> (messages: Vec<TextInputMessage>)
        ensures
            final(self)@ == old(self)@.after_leave(live),
            messages@ == old(self)@.leave_messages(live),
    {
        self.inner.active_text_input_id = None;
        let targets = self.inner.with_focused_client_all_text_inputs(live);
        assert(targets@ == old(self)@.focused(live));
        let mut messages: Vec<TextInputMessage> = Vec::new();
        let mut i: usize = 0;
        while i < targets.len()
            invariant
                i <= targets.len(),
                messages.len() == i,
                forall|j: int|
                    0 <= j < i ==> #[trigger] messages@[j] == (TextInputMessage::Leave {
                        text_input: targets@[j].0,
                        surface: targets@[j].1,
                    }),
            decreases targets.len() - i,
        {
            messages.push(
                TextInputMessage::Leave { text_input: targets[i].0, surface: targets[i].1 },
            );
            i += 1;
        }
        assert(messages@ =~= old(self)@.leave_messages(live));
        if let Some(surface) = self.inner.alive_focus(live) {
            self.inner.mark_beside(surface, None);
        }
        messages
    }

    /// Send `enter` on the objects of the client of the focused surface.
    ///
    /// A client may have several objects; `enter` goes to each of them. Who was told is
    /// remembered until it is told `leave`.
    pub fn enter(&mut self, live: &Liveness) -> (messages: Vec<TextInputMessage>)
        ensures
            final(self)@ == old(self)@.after_enter(live),
            messages@ == old(self)@.enter_messages(live),
    {
        let targets = self.inner.with_focused_client_all_text_inputs(live);
        let mut messages: Vec<TextInputMessage> = Vec::new();
        let mut i: usize = 0;
        while i < targets.len()
            invariant
                i <= targets.len(),
                messages.len() == i,
                forall|j: int|
                    0 <= j < i ==> #[trigger] messages@[j] == (TextInputMessage::Enter {
                        text_input: targets@[j].0,
                        surface: targets@[j].1,
                    }),
            decreases targets.len() - i,
        {
            messages.push(
                TextInputMessage::Enter { text_input: targets[i].0, surface: targets[i].1 },
            );
            i += 1;
        }
        assert(messages@ =~= old(self)@.enter_messages(live));
        if let Some(surface) = self.inner.alive_focus(live) {
            self.inner.mark_beside(surface, Some(surface));
        }
        messages
    }

    /// Send `leave` on the objects of the client of the focused surface that were told `enter` for
    /// it, and on no others. If there is one, clear the active text input.
    ///
    /// This is for when the input method that they were told `enter` for is gone.
    pub fn leave_entered(&mut self, live: &Liveness) -> (messages: Vec<TextInputMessage>)
        ensures
            final(self)@ == old(self)@.after_owed_leave(live),
            messages@ == old(self)@.owed_messages(live),
    {
        let mut messages: Vec<TextInputMessage> = Vec::new();
        let surface = match self.inner.alive_focus(live) {
            Some(surface) => surface,
            None => {
                return messages;
            },
        };
        let told = self.inner.take_told(surface);
        let mut i: usize = 0;
        while i < told.len()
            invariant
                i <= told.len(),
                messages.len() == i,
                forall|j: int|
                    0 <= j < i ==> #[trigger] messages@[j] == (TextInputMessage::Leave {
                        text_input: told@[j],
                        surface,
                    }),
            decreases told.len() - i,
        {
            messages.push(TextInputMessage::Leave { text_input: told[i], surface });
            i += 1;
        }
        assert(messages@ =~= old(self)@.owed_messages(live));
        if messages.len() > 0 {
            self.inner.active_text_input_id = None;
        }
        messages
    }

    /// Send `done` on the active text input.
    ///
    /// `discard_state` is used when the input method signaled that the state should be discarded:
    /// a serial that does not match is sent then.
    pub fn done(&self, discard_state: bool, live: &Liveness) -> (message: Option<TextInputMessage>)
        ensures
            message == match self@.active(live) {
                Some((text_input, _, serial)) => Some(
                    TextInputMessage::Done {
                        text_input,
                        serial: if discard_state {
                            0
                        } else {
                            serial
                        },
                    },
                ),
                None => None,
            },
    {
        match self.inner.with_active_text_input(live) {
            Some((text_input, _, serial)) => {
                if discard_state {
                    Some(TextInputMessage::Done { text_input, serial: 0 })
                } else {
                    Some(TextInputMessage::Done { text_input, serial })
                }
            },
            None => None,
        }
    }

    /// The objects of the client of the focused surface, each with that surface.
    pub fn with_focused_text_input(&self, live: &Liveness) -> (r: Vec<(ObjectId, ObjectId)>)
        ensures
            r@ == self@.focused(live).map_values(|t: (ObjectId, ObjectId, u32)| (t.0, t.1)),
    {
        let targets = self.inner.with_focused_client_all_text_inputs(live);
        let mut r: Vec<(ObjectId, ObjectId)> = Vec::new();
        let mut i: usize = 0;
        while i < targets.len()
            invariant
                i <= targets.len(),
                r.len() == i,
                forall|j: int|
                    0 <= j < i ==> #[trigger] r@[j] == (targets@[j].0, targets@[j].1),
            decreases targets.len() - i,
        {
            r.push((targets[i].0, targets[i].1));
            i += 1;
        }
        assert(r@ =~= self@.focused(live).map_values(|t: (ObjectId, ObjectId, u32)| (t.0, t.1)));
        r
    }

    /// The active text input of the client of the focused surface, with that surface.
    pub fn with_active_text_input(&self, live: &Liveness) -> (r: Option<(ObjectId, ObjectId)>)
        ensures
            r == match self@.active(live) {
                Some((text_input, surface, _)) => Some((text_input, surface)),
                None => None,
            },
    {
        match self.inner.with_active_text_input(live) {
            Some((text_input, surface, _)) => Some((text_input, surface)),
            None => None,
        }
    }

    /// The serial of the active text input, or `default` when there is none.
    pub fn active_text_input_serial_or_default(&self, default: u32, live: &Liveness) -> (r: u32)
        ensures
            r == match self@.active(live) {
                Some((_, _, serial)) => serial,
                None => default,
            },
    {
        match self.inner.with_active_text_input(live) {
            Some((_, _, serial)) => serial,
            None => default,
        }
    }
}

} // verus!
