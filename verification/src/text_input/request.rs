//! What clients ask for through `zwp_text_input_v3` objects.
use crate::objects::ObjectId;
use crate::sequences::{
    is_first, lemma_filter_take, lemma_first_index_exists, lemma_first_index_found,
};
use crate::text_input::handle::TextInputHandle;
use crate::text_input::protocol::{
    effects_view, ChangeCause, ContentHint, ContentPurpose, Effect, InputMethodCall, Rectangle,
    Request, TextInputEvent,
};
use crate::text_input::state::{
    nothing_pending, position_of, Instance, TextInput, TextInputState, TextInputView,
};
use vstd::prelude::*;

verus! {

/// The Wayland input method of a seat.
#[derive(Clone, Copy, Debug, PartialEq, Eq, Structural)]
pub struct InputMethodHandle {
    /// The input-method object that is bound, if there is one.
    pub instance: Option<ObjectId>,
}

impl InputMethodHandle {
    /// Whether an input method is bound.
    pub fn has_instance(&self) -> (r: bool)
        ensures
            r == (self.instance is Some),
    {
        self.instance.is_some()
    }
}

/// What the text-input objects of a seat share.
#[derive(Debug)]
pub struct TextInputUserData<Sink> {
    /// The text-input state of the seat.
    pub handle: TextInputHandle<Sink>,
    /// The Wayland input method of the seat.
    pub input_method_handle: InputMethodHandle,
}

/// What became of a request.
#[derive(Clone, Copy, Debug, PartialEq, Eq, Structural)]
pub enum Disposition {
    /// Discarded: no input method is running.
    NoInputMethod,
    /// Discarded: the client does not have the focus.
    UnfocusedClient,
    /// Discarded: the object is not tracked.
    Untracked,
    /// Discarded with the pending state: another text input is active.
    OtherActive,
    /// Discarded with the pending state: text input was not enabled.
    NotEnabled,
    /// Kept until the next commit.
    Pending,
    /// Applied.
    Committed,
    /// There was nothing to do.
    Nothing,
}

/// An offset as the protocol carries it, read as an unsigned number.
pub open spec fn unsigned_offset(offset: i32) -> u32 {
    if offset >= 0 {
        offset as u32
    } else {
        (offset + 0x1_0000_0000) as u32
    }
}

/// Read an offset as an unsigned number.
fn read_offset(offset: i32) -> (r: u32)
    ensures
        r == unsigned_offset(offset),
{
    let r: u32 = #[verifier::truncate]
    (offset as u32);
    proof {
        assert(offset < 0 ==> (offset as u32) == offset + 0x1_0000_0000) by (bit_vector);
    }
    r
}

/// What is pending after a request was kept.
pub open spec fn with_request(
    pending: TextInputState<Seq<char>>,
    request: Request<Seq<char>>,
) -> TextInputState<Seq<char>> {
    match request {
        Request::Enable => TextInputState { enable: Some(true), ..pending },
        Request::Disable => TextInputState { enable: Some(false), ..pending },
        Request::SetSurroundingText { text, cursor, anchor } => TextInputState {
            surrounding_text: Some((text, unsigned_offset(cursor), unsigned_offset(anchor))),
            ..pending
        },
        Request::SetTextChangeCause { cause } => TextInputState {
            text_change_cause: Some(ChangeCause::of_raw(cause)),
            ..pending
        },
        Request::SetContentType { hint, purpose } => TextInputState {
            content_type: Some((ContentHint::of_raw(hint), ContentPurpose::of_raw(purpose))),
            ..pending
        },
        Request::SetCursorRectangle { x, y, width, height } => TextInputState {
            cursor_rectangle: Some(Rectangle { x, y, width, height }),
            ..pending
        },
        Request::Commit => pending,
        Request::Destroy => pending,
    }
}

/// The event, if there is somebody to hand it to.
pub open spec fn told(notify: bool, event: TextInputEvent<Seq<char>>) -> Seq<Effect<Seq<char>>> {
    if notify {
        seq![Effect::Notify(event)]
    } else {
        seq![]
    }
}

/// The event, if there is somebody to hand it to, and then the call that says the same.
pub open spec fn passed_on(
    notify: bool,
    event: TextInputEvent<Seq<char>>,
    call: InputMethodCall<Seq<char>>,
) -> Seq<Effect<Seq<char>>> {
    told(notify, event).push(Effect::InputMethod(call))
}

/// The surrounding text of a commit, passed on.
pub open spec fn surrounding_text_effects(
    notify: bool,
    state: TextInputState<Seq<char>>,
) -> Seq<Effect<Seq<char>>> {
    match state.surrounding_text {
        Some((text, cursor, anchor)) => passed_on(
            notify,
            TextInputEvent::SurroundingText { text, cursor, anchor },
            InputMethodCall::SurroundingText { text, cursor, anchor },
        ),
        None => seq![],
    }
}

/// The change cause of a commit, passed on.
pub open spec fn change_cause_effects(
    notify: bool,
    state: TextInputState<Seq<char>>,
) -> Seq<Effect<Seq<char>>> {
    match state.text_change_cause {
        Some(cause) => passed_on(
            notify,
            TextInputEvent::TextChangeCause(cause),
            InputMethodCall::TextChangeCause(cause),
        ),
        None => seq![],
    }
}

/// The content type of a commit, passed on.
pub open spec fn content_type_effects(
    notify: bool,
    state: TextInputState<Seq<char>>,
) -> Seq<Effect<Seq<char>>> {
    match state.content_type {
        Some((hint, purpose)) => passed_on(
            notify,
            TextInputEvent::ContentType { hint, purpose },
            InputMethodCall::ContentType { hint, purpose },
        ),
        None => seq![],
    }
}

/// The cursor rectangle of a commit, passed on.
pub open spec fn cursor_rectangle_effects(
    notify: bool,
    state: TextInputState<Seq<char>>,
) -> Seq<Effect<Seq<char>>> {
    match state.cursor_rectangle {
        Some(rect) => passed_on(
            notify,
            TextInputEvent::CursorRectangle(rect),
            InputMethodCall::SetTextInputRectangle(rect),
        ),
        None => seq![],
    }
}

/// Everything that a commit sets, passed on, with the end of the batch behind it.
pub open spec fn batch_effects(
    notify: bool,
    state: TextInputState<Seq<char>>,
) -> Seq<Effect<Seq<char>>> {
    surrounding_text_effects(notify, state) + change_cause_effects(notify, state)
        + content_type_effects(notify, state) + cursor_rectangle_effects(notify, state) + passed_on(
        notify,
        TextInputEvent::Done,
        InputMethodCall::Done,
    )
}

/// What an applied commit leads to, with the text-input focus on `surface`.
pub open spec fn commit_effects(
    notify: bool,
    surface: ObjectId,
    state: TextInputState<Seq<char>>,
) -> Seq<Effect<Seq<char>>> {
    match state.enable {
        Some(true) => seq![Effect::InputMethod(InputMethodCall::Activate { surface })] + told(
            notify,
            TextInputEvent::Enabled,
        ) + batch_effects(notify, state),
        Some(false) => seq![Effect::InputMethod(InputMethodCall::Deactivate)] + told(
            notify,
            TextInputEvent::Disabled,
        ) + told(notify, TextInputEvent::Done),
        None => batch_effects(notify, state),
    }
}

impl<Sink> TextInputView<Sink> {
    /// The state that a request meets: a commit is counted before anything else.
    pub open spec fn met_by(
        self,
        resource: ObjectId,
        request: Request<Seq<char>>,
    ) -> TextInputView<Sink> {
        if request is Commit {
            self.counted(resource)
        } else {
            self
        }
    }

    /// The state with other pending state at `i`.
    pub open spec fn with_pending(
        self,
        i: int,
        pending_state: TextInputState<Seq<char>>,
    ) -> TextInputView<Sink> {
        TextInputView {
            instances: self.instances.update(i, Instance { pending_state, ..self.instances[i] }),
            ..self
        }
    }

    /// The surface has the focus, and the object belongs to its client.
    pub open spec fn client_focused(self, resource: ObjectId) -> bool {
        self.focus matches Some(surface) && surface.client == resource.client
    }

    /// What becomes of a request. `input_method` says whether a Wayland input method is bound.
    pub open spec fn disposition(
        self,
        input_method: bool,
        resource: ObjectId,
        request: Request<Seq<char>>,
    ) -> Disposition {
        if !input_method && self.internal_im is None {
            Disposition::NoInputMethod
        } else if !self.client_focused(resource) {
            Disposition::UnfocusedClient
        } else {
            match self.position(resource) {
                None => Disposition::Untracked,
                Some(i) => match request {
                    Request::Destroy => Disposition::Nothing,
                    Request::Commit => if self.active_text_input_id is Some
                        && self.active_text_input_id != Some(resource) {
                        Disposition::OtherActive
                    } else if self.active_text_input_id is None
                        && self.instances[i].pending_state.enable is None {
                        Disposition::NotEnabled
                    } else {
                        Disposition::Committed
                    },
                    _ => Disposition::Pending,
                },
            }
        }
    }

    /// The state after a request.
    pub open spec fn after(
        self,
        input_method: bool,
        resource: ObjectId,
        request: Request<Seq<char>>,
    ) -> TextInputView<Sink> {
        let met = self.met_by(resource, request);
        let i = met.position(resource)->0;
        let pending = met.instances[i].pending_state;
        match self.disposition(input_method, resource, request) {
            Disposition::Pending => met.with_pending(i, with_request(pending, request)),
            Disposition::OtherActive | Disposition::NotEnabled => met.with_pending(
                i,
                nothing_pending(),
            ),
            Disposition::Committed => TextInputView {
                active_text_input_id: match pending.enable {
                    Some(true) => Some(resource),
                    Some(false) => None,
                    None => met.active_text_input_id,
                },
                ..met.with_pending(i, nothing_pending())
            },
            _ => met,
        }
    }

    /// What a request leads to.
    pub open spec fn effects(
        self,
        input_method: bool,
        resource: ObjectId,
        request: Request<Seq<char>>,
    ) -> Seq<Effect<Seq<char>>> {
        if self.disposition(input_method, resource, request) is Committed {
            commit_effects(
                self.internal_im is Some,
                self.focus->0,
                self.instances[self.position(resource)->0].pending_state,
            )
        } else {
            seq![]
        }
    }

    /// The state after an object was destroyed.
    pub open spec fn without(self, id: ObjectId) -> TextInputView<Sink> {
        TextInputView {
            instances: self.instances.filter(
                |instance: Instance<Seq<char>>| instance.instance != id,
            ),
            ..self
        }
    }

    /// Some object of the seat belongs to the client.
    pub open spec fn serves(self, id: ObjectId) -> bool {
        exists|i: int|
            0 <= i < self.instances.len() && (#[trigger] self.instances[i]).instance.client
                == id.client
    }

    /// What the destruction of an object leads to: the input method is deactivated if there is no
    /// focus or the client of the object has it, and that client has no other object.
    pub open spec fn destroyed_effects(self, id: ObjectId) -> Seq<Effect<Seq<char>>> {
        if (self.focus is None || self.client_focused(id)) && !self.without(id).serves(id) {
            seq![Effect::InputMethod(InputMethodCall::Deactivate)]
        } else {
            seq![]
        }
    }
}

/// Counting a commit changes serials only.
pub proof fn lemma_counted<Sink>(state: TextInputView<Sink>, id: ObjectId)
    ensures
        state.counted(id).instances.len() == state.instances.len(),
        forall|i: int|
            0 <= i < state.instances.len() ==> {
                &&& (#[trigger] state.counted(id).instances[i]).instance
                    == state.instances[i].instance
                &&& state.counted(id).instances[i].entered == state.instances[i].entered
                &&& state.counted(id).instances[i].pending_state
                    == state.instances[i].pending_state
            },
        forall|other: ObjectId| #[trigger]
            state.counted(id).position(other) == state.position(other),
{
    let counted = state.counted(id).instances;
    if state.position(id) is Some {
        lemma_position(state.instances, id);
    }
    assert forall|other: ObjectId| #[trigger]
        state.counted(id).position(other) == state.position(other) by {
        lemma_same_objects(state.instances, counted, other);
    }
}

/// An object that is found stands where it is found.
pub proof fn lemma_position(instances: Seq<Instance<Seq<char>>>, id: ObjectId)
    ensures
        match position_of(instances, id) {
            Some(i) => 0 <= i < instances.len() && instances[i].instance == id,
            None => forall|i: int|
                0 <= i < instances.len() ==> (#[trigger] instances[i]).instance != id,
        },
{
    let pred = |instance: Instance<Seq<char>>| instance.instance == id;
    if position_of(instances, id) is None {
        assert forall|i: int| 0 <= i < instances.len() implies (
        #[trigger] instances[i]).instance != id by {
            if instances[i].instance == id {
                lemma_first_index_exists(instances, pred, i);
            }
        }
    }
}

/// Where an object stands depends on the objects only.
pub proof fn lemma_same_objects(
    a: Seq<Instance<Seq<char>>>,
    b: Seq<Instance<Seq<char>>>,
    id: ObjectId,
)
    requires
        a.len() == b.len(),
        forall|i: int| 0 <= i < a.len() ==> (#[trigger] a[i]).instance == b[i].instance,
    ensures
        position_of(a, id) == position_of(b, id),
{
    let pred = |instance: Instance<Seq<char>>| instance.instance == id;
    lemma_position(a, id);
    lemma_position(b, id);
    match position_of(a, id) {
        Some(i) => {
            assert(is_first(a, pred, i));
            assert(is_first(b, pred, i)) by {
                assert(pred(b[i]));
                assert forall|j: int| 0 <= j < i implies !pred(#[trigger] b[j]) by {
                    assert(!pred(a[j]));
                }
            }
            lemma_first_index_found(b, pred, i);
        },
        None => {
            if let Some(i) = position_of(b, id) {
                assert(a[i].instance == id);
            }
        },
    }
}

/// Lists of effects are seen piece by piece.
proof fn lemma_effects_push(effects: Seq<Effect<String>>, effect: Effect<String>)
    ensures
        effects_view(effects.push(effect)) == effects_view(effects).push(effect@),
{
    assert(effects_view(effects.push(effect)) =~= effects_view(effects).push(effect@));
}

/// Hand an event on, if there is somebody to hand it to.
fn notify_internal(effects: &mut Vec<Effect>, notify: bool, event: TextInputEvent)
    ensures
        effects_view(final(effects)@) == effects_view(old(effects)@) + told(notify, event@),
{
    if notify {
        effects.push(Effect::Notify(event));
        proof {
            lemma_effects_push(old(effects)@, Effect::Notify(event));
        }
    }
    assert(effects_view(effects@) =~= effects_view(old(effects)@) + told(notify, event@));
}

/// Call the Wayland input method.
fn call_input_method(effects: &mut Vec<Effect>, call: InputMethodCall)
    ensures
        effects_view(final(effects)@) == effects_view(old(effects)@).push(
            Effect::InputMethod(call@),
        ),
{
    effects.push(Effect::InputMethod(call));
    proof {
        lemma_effects_push(old(effects)@, Effect::InputMethod(call));
    }
}

/// Hand an event on, if there is somebody to hand it to, and then make the call that says the
/// same.
fn pass_on(effects: &mut Vec<Effect>, notify: bool, event: TextInputEvent, call: InputMethodCall)
    ensures
        effects_view(final(effects)@) == effects_view(old(effects)@) + passed_on(
            notify,
            event@,
            call@,
        ),
{
    notify_internal(effects, notify, event);
    call_input_method(effects, call);
    assert(effects_view(effects@) =~= effects_view(old(effects)@) + passed_on(
        notify,
        event@,
        call@,
    ));
}

/// A batch is passed on piece by piece.
proof fn lemma_batch(
    start: Seq<Effect<Seq<char>>>,
    notify: bool,
    state: TextInputState<Seq<char>>,
)
    ensures
        start + batch_effects(notify, state) == start + surrounding_text_effects(notify, state)
            + change_cause_effects(notify, state) + content_type_effects(notify, state)
            + cursor_rectangle_effects(notify, state) + passed_on(
            notify,
            TextInputEvent::Done,
            InputMethodCall::Done,
        ),
{
    let a = surrounding_text_effects(notify, state);
    let b = change_cause_effects(notify, state);
    let c = content_type_effects(notify, state);
    let d = cursor_rectangle_effects(notify, state);
    let e = passed_on(notify, TextInputEvent::Done, InputMethodCall::Done);
    vstd::seq_lib::lemma_concat_associative(start, a, b);
    vstd::seq_lib::lemma_concat_associative(start, a + b, c);
    vstd::seq_lib::lemma_concat_associative(start, a + b + c, d);
    vstd::seq_lib::lemma_concat_associative(start, a + b + c + d, e);
}

/// Pass on everything that a commit sets.
///
/// The internal input method is notified alongside the Wayland one throughout, so the two can
/// never fall out of step.
fn pass_on_batch(effects: &mut Vec<Effect>, notify: bool, state: TextInputState)
    ensures
        effects_view(final(effects)@) == effects_view(old(effects)@) + batch_effects(
            notify,
            state@,
        ),
{
    let ghost start = effects_view(effects@);
    let ghost batch = state@;
    if let Some((text, cursor, anchor)) = state.surrounding_text {
        pass_on(
            effects,
            notify,
            TextInputEvent::SurroundingText { text: text.clone(), cursor, anchor },
            InputMethodCall::SurroundingText { text, cursor, anchor },
        );
    }
    let ghost upto1 = start + surrounding_text_effects(notify, batch);
    assert(effects_view(effects@) == upto1);
    if let Some(cause) = state.text_change_cause {
        pass_on(
            effects,
            notify,
            TextInputEvent::TextChangeCause(cause),
            InputMethodCall::TextChangeCause(cause),
        );
    }
    let ghost upto2 = upto1 + change_cause_effects(notify, batch);
    assert(effects_view(effects@) == upto2);
    if let Some((hint, purpose)) = state.content_type {
        pass_on(
            effects,
            notify,
            TextInputEvent::ContentType { hint, purpose },
            InputMethodCall::ContentType { hint, purpose },
        );
    }
    let ghost upto3 = upto2 + content_type_effects(notify, batch);
    assert(effects_view(effects@) == upto3);
    if let Some(rect) = state.cursor_rectangle {
        pass_on(
            effects,
            notify,
            TextInputEvent::CursorRectangle(rect),
            InputMethodCall::SetTextInputRectangle(rect),
        );
    }
    let ghost upto4 = upto3 + cursor_rectangle_effects(notify, batch);
    assert(effects_view(effects@) == upto4);
    pass_on(effects, notify, TextInputEvent::Done, InputMethodCall::Done);
    proof {
        lemma_batch(start, notify, batch);
    }
}

/// Keep a request until the next commit.
fn keep_request(pending: &mut TextInputState, request: Request)
    ensures
        final(pending)@ == with_request(old(pending)@, request@),
{
    match request {
        Request::Enable => {
            pending.enable = Some(true);
        },
        Request::Disable => {
            pending.enable = Some(false);
        },
        Request::SetSurroundingText { text, cursor, anchor } => {
            pending.surrounding_text = Some((text, read_offset(cursor), read_offset(anchor)));
        },
        Request::SetTextChangeCause { cause } => {
            pending.text_change_cause = Some(ChangeCause::from_raw(cause));
        },
        Request::SetContentType { hint, purpose } => {
            pending.content_type = Some(
                (ContentHint::from_raw(hint), ContentPurpose::from_raw(purpose)),
            );
        },
        Request::SetCursorRectangle { x, y, width, height } => {
            pending.cursor_rectangle = Some(Rectangle { x, y, width, height });
        },
        Request::Commit => {},
        Request::Destroy => {},
    }
}

/// The text-input side of the display.
#[derive(Debug)]
pub struct TextInputManagerState;

impl TextInputManagerState {
    /// Handle a request on a text-input object.
    ///
    /// Returns what became of it, and what is to be done because of it, in order.
    pub fn request<Sink>(
        data: &mut TextInputUserData<Sink>,
        resource: ObjectId,
        request: Request,
    ) -> (r: (Disposition, Vec<Effect>))
        requires
            request is Commit ==> old(data).handle@.can_count(resource),
        ensures
            r.0 == old(data).handle@.disposition(
                old(data).input_method_handle.instance is Some,
                resource,
                request@,
            ),
            effects_view(r.1@) == old(data).handle@.effects(
                old(data).input_method_handle.instance is Some,
                resource,
                request@,
            ),
            final(data).handle@ == old(data).handle@.after(
                old(data).input_method_handle.instance is Some,
                resource,
                request@,
            ),
            final(data).input_method_handle == old(data).input_method_handle,
    {
        let ghost before = data.handle@;
        proof {
            lemma_counted(before, resource);
            lemma_position(before.instances, resource);
        }
        // Always increment the serial to not desync with clients.
        if matches!(request, Request::Commit) {
            data.handle.increment_serial(&resource);
        }
        let ghost met = data.handle@;
        let mut effects: Vec<Effect> = Vec::new();
        assert(effects_view(effects@) =~= seq![]);

        // An internal input method counts as an input method: it is the thing that will turn
        // these requests into preedit and commit strings.
        let notify = data.handle.has_internal_input_method();
        if !data.input_method_handle.has_instance() && !notify {
            return (Disposition::NoInputMethod, effects);
        }
        let focus = match data.handle.focus() {
            Some(focus) => focus,
            None => {
                return (Disposition::UnfocusedClient, effects);
            },
        };
        if !focus.same_client_as(&resource) {
            return (Disposition::UnfocusedClient, effects);
        }
        let i = match data.handle.inner.find(&resource) {
            Some(i) => i,
            None => {
                return (Disposition::Untracked, effects);
            },
        };
        match request {
            Request::Destroy => (Disposition::Nothing, effects),
            Request::Commit => {
                let mut new_state = TextInputState::default();
                std::mem::swap(&mut new_state, &mut data.handle.inner.instances[i].pending_state);
                assert(data.handle@.instances =~= met.with_pending(
                    i as int,
                    nothing_pending(),
                ).instances);
                let active = data.handle.inner.active_text_input_id;
                if active.is_some() && active != Some(resource) {
                    return (Disposition::OtherActive, effects);
                }
                match new_state.enable {
                    Some(true) => {
                        data.handle.inner.active_text_input_id = Some(resource);
                        call_input_method(
                            &mut effects,
                            InputMethodCall::Activate { surface: focus },
                        );
                        notify_internal(&mut effects, notify, TextInputEvent::Enabled);
                    },
                    Some(false) => {
                        data.handle.inner.active_text_input_id = None;
                        call_input_method(&mut effects, InputMethodCall::Deactivate);
                        notify_internal(&mut effects, notify, TextInputEvent::Disabled);
                        // Nothing else of the batch applies, but it ends like any other. For the
                        // Wayland input method the deactivation says as much.
                        notify_internal(&mut effects, notify, TextInputEvent::Done);
                        return (Disposition::Committed, effects);
                    },
                    None => {
                        if active != Some(resource) {
                            return (Disposition::NotEnabled, effects);
                        }
                    },
                }
                pass_on_batch(&mut effects, notify, new_state);
                (Disposition::Committed, effects)
            },
            request => {
                keep_request(&mut data.handle.inner.instances[i].pending_state, request);
                assert(data.handle@.instances =~= met.with_pending(
                    i as int,
                    with_request(met.instances[i as int].pending_state, request@),
                ).instances);
                (Disposition::Pending, effects)
            },
        }
    }

    /// Forget a text-input object that was destroyed.
    ///
    /// Deactivates the input method when either the focus is lost entirely or the last text-input
    /// object of the focused client is gone.
    pub fn destroyed<Sink>(data: &mut TextInputUserData<Sink>, text_input: ObjectId) -> (effects:
        Vec<Effect>)
        ensures
            final(data).handle@ == old(data).handle@.without(text_input),
            final(data).input_method_handle == old(data).input_method_handle,
            effects_view(effects@) == old(data).handle@.destroyed_effects(text_input),
    {
        data.handle.inner.forget(&text_input);
        let destroyed_focused = match data.handle.focus() {
            Some(focus) => focus.same_client_as(&text_input),
            None => true,
        };
        let mut effects: Vec<Effect> = Vec::new();
        assert(effects_view(effects@) =~= seq![]);
        if destroyed_focused && !data.handle.inner.serves_client_of(&text_input) {
            call_input_method(&mut effects, InputMethodCall::Deactivate);
        }
        effects
    }
}

impl<Sink> TextInput<Sink> {
    /// Forget an object.
    fn forget(&mut self, id: &ObjectId)
        ensures
            final(self)@ == old(self)@.without(*id),
    {
        let ghost pred = |instance: Instance<Seq<char>>| instance.instance != *id;
        let ghost all = self@.instances;
        let ghost mut seen: int = 0;
        proof {
            reveal(Seq::filter);
            assert(all.take(0).filter(pred) =~= seq![]);
            assert(all.skip(0) =~= all);
        }
        let mut i: usize = 0;
        while i < self.instances.len()
            invariant
                pred == (|instance: Instance<Seq<char>>| instance.instance != *id),
                0 <= seen <= all.len(),
                i == all.take(seen).filter(pred).len(),
                i <= self.instances.len(),
                self@.instances == all.take(seen).filter(pred) + all.skip(seen),
                self.instances.len() == i + all.len() - seen,
                self.focus == old(self).focus,
                self.active_text_input_id == old(self).active_text_input_id,
                self.internal_im == old(self).internal_im,
            decreases all.len() - seen,
        {
            let ghost kept = all.take(seen).filter(pred);
            let ghost prior = self@.instances;
            proof {
                lemma_filter_take(all, pred, seen);
                assert(self@.instances[i as int] == all[seen]);
            }
            if self.instances[i].instance == *id {
                let _ = self.instances.remove(i);
                assert(self@.instances =~= prior.remove(i as int));
                assert(prior.remove(i as int) =~= kept + all.skip(seen + 1));
            } else {
                i += 1;
                assert(self@.instances =~= kept.push(all[seen]) + all.skip(seen + 1));
            }
            proof {
                seen = seen + 1;
            }
        }
        proof {
            assert(all.take(seen) =~= all);
            assert(self@.instances =~= all.filter(pred));
        }
    }

    /// Whether some object belongs to the client that owns `id`.
    fn serves_client_of(&self, id: &ObjectId) -> (r: bool)
        ensures
            r == self@.serves(*id),
    {
        let mut i: usize = 0;
        while i < self.instances.len()
            invariant
                i <= self.instances.len(),
                forall|j: int|
                    0 <= j < i ==> (#[trigger] self@.instances[j]).instance.client != id.client,
            decreases self.instances.len() - i,
        {
            assert(self@.instances[i as int] == self.instances[i as int]@);
            if self.instances[i].instance.same_client_as(id) {
                return true;
            }
            i += 1;
        }
        false
    }
}

} // verus!
