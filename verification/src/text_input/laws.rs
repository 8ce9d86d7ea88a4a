//! What follows from how requests are handled.
use crate::objects::ObjectId;
use crate::text_input::protocol::{Effect, InputMethodCall, Request, TextInputEvent};
use crate::text_input::request::{
    batch_effects, change_cause_effects, commit_effects, content_type_effects,
    cursor_rectangle_effects, passed_on, surrounding_text_effects, told,
};
use crate::text_input::state::{TextInputState, TextInputView};
use vstd::prelude::*;

verus! {

/// The events among effects, in order.
pub open spec fn events_of(effects: Seq<Effect<Seq<char>>>) -> Seq<TextInputEvent<Seq<char>>>
    decreases effects.len(),
{
    if effects.len() == 0 {
        seq![]
    } else {
        match effects.last() {
            Effect::Notify(event) => events_of(effects.drop_last()).push(event),
            Effect::InputMethod(_) => events_of(effects.drop_last()),
        }
    }
}

/// The calls among effects, in order.
pub open spec fn calls_of(effects: Seq<Effect<Seq<char>>>) -> Seq<InputMethodCall<Seq<char>>>
    decreases effects.len(),
{
    if effects.len() == 0 {
        seq![]
    } else {
        match effects.last() {
            Effect::Notify(_) => calls_of(effects.drop_last()),
            Effect::InputMethod(call) => calls_of(effects.drop_last()).push(call),
        }
    }
}

/// The events that say the same as a call. A deactivation is a batch of its own.
pub open spec fn events_of_call(call: InputMethodCall<Seq<char>>) -> Seq<
    TextInputEvent<Seq<char>>,
> {
    match call {
        InputMethodCall::Activate { .. } => seq![TextInputEvent::Enabled],
        InputMethodCall::Deactivate => seq![TextInputEvent::Disabled, TextInputEvent::Done],
        InputMethodCall::SurroundingText { text, cursor, anchor } => seq![
            TextInputEvent::SurroundingText { text, cursor, anchor },
        ],
        InputMethodCall::TextChangeCause(cause) => seq![TextInputEvent::TextChangeCause(cause)],
        InputMethodCall::ContentType { hint, purpose } => seq![
            TextInputEvent::ContentType { hint, purpose },
        ],
        InputMethodCall::SetTextInputRectangle(rect) => seq![
            TextInputEvent::CursorRectangle(rect),
        ],
        InputMethodCall::Done => seq![TextInputEvent::Done],
    }
}

/// The events that say the same as calls, in order.
pub open spec fn events_of_calls(calls: Seq<InputMethodCall<Seq<char>>>) -> Seq<
    TextInputEvent<Seq<char>>,
>
    decreases calls.len(),
{
    if calls.len() == 0 {
        seq![]
    } else {
        events_of_calls(calls.drop_last()) + events_of_call(calls.last())
    }
}

/// What calls say is put together piece by piece.
proof fn lemma_events_of_calls_concat(
    a: Seq<InputMethodCall<Seq<char>>>,
    b: Seq<InputMethodCall<Seq<char>>>,
)
    ensures
        events_of_calls(a + b) == events_of_calls(a) + events_of_calls(b),
    decreases b.len(),
{
    if b.len() == 0 {
        assert(a + b =~= a);
    } else {
        lemma_events_of_calls_concat(a, b.drop_last());
        assert((a + b).drop_last() =~= a + b.drop_last());
        assert(events_of_calls(a + b) =~= events_of_calls(a) + events_of_calls(b));
    }
}

/// What one call says.
proof fn lemma_events_of_one_call(call: InputMethodCall<Seq<char>>)
    ensures
        events_of_calls(seq![call]) == events_of_call(call),
{
    reveal_with_fuel(events_of_calls, 2);
    assert(seq![call].drop_last() =~= seq![]);
    assert(events_of_calls(seq![call]) =~= events_of_call(call));
}

/// The place of an event within a batch.
pub open spec fn rank(event: TextInputEvent<Seq<char>>) -> int {
    match event {
        TextInputEvent::Enabled => 0,
        TextInputEvent::Disabled => 0,
        TextInputEvent::SurroundingText { .. } => 1,
        TextInputEvent::TextChangeCause(_) => 2,
        TextInputEvent::ContentType { .. } => 3,
        TextInputEvent::CursorRectangle(_) => 4,
        TextInputEvent::Done => 5,
    }
}

/// Events come in the order of their places, no place twice.
pub open spec fn in_order(events: Seq<TextInputEvent<Seq<char>>>) -> bool {
    forall|i: int, j: int|
        0 <= i < j < events.len() ==> rank(#[trigger] events[i]) < rank(#[trigger] events[j])
}

/// Events and calls are taken apart piece by piece.
pub proof fn lemma_parts_concat(a: Seq<Effect<Seq<char>>>, b: Seq<Effect<Seq<char>>>)
    ensures
        events_of(a + b) == events_of(a) + events_of(b),
        calls_of(a + b) == calls_of(a) + calls_of(b),
    decreases b.len(),
{
    if b.len() == 0 {
        assert(a + b =~= a);
    } else {
        lemma_parts_concat(a, b.drop_last());
        assert((a + b).drop_last() =~= a + b.drop_last());
        assert(events_of(a + b) =~= events_of(a) + events_of(b));
        assert(calls_of(a + b) =~= calls_of(a) + calls_of(b));
    }
}

/// The parts of one event.
proof fn lemma_parts_told(notify: bool, event: TextInputEvent<Seq<char>>)
    ensures
        events_of(told(notify, event)) == if notify {
            seq![event]
        } else {
            seq![]
        },
        calls_of(told(notify, event)) == Seq::<InputMethodCall<Seq<char>>>::empty(),
{
    reveal_with_fuel(events_of, 2);
    reveal_with_fuel(calls_of, 2);
    if notify {
        assert(told(notify, event).drop_last() =~= seq![]);
        assert(events_of(told(notify, event)) =~= seq![event]);
    }
}

/// The parts of one call.
pub proof fn lemma_parts_call(call: InputMethodCall<Seq<char>>)
    ensures
        events_of(seq![Effect::InputMethod(call)]) == Seq::<TextInputEvent<Seq<char>>>::empty(),
        calls_of(seq![Effect::InputMethod(call)]) == seq![call],
{
    reveal_with_fuel(events_of, 2);
    reveal_with_fuel(calls_of, 2);
    let one = seq![Effect::InputMethod(call)];
    assert(one.drop_last() =~= seq![]);
    assert(calls_of(one) =~= seq![call]);
}

/// The parts of an event and the call that says the same.
proof fn lemma_parts_passed_on(
    notify: bool,
    event: TextInputEvent<Seq<char>>,
    call: InputMethodCall<Seq<char>>,
)
    ensures
        events_of(passed_on(notify, event, call)) == if notify {
            seq![event]
        } else {
            seq![]
        },
        calls_of(passed_on(notify, event, call)) == seq![call],
{
    assert(passed_on(notify, event, call) =~= told(notify, event) + seq![
        Effect::InputMethod(call),
    ]);
    lemma_parts_concat(told(notify, event), seq![Effect::InputMethod(call)]);
    lemma_parts_told(notify, event);
    lemma_parts_call(call);
    assert(events_of(passed_on(notify, event, call)) =~= events_of(told(notify, event)));
    assert(calls_of(passed_on(notify, event, call)) =~= seq![call]);
}

/// The surrounding text of a batch, as an event.
pub open spec fn surrounding_text_event(state: TextInputState<Seq<char>>) -> Seq<
    TextInputEvent<Seq<char>>,
> {
    match state.surrounding_text {
        Some((text, cursor, anchor)) => seq![
            TextInputEvent::SurroundingText { text, cursor, anchor },
        ],
        None => seq![],
    }
}

/// The change cause of a batch, as an event.
pub open spec fn change_cause_event(state: TextInputState<Seq<char>>) -> Seq<
    TextInputEvent<Seq<char>>,
> {
    match state.text_change_cause {
        Some(cause) => seq![TextInputEvent::TextChangeCause(cause)],
        None => seq![],
    }
}

/// The content type of a batch, as an event.
pub open spec fn content_type_event(state: TextInputState<Seq<char>>) -> Seq<
    TextInputEvent<Seq<char>>,
> {
    match state.content_type {
        Some((hint, purpose)) => seq![TextInputEvent::ContentType { hint, purpose }],
        None => seq![],
    }
}

/// The cursor rectangle of a batch, as an event.
pub open spec fn cursor_rectangle_event(state: TextInputState<Seq<char>>) -> Seq<
    TextInputEvent<Seq<char>>,
> {
    match state.cursor_rectangle {
        Some(rect) => seq![TextInputEvent::CursorRectangle(rect)],
        None => seq![],
    }
}

/// The events of a batch: what was set, and the end.
pub open spec fn batch_events(state: TextInputState<Seq<char>>) -> Seq<
    TextInputEvent<Seq<char>>,
> {
    surrounding_text_event(state) + change_cause_event(state) + content_type_event(state)
        + cursor_rectangle_event(state) + seq![TextInputEvent::Done]
}

/// The effects tell the internal input method `events` if there is one, and the Wayland one the
/// same in any case.
pub open spec fn tells(
    notify: bool,
    effects: Seq<Effect<Seq<char>>>,
    events: Seq<TextInputEvent<Seq<char>>>,
) -> bool {
    &&& events_of_calls(calls_of(effects)) == events
    &&& events_of(effects) == if notify {
        events
    } else {
        seq![]
    }
}

/// No effects tell nothing.
proof fn lemma_tells_nothing(notify: bool)
    ensures
        tells(notify, seq![], seq![]),
{
    assert(events_of_calls(calls_of(seq![])) =~= seq![]);
    assert(events_of(seq![]) =~= seq![]);
}

/// An event and the call that says the same tell one thing.
proof fn lemma_tells_passed_on(
    notify: bool,
    event: TextInputEvent<Seq<char>>,
    call: InputMethodCall<Seq<char>>,
)
    requires
        events_of_call(call) == seq![event],
    ensures
        tells(notify, passed_on(notify, event, call), seq![event]),
{
    lemma_parts_passed_on(notify, event, call);
    lemma_events_of_one_call(call);
}

/// What two lists of effects tell comes one after the other.
proof fn lemma_tells_concat(
    notify: bool,
    a: Seq<Effect<Seq<char>>>,
    b: Seq<Effect<Seq<char>>>,
    x: Seq<TextInputEvent<Seq<char>>>,
    y: Seq<TextInputEvent<Seq<char>>>,
)
    requires
        tells(notify, a, x),
        tells(notify, b, y),
    ensures
        tells(notify, a + b, x + y),
{
    lemma_parts_concat(a, b);
    lemma_events_of_calls_concat(calls_of(a), calls_of(b));
    if !notify {
        assert(events_of(a + b) =~= seq![]);
    }
}

/// A batch tells both input methods its events.
proof fn lemma_tells_batch(notify: bool, state: TextInputState<Seq<char>>)
    ensures
        tells(notify, batch_effects(notify, state), batch_events(state)),
{
    let a = surrounding_text_effects(notify, state);
    let b = change_cause_effects(notify, state);
    let c = content_type_effects(notify, state);
    let d = cursor_rectangle_effects(notify, state);
    let e = passed_on(notify, TextInputEvent::Done, InputMethodCall::Done);
    let v = surrounding_text_event(state);
    let w = change_cause_event(state);
    let x = content_type_event(state);
    let y = cursor_rectangle_event(state);
    let z = seq![TextInputEvent::<Seq<char>>::Done];
    lemma_tells_nothing(notify);
    if let Some((text, cursor, anchor)) = state.surrounding_text {
        lemma_tells_passed_on(
            notify,
            TextInputEvent::SurroundingText { text, cursor, anchor },
            InputMethodCall::SurroundingText { text, cursor, anchor },
        );
    }
    if let Some(cause) = state.text_change_cause {
        lemma_tells_passed_on(
            notify,
            TextInputEvent::TextChangeCause(cause),
            InputMethodCall::TextChangeCause(cause),
        );
    }
    if let Some((hint, purpose)) = state.content_type {
        lemma_tells_passed_on(
            notify,
            TextInputEvent::ContentType { hint, purpose },
            InputMethodCall::ContentType { hint, purpose },
        );
    }
    if let Some(rect) = state.cursor_rectangle {
        lemma_tells_passed_on(
            notify,
            TextInputEvent::CursorRectangle(rect),
            InputMethodCall::SetTextInputRectangle(rect),
        );
    }
    lemma_tells_passed_on(notify, TextInputEvent::Done, InputMethodCall::Done);
    lemma_tells_concat(notify, a, b, v, w);
    lemma_tells_concat(notify, a + b, c, v + w, x);
    lemma_tells_concat(notify, a + b + c, d, v + w + x, y);
    lemma_tells_concat(notify, a + b + c + d, e, v + w + x + y, z);
}

/// The events of a commit.
pub open spec fn commit_events(state: TextInputState<Seq<char>>) -> Seq<
    TextInputEvent<Seq<char>>,
> {
    match state.enable {
        Some(true) => seq![TextInputEvent::Enabled] + batch_events(state),
        Some(false) => seq![TextInputEvent::Disabled, TextInputEvent::Done],
        None => batch_events(state),
    }
}

/// A commit tells both input methods its events.
pub proof fn lemma_tells_commit(
    notify: bool,
    surface: ObjectId,
    state: TextInputState<Seq<char>>,
)
    ensures
        tells(notify, commit_effects(notify, surface, state), commit_events(state)),
{
    lemma_tells_batch(notify, state);
    let on = seq![Effect::InputMethod(InputMethodCall::<Seq<char>>::Activate { surface })];
    let off = seq![Effect::InputMethod(InputMethodCall::<Seq<char>>::Deactivate)];
    lemma_parts_call(InputMethodCall::Activate { surface });
    lemma_parts_call(InputMethodCall::Deactivate);
    lemma_parts_told(notify, TextInputEvent::Enabled);
    lemma_parts_told(notify, TextInputEvent::Disabled);
    lemma_parts_concat(on, told(notify, TextInputEvent::Enabled));
    lemma_parts_concat(off, told(notify, TextInputEvent::Disabled));
    lemma_parts_told(notify, TextInputEvent::Done);
    lemma_events_of_one_call(InputMethodCall::Activate { surface });
    lemma_events_of_one_call(InputMethodCall::Deactivate);
    let enabled = on + told(notify, TextInputEvent::Enabled);
    let disabled = off + told(notify, TextInputEvent::Disabled);
    let done = told(notify, TextInputEvent::Done);
    lemma_parts_concat(disabled, done);
    assert(calls_of(enabled) =~= seq![InputMethodCall::Activate { surface }]);
    assert(calls_of(disabled + done) =~= seq![InputMethodCall::Deactivate]);
    assert(events_of(enabled) =~= events_of(told(notify, TextInputEvent::Enabled)));
    assert(events_of(disabled + done) =~= if notify {
        seq![TextInputEvent::Disabled, TextInputEvent::Done]
    } else {
        seq![]
    });
    lemma_tells_concat(
        notify,
        enabled,
        batch_effects(notify, state),
        seq![TextInputEvent::Enabled],
        batch_events(state),
    );
}

/// The two input methods cannot drift: whatever a request leads to, the events for the internal
/// input method are, if it is registered, exactly what the Wayland one is told, in the same
/// order, and there are none if it is not.
pub proof fn law_input_methods_cannot_drift<Sink>(
    state: TextInputView<Sink>,
    input_method: bool,
    resource: ObjectId,
    request: Request<Seq<char>>,
)
    ensures
        events_of(state.effects(input_method, resource, request)) == if state.internal_im is Some {
            events_of_calls(calls_of(state.effects(input_method, resource, request)))
        } else {
            seq![]
        },
{
    let notify = state.internal_im is Some;
    lemma_tells_nothing(notify);
    lemma_tells_commit(
        notify,
        state.focus->0,
        state.instances[state.position(resource)->0].pending_state,
    );
}

/// Events arrive in the order in which the commit applied them, each at most once, followed by
/// `Done`; a commit that disables text input tells nothing else before it.
pub proof fn law_events_in_order_then_done<Sink>(
    state: TextInputView<Sink>,
    input_method: bool,
    resource: ObjectId,
)
    requires
        state.internal_im is Some,
        state.disposition(input_method, resource, Request::Commit) is Committed,
    ensures
        ({
            let events = events_of(state.effects(input_method, resource, Request::Commit));
            let pending = state.instances[state.position(resource)->0].pending_state;
            &&& events == commit_events(pending)
            &&& in_order(events)
            &&& events.len() > 0
            &&& events.last() == TextInputEvent::<Seq<char>>::Done
            &&& pending.enable == Some(false) ==> events == seq![
                TextInputEvent::<Seq<char>>::Disabled,
                TextInputEvent::Done,
            ]
        }),
{
    let pending = state.instances[state.position(resource)->0].pending_state;
    lemma_tells_commit(true, state.focus->0, pending);
    lemma_batch_in_order(pending);
}

/// The events of a commit stand in order.
proof fn lemma_batch_in_order(state: TextInputState<Seq<char>>)
    ensures
        in_order(commit_events(state)),
{
    let v = surrounding_text_event(state);
    let w = change_cause_event(state);
    let x = content_type_event(state);
    let y = cursor_rectangle_event(state);
    let z = seq![TextInputEvent::<Seq<char>>::Done];
    lemma_in_order_concat(v, w, 2);
    lemma_in_order_concat(v + w, x, 3);
    lemma_in_order_concat(v + w + x, y, 4);
    lemma_in_order_concat(v + w + x + y, z, 5);
    lemma_in_order_concat(seq![TextInputEvent::Enabled], batch_events(state), 1);
}

/// Events stay in order if all of the first come before all of the second.
proof fn lemma_in_order_concat(
    a: Seq<TextInputEvent<Seq<char>>>,
    b: Seq<TextInputEvent<Seq<char>>>,
    bound: int,
)
    requires
        in_order(a),
        in_order(b),
        forall|i: int| 0 <= i < a.len() ==> rank(#[trigger] a[i]) < bound,
        forall|i: int| 0 <= i < b.len() ==> bound <= rank(#[trigger] b[i]),
    ensures
        in_order(a + b),
{
}

} // verus!
