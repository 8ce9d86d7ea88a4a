//! What holds of text input over single requests and over whole histories of them.
use crate::objects::{Liveness, ObjectId};
use crate::sequences::{
    first_index, is_first, lemma_filter_contains, lemma_first_index_found,
};
use crate::text_input::laws::{
    events_of, lemma_parts_call, lemma_parts_concat, lemma_tells_commit,
};
use crate::text_input::protocol::{
    Effect, InputMethodCall, Request, TextInputEvent, TextInputMessage,
};
use crate::text_input::request::{
    commit_effects, lemma_counted, lemma_position, lemma_same_objects, with_request,
};
use crate::text_input::state::{
    beside, marked, nothing_pending, position_of, told_of, with_surface, Instance, TextInputState,
    TextInputView,
};
use vstd::prelude::*;

verus! {

/// Without an input method, every request is discarded: nothing happens, and nothing changes but
/// the count of commits.
pub proof fn law_discarded_without_input_method<Sink>(
    state: TextInputView<Sink>,
    resource: ObjectId,
    request: Request<Seq<char>>,
)
    requires
        state.internal_im is None,
    ensures
        state.effects(false, resource, request) == Seq::<Effect<Seq<char>>>::empty(),
        state.after(false, resource, request) == state.met_by(resource, request),
{
}

/// A client that does not have the focus is not heard: nothing happens, and nothing changes but
/// the count of commits.
pub proof fn law_unfocused_client_is_not_heard<Sink>(
    state: TextInputView<Sink>,
    input_method: bool,
    resource: ObjectId,
    request: Request<Seq<char>>,
)
    requires
        !state.client_focused(resource),
    ensures
        state.effects(input_method, resource, request) == Seq::<Effect<Seq<char>>>::empty(),
        state.after(input_method, resource, request) == state.met_by(resource, request),
{
}

/// State is applied by commits alone: any other request leads to nothing, and changes nothing but
/// the pending state of its own object.
pub proof fn law_only_commit_applies<Sink>(
    state: TextInputView<Sink>,
    input_method: bool,
    resource: ObjectId,
    request: Request<Seq<char>>,
)
    requires
        !(request is Commit),
    ensures
        state.effects(input_method, resource, request) == Seq::<Effect<Seq<char>>>::empty(),
        ({
            let after = state.after(input_method, resource, request);
            &&& after.focus == state.focus
            &&& after.active_text_input_id == state.active_text_input_id
            &&& after.internal_im == state.internal_im
            &&& after.instances.len() == state.instances.len()
            &&& forall|i: int|
                0 <= i < state.instances.len() ==> {
                    &&& (#[trigger] after.instances[i]).instance == state.instances[i].instance
                    &&& after.instances[i].entered == state.instances[i].entered
                    &&& after.instances[i].serial == state.instances[i].serial
                    &&& state.instances[i].instance != resource ==> after.instances[i]
                        == state.instances[i]
                }
        }),
{
    lemma_position(state.instances, resource);
}

/// A commit that is looked at takes all of the pending state with it, applied or not.
pub proof fn law_commit_takes_pending<Sink>(
    state: TextInputView<Sink>,
    input_method: bool,
    resource: ObjectId,
)
    requires
        input_method || state.internal_im is Some,
        state.client_focused(resource),
        state.position(resource) is Some,
    ensures
        state.after(input_method, resource, Request::Commit).instances[state.position(
            resource,
        )->0].pending_state == nothing_pending(),
{
    lemma_position(state.instances, resource);
    lemma_counted(state, resource);
}

/// One text input is active at a time: while it is, commits of others lead to nothing and leave
/// it active.
pub proof fn law_one_active_text_input<Sink>(
    state: TextInputView<Sink>,
    input_method: bool,
    resource: ObjectId,
    request: Request<Seq<char>>,
)
    requires
        state.active_text_input_id is Some,
        state.active_text_input_id != Some(resource),
    ensures
        state.effects(input_method, resource, request) == Seq::<Effect<Seq<char>>>::empty(),
        state.after(input_method, resource, request).active_text_input_id
            == state.active_text_input_id,
{
}

/// Leaving the text-input focus is symmetrical to entering it: `leave` goes where `enter` goes.
pub proof fn law_text_input_leave_mirrors_enter<Sink>(state: TextInputView<Sink>, live: &Liveness)
    ensures
        state.leave_messages(live) == state.enter_messages(live).map_values(
            |message: TextInputMessage|
                match message {
                    TextInputMessage::Enter { text_input, surface } => TextInputMessage::Leave {
                        text_input,
                        surface,
                    },
                    other => other,
                },
        ),
{
    assert(state.leave_messages(live) =~= state.enter_messages(live).map_values(
        |message: TextInputMessage|
            match message {
                TextInputMessage::Enter { text_input, surface } => TextInputMessage::Leave {
                    text_input,
                    surface,
                },
                other => other,
            },
    ));
}

/// An object that stands among the focused ones is tracked and belongs to the client of the
/// focused surface.
pub proof fn lemma_focused_is_beside<Sink>(state: TextInputView<Sink>, live: &Liveness, k: int)
    requires
        0 <= k < state.focused(live).len(),
    ensures
        state.focus matches Some(surface) && state.focused(live)[k].0.client == surface.client,
        state.position(state.focused(live)[k].0) is Some,
{
    let surface = state.live_focus(live)->0;
    let pred = beside(surface);
    state.instances.lemma_filter_pred(pred, k);
    let kept = state.instances.filter(pred);
    lemma_filter_contains(state.instances, pred, kept[k]);
    assert(kept.contains(kept[k]));
    lemma_position(state.instances, kept[k].instance);
}

/// An object that is tracked and belongs to the client of the focused surface stands among the
/// focused ones.
pub proof fn lemma_beside_is_focused<Sink>(
    state: TextInputView<Sink>,
    live: &Liveness,
    id: ObjectId,
) -> (k: int)
    requires
        state.position(id) is Some,
        state.live_focus(live) matches Some(surface) && id.client == surface.client,
    ensures
        0 <= k < state.focused(live).len(),
        state.focused(live)[k].0 == id,
        state.focused(live)[k].1 == state.focus->0,
{
    let surface = state.live_focus(live)->0;
    let pred = beside(surface);
    lemma_position(state.instances, id);
    let instance = state.instances[state.position(id)->0];
    lemma_filter_contains(state.instances, pred, instance);
    assert(state.instances.contains(instance));
    let kept = state.instances.filter(pred);
    let k = choose|k: int| 0 <= k < kept.len() && kept[k] == instance;
    assert(kept.contains(instance));
    k
}

/// Something that happens to the text-input state of a seat.
pub enum Step<Sink> {
    /// A client makes a request on an object.
    Request {
        /// The object.
        resource: ObjectId,
        /// The request.
        request: Request<Seq<char>>,
    },
    /// A new object is tracked.
    Track(ObjectId),
    /// An object is destroyed.
    Destroy(ObjectId),
    /// The focus is set.
    Focus(Option<ObjectId>),
    /// `enter` is sent to the objects of the focused client.
    Enter(Liveness),
    /// `leave` is sent to the objects of the focused client.
    Leave(Liveness),
    /// `leave` is sent to the objects that were told `enter`.
    OwedLeave(Liveness),
    /// An internal input method is registered, or cleared.
    SetInternal(Option<Sink>),
    /// A Wayland input method is bound, or goes.
    SetInputMethod(Option<ObjectId>),
}

/// A history: what happens, oldest first.
pub type History<Sink> = Seq<Step<Sink>>;

/// The text-input state of a seat and its Wayland input method.
#[verifier::ext_equal]
pub struct World<Sink> {
    /// The text-input state.
    pub text_input: TextInputView<Sink>,
    /// The Wayland input method, if one is bound.
    pub input_method: Option<ObjectId>,
}

impl<Sink> World<Sink> {
    /// What a step leaves behind.
    pub open spec fn after(self, step: Step<Sink>) -> World<Sink> {
        let state = self.text_input;
        match step {
            Step::Request { resource, request } => World {
                text_input: state.after(self.input_method is Some, resource, request),
                ..self
            },
            Step::Track(id) => World { text_input: state.tracking(id), ..self },
            Step::Destroy(id) => World { text_input: state.without(id), ..self },
            Step::Focus(focus) => World { text_input: TextInputView { focus, ..state }, ..self },
            Step::Enter(live) => World { text_input: state.after_enter(&live), ..self },
            Step::Leave(live) => World { text_input: state.after_leave(&live), ..self },
            Step::OwedLeave(live) => World { text_input: state.after_owed_leave(&live), ..self },
            Step::SetInternal(internal_im) => World {
                text_input: TextInputView { internal_im, ..state },
                ..self
            },
            Step::SetInputMethod(input_method) => World { input_method, ..self },
        }
    }

    /// What a step leads to.
    pub open spec fn effects(self, step: Step<Sink>) -> Seq<Effect<Seq<char>>> {
        match step {
            Step::Request { resource, request } => self.text_input.effects(
                self.input_method is Some,
                resource,
                request,
            ),
            Step::Destroy(id) => self.text_input.destroyed_effects(id),
            _ => seq![],
        }
    }

    /// What the objects are told in a step.
    pub open spec fn messages(self, step: Step<Sink>) -> Seq<TextInputMessage> {
        match step {
            Step::Enter(live) => self.text_input.enter_messages(&live),
            Step::Leave(live) => self.text_input.leave_messages(&live),
            Step::OwedLeave(live) => self.text_input.owed_messages(&live),
            _ => seq![],
        }
    }
}

/// What a history leaves behind.
pub open spec fn run<Sink>(world: World<Sink>, history: History<Sink>) -> World<Sink>
    decreases history.len(),
{
    if history.len() == 0 {
        world
    } else {
        run(world, history.drop_last()).after(history.last())
    }
}

/// What a history leads to.
pub open spec fn run_effects<Sink>(world: World<Sink>, history: History<Sink>) -> Seq<
    Effect<Seq<char>>,
>
    decreases history.len(),
{
    if history.len() == 0 {
        seq![]
    } else {
        run_effects(world, history.drop_last()) + run(world, history.drop_last()).effects(
            history.last(),
        )
    }
}

/// Requests leave the objects of the seat as they are.
proof fn lemma_after_keeps_objects<Sink>(
    state: TextInputView<Sink>,
    input_method: bool,
    resource: ObjectId,
    request: Request<Seq<char>>,
)
    ensures
        ({
            let after = state.after(input_method, resource, request);
            &&& after.focus == state.focus
            &&& after.internal_im == state.internal_im
            &&& after.instances.len() == state.instances.len()
            &&& forall|i: int|
                0 <= i < state.instances.len() ==> {
                    &&& (#[trigger] after.instances[i]).instance == state.instances[i].instance
                    &&& after.instances[i].entered == state.instances[i].entered
                    &&& after.instances[i].serial == state.met_by(
                        resource,
                        request,
                    ).instances[i].serial
                }
            &&& forall|id: ObjectId| #[trigger] after.position(id) == state.position(id)
        }),
{
    let after = state.after(input_method, resource, request);
    lemma_position(state.instances, resource);
    lemma_counted(state, resource);
    assert forall|id: ObjectId| #[trigger] after.position(id) == state.position(id) by {
        lemma_same_objects(state.instances, after.instances, id);
    }
}

/// Noting who was told changes nothing else.
proof fn lemma_marked(
    instances: Seq<Instance<Seq<char>>>,
    pred: spec_fn(Instance<Seq<char>>) -> bool,
    entered: Option<ObjectId>,
    id: ObjectId,
)
    ensures
        marked(instances, pred, entered).len() == instances.len(),
        forall|i: int|
            0 <= i < instances.len() ==> {
                &&& (#[trigger] marked(instances, pred, entered)[i]).instance
                    == instances[i].instance
                &&& marked(instances, pred, entered)[i].serial == instances[i].serial
                &&& marked(instances, pred, entered)[i].pending_state == instances[i].pending_state
            },
        position_of(marked(instances, pred, entered), id) == position_of(instances, id),
{
    lemma_same_objects(instances, marked(instances, pred, entered), id);
}

/// A new object does not move the others.
proof fn lemma_tracking<Sink>(state: TextInputView<Sink>, new: ObjectId, id: ObjectId)
    ensures
        state.position(id) matches Some(i) ==> state.tracking(new).position(id) == Some(i)
            && state.tracking(new).instances[i] == state.instances[i],
        state.position(id) is None && id != new ==> state.tracking(new).position(id) is None,
{
    let pred = |instance: Instance<Seq<char>>| instance.instance == id;
    let pushed = state.tracking(new).instances;
    lemma_position(state.instances, id);
    lemma_position(pushed, id);
    match state.position(id) {
        Some(i) => {
            lemma_first_stays(state.instances, pushed.last(), pred, i);
        },
        None => {
            if let Some(k) = position_of(pushed, id) {
                assert(k < state.instances.len() ==> pushed[k] == state.instances[k]);
            }
        },
    }
}

/// An object that is not destroyed stays tracked, with its serial counting its commits.
proof fn lemma_step_counts<Sink>(world: World<Sink>, step: Step<Sink>, id: ObjectId)
    requires
        world.text_input.position(id) is Some,
        step != Step::<Sink>::Destroy(id),
    ensures
        ({
            let after = world.after(step).text_input;
            let serial = world.text_input.instances[world.text_input.position(id)->0].serial;
            &&& after.position(id) is Some
            &&& after.instances[after.position(id)->0].serial == if is_commit(step, id) {
                (serial + 1) as u32
            } else {
                serial
            }
        }),
{
    let state = world.text_input;
    lemma_position(state.instances, id);
    match step {
        Step::Request { resource, request } => {
            lemma_after_keeps_objects(state, world.input_method is Some, resource, request);
            lemma_position(state.instances, resource);
            if request is Commit && resource != id {
                if let Some(k) = state.position(resource) {
                    assert(k != state.position(id)->0);
                }
            }
        },
        Step::Track(new) => {
            lemma_tracking(state, new, id);
        },
        Step::Destroy(gone) => {
            lemma_others_stay(state.instances, gone, id);
        },
        Step::Enter(live) => {
            if let Some(surface) = state.live_focus(&live) {
                lemma_marked(state.instances, beside(surface), Some(surface), id);
            }
        },
        Step::Leave(live) => {
            if let Some(surface) = state.live_focus(&live) {
                lemma_marked(state.instances, beside(surface), None, id);
            }
        },
        Step::OwedLeave(live) => {
            if let Some(surface) = state.live_focus(&live) {
                lemma_marked(state.instances, told_of(surface), None, id);
            }
        },
        _ => {},
    }
}

/// The step is a commit of the object.
pub open spec fn is_commit<Sink>(step: Step<Sink>, id: ObjectId) -> bool {
    step matches Step::Request { resource, request } && resource == id && request is Commit
}

/// How often an object commits in a history.
pub open spec fn commits<Sink>(history: History<Sink>, id: ObjectId) -> nat
    decreases history.len(),
{
    if history.len() == 0 {
        0
    } else {
        commits(history.drop_last(), id) + if is_commit(history.last(), id) {
            1nat
        } else {
            0nat
        }
    }
}

/// The object is not destroyed in a history.
pub open spec fn survives<Sink>(history: History<Sink>, id: ObjectId) -> bool {
    forall|k: int| 0 <= k < history.len() ==> #[trigger] history[k] != Step::<Sink>::Destroy(id)
}

/// The serial of an object counts its commits, whatever becomes of them and whatever else happens,
/// for as long as the object exists.
pub proof fn law_serial_counts_commits<Sink>(
    world: World<Sink>,
    history: History<Sink>,
    id: ObjectId,
)
    requires
        world.text_input.position(id) is Some,
        survives(history, id),
        world.text_input.instances[world.text_input.position(id)->0].serial + commits(history, id)
            <= u32::MAX,
    ensures
        ({
            let before = world.text_input;
            let after = run(world, history).text_input;
            &&& after.position(id) is Some
            &&& after.instances[after.position(id)->0].serial
                == before.instances[before.position(id)->0].serial + commits(history, id)
        }),
    decreases history.len(),
{
    if history.len() > 0 {
        let init = history.drop_last();
        assert forall|k: int| 0 <= k < init.len() implies #[trigger] init[k] != Step::<
            Sink,
        >::Destroy(id) by {
            assert(history[k] == init[k]);
        }
        assert(history.last() == history[history.len() - 1]);
        law_serial_counts_commits(world, init, id);
        lemma_step_counts(run(world, init), history.last(), id);
    }
}

/// The step enables text input.
pub open spec fn enables<Sink>(world: World<Sink>, step: Step<Sink>) -> bool {
    step matches Step::Request { resource, request } && world.text_input.disposition(
        world.input_method is Some,
        resource,
        request,
    ) is Committed && world.text_input.instances[world.text_input.position(
        resource,
    )->0].pending_state.enable == Some(true)
}

/// The events of one step: none but those of an applied commit.
proof fn lemma_step_events<Sink>(world: World<Sink>, step: Step<Sink>)
    ensures
        ({
            let state = world.text_input;
            let events = events_of(world.effects(step));
            events.len() > 0 ==> {
                &&& events.last() == TextInputEvent::<Seq<char>>::Done
                &&& step matches Step::Request { resource, request }
                &&& state.disposition(world.input_method is Some, resource, request) is Committed
                &&& state.instances[state.position(resource)->0].pending_state.enable == Some(false)
                    ==> events == seq![
                    TextInputEvent::<Seq<char>>::Disabled,
                    TextInputEvent::Done,
                ]
            }
        }),
{
    let state = world.text_input;
    match step {
        Step::Request { resource, request } => {
            let pending = state.instances[state.position(resource)->0].pending_state;
            lemma_tells_commit(state.internal_im is Some, state.focus->0, pending);
        },
        Step::Destroy(_) => {
            lemma_parts_call(InputMethodCall::Deactivate);
        },
        _ => {},
    }
}

/// While text input is disabled, a step that does not enable it leaves it so.
proof fn lemma_stays_disabled<Sink>(world: World<Sink>, step: Step<Sink>)
    requires
        world.text_input.active_text_input_id is None,
        !enables(world, step),
    ensures
        world.after(step).text_input.active_text_input_id is None,
{
    if let Step::Request { resource, request } = step {
        lemma_position(world.text_input.instances, resource);
        lemma_counted(world.text_input, resource);
    }
}

/// After text input was disabled, no further state applies until it is enabled: in a history that
/// does not enable it, whatever else happens, all that can come is `Disabled` and its `Done`, over
/// and over.
pub proof fn law_no_state_until_enabled<Sink>(world: World<Sink>, history: History<Sink>)
    requires
        world.text_input.active_text_input_id is None,
        forall|k: int|
            0 <= k < history.len() ==> !enables(
                run(world, #[trigger] history.take(k)),
                history[k],
            ),
    ensures
        run(world, history).text_input.active_text_input_id is None,
        events_of(run_effects(world, history)).len() % 2 == 0,
        forall|k: int|
            0 <= k < events_of(run_effects(world, history)).len() ==> #[trigger] events_of(
                run_effects(world, history),
            )[k] == if k % 2 == 0 {
                TextInputEvent::<Seq<char>>::Disabled
            } else {
                TextInputEvent::Done
            },
    decreases history.len(),
{
    if history.len() > 0 {
        let init = history.drop_last();
        let step = history.last();
        assert forall|k: int| 0 <= k < init.len() implies !enables(
            run(world, #[trigger] init.take(k)),
            init[k],
        ) by {
            assert(history.take(k) =~= init.take(k));
        }
        law_no_state_until_enabled(world, init);
        assert(history.take(history.len() - 1) =~= init);
        let before = run(world, init);
        let last = before.effects(step);
        lemma_parts_concat(run_effects(world, init), last);
        lemma_stays_disabled(before, step);
        lemma_step_events(before, step);
        if let Step::Request { resource, request } = step {
            lemma_position(before.text_input.instances, resource);
        }
        assert(events_of(last).len() == 0 || events_of(last) == seq![
            TextInputEvent::<Seq<char>>::Disabled,
            TextInputEvent::Done,
        ]);
    }
}

/// Every batch ends: whatever happens, the last event that came, if any came, is `Done`.
pub proof fn law_every_batch_ends<Sink>(world: World<Sink>, history: History<Sink>)
    ensures
        ({
            let events = events_of(run_effects(world, history));
            events.len() > 0 ==> events.last() == TextInputEvent::<Seq<char>>::Done
        }),
    decreases history.len(),
{
    if history.len() > 0 {
        let init = history.drop_last();
        law_every_batch_ends(world, init);
        let before = run(world, init);
        lemma_parts_concat(run_effects(world, init), before.effects(history.last()));
        lemma_step_events(before, history.last());
    }
}

/// The object was told `enter` for the surface, and not yet `leave`.
pub open spec fn remembers<Sink>(
    state: TextInputView<Sink>,
    id: ObjectId,
    surface: ObjectId,
) -> bool {
    exists|i: int| entered_at(state.instances, i, id, surface)
}

/// The object that stands at `i` was told `enter` for the surface, and not yet `leave`.
pub open spec fn entered_at(
    instances: Seq<Instance<Seq<char>>>,
    i: int,
    id: ObjectId,
    surface: ObjectId,
) -> bool {
    0 <= i < instances.len() && instances[i].instance == id && instances[i].entered == Some(surface)
}

/// The step tells the objects neither `enter` nor `leave`.
pub open spec fn is_quiet<Sink>(step: Step<Sink>) -> bool {
    !(step is Enter) && !(step is Leave) && !(step is OwedLeave)
}

/// Who was told `enter` is remembered for as long as nobody is told anything and the object
/// exists.
proof fn lemma_remembered<Sink>(
    world: World<Sink>,
    step: Step<Sink>,
    id: ObjectId,
    surface: ObjectId,
)
    requires
        remembers(world.text_input, id, surface),
        is_quiet(step),
        step != Step::<Sink>::Destroy(id),
    ensures
        remembers(world.after(step).text_input, id, surface),
{
    let state = world.text_input;
    let after = world.after(step).text_input;
    let i = choose|i: int| entered_at(state.instances, i, id, surface);
    match step {
        Step::Request { resource, request } => {
            lemma_after_keeps_objects(state, world.input_method is Some, resource, request);
            assert(entered_at(after.instances, i, id, surface));
        },
        Step::Destroy(gone) => {
            let keep = |instance: Instance<Seq<char>>| instance.instance != gone;
            let instance = state.instances[i];
            assert(state.instances.contains(instance));
            lemma_filter_contains(state.instances, keep, instance);
            let k = choose|k: int|
                0 <= k < after.instances.len() && after.instances[k] == instance;
            assert(entered_at(after.instances, k, id, surface));
        },
        _ => {
            assert(entered_at(after.instances, i, id, surface));
        },
    }
}

/// All steps of the history are quiet.
pub open spec fn all_quiet<Sink>(history: History<Sink>) -> bool {
    forall|k: int| 0 <= k < history.len() ==> is_quiet(#[trigger] history[k])
}

/// Who was told `enter` is remembered over histories in which nobody is told anything.
pub proof fn lemma_remembered_over<Sink>(
    world: World<Sink>,
    history: History<Sink>,
    id: ObjectId,
    surface: ObjectId,
)
    requires
        remembers(world.text_input, id, surface),
        all_quiet(history),
        survives(history, id),
    ensures
        remembers(run(world, history).text_input, id, surface),
    decreases history.len(),
{
    if history.len() > 0 {
        let init = history.drop_last();
        assert forall|k: int| 0 <= k < init.len() implies is_quiet(#[trigger] init[k])
            && init[k] != Step::<Sink>::Destroy(id) by {
            assert(history[k] == init[k]);
        }
        assert(history.last() == history[history.len() - 1]);
        lemma_remembered_over(world, init, id, surface);
        lemma_remembered(run(world, init), history.last(), id, surface);
    }
}

/// The object is told `enter` for the surface in a step.
pub open spec fn told_in<Sink>(
    world: World<Sink>,
    step: Step<Sink>,
    id: ObjectId,
    surface: ObjectId,
) -> bool {
    step is Enter && world.messages(step).contains(
        TextInputMessage::Enter { text_input: id, surface },
    )
}

/// Who is told `enter` is remembered.
pub proof fn lemma_told_is_remembered<Sink>(
    state: TextInputView<Sink>,
    live: &Liveness,
    k: int,
)
    requires
        0 <= k < state.focused(live).len(),
    ensures
        state.focus is Some,
        remembers(state.after_enter(live), state.focused(live)[k].0, state.focus->0),
{
    let surface = state.live_focus(live)->0;
    let kept = state.instances.filter(beside(surface));
    lemma_filter_contains(state.instances, beside(surface), kept[k]);
    assert(kept.contains(kept[k]));
    let i = choose|i: int| 0 <= i < state.instances.len() && state.instances[i] == kept[k];
    assert(entered_at(state.after_enter(live).instances, i, kept[k].instance, surface));
}

/// Who is remembered was told, in this step or before.
proof fn lemma_remembered_was_told<Sink>(
    world: World<Sink>,
    step: Step<Sink>,
    id: ObjectId,
    surface: ObjectId,
)
    requires
        remembers(world.after(step).text_input, id, surface),
    ensures
        remembers(world.text_input, id, surface) || told_in(world, step, id, surface),
{
    let state = world.text_input;
    let after = world.after(step).text_input;
    let i = choose|i: int| entered_at(after.instances, i, id, surface);
    match step {
        Step::Request { resource, request } => {
            lemma_after_keeps_objects(state, world.input_method is Some, resource, request);
            assert(entered_at(state.instances, i, id, surface));
        },
        Step::Destroy(gone) => {
            let keep = |instance: Instance<Seq<char>>| instance.instance != gone;
            let instance = after.instances[i];
            assert(after.instances.contains(instance));
            lemma_filter_contains(state.instances, keep, instance);
            let k = choose|k: int|
                0 <= k < state.instances.len() && state.instances[k] == instance;
            assert(entered_at(state.instances, k, id, surface));
        },
        Step::Enter(live) => {
            if let Some(focus) = state.live_focus(&live) {
                if beside(focus)(state.instances[i]) {
                    let messages = state.enter_messages(&live);
                    let kept = state.instances.filter(beside(focus));
                    assert(state.instances.contains(state.instances[i]));
                    lemma_filter_contains(state.instances, beside(focus), state.instances[i]);
                    let k = choose|k: int| 0 <= k < kept.len() && kept[k] == state.instances[i];
                    assert(messages[k] == (TextInputMessage::Enter { text_input: id, surface }));
                } else {
                    assert(entered_at(state.instances, i, id, surface));
                }
            } else {
                assert(entered_at(state.instances, i, id, surface));
            }
        },
        _ => {
            assert(entered_at(state.instances, i, id, surface));
        },
    }
}

/// Some step of the history tells the object `enter` for the surface.
pub open spec fn told_during<Sink>(
    world: World<Sink>,
    history: History<Sink>,
    id: ObjectId,
    surface: ObjectId,
) -> bool {
    exists|k: int|
        0 <= k < history.len() && told_in(
            run(world, #[trigger] history.take(k)),
            history[k],
            id,
            surface,
        )
}

/// Nobody is remembered who was not told: from a state in which nobody was told anything, whatever
/// happens, each object that is owed a `leave` was told `enter` for that surface.
pub proof fn law_owed_leave_was_told<Sink>(
    world: World<Sink>,
    history: History<Sink>,
    id: ObjectId,
    surface: ObjectId,
)
    requires
        !remembers(world.text_input, id, surface),
        remembers(run(world, history).text_input, id, surface),
    ensures
        told_during(world, history, id, surface),
    decreases history.len(),
{
    if history.len() > 0 {
        let init = history.drop_last();
        let before = run(world, init);
        assert(history.take(history.len() - 1) =~= init);
        lemma_remembered_was_told(before, history.last(), id, surface);
        if remembers(before.text_input, id, surface) {
            law_owed_leave_was_told(world, init, id, surface);
            let k = choose|k: int|
                0 <= k < init.len() && told_in(
                    run(world, #[trigger] init.take(k)),
                    init[k],
                    id,
                    surface,
                );
            assert(history.take(k) =~= init.take(k));
        }
    }
}

/// An object that is remembered, while the surface has the focus and exists, is owed a `leave`.
pub proof fn lemma_remembered_is_owed<Sink>(
    state: TextInputView<Sink>,
    live: &Liveness,
    id: ObjectId,
) -> (k: int)
    requires
        state.live_focus(live) matches Some(surface) && id.client == surface.client && remembers(
            state,
            id,
            surface,
        ),
    ensures
        0 <= k < state.owed_messages(live).len(),
        state.owed_messages(live)[k] == (TextInputMessage::Leave {
            text_input: id,
            surface: state.focus->0,
        }),
{
    let surface = state.live_focus(live)->0;
    let i = choose|i: int| entered_at(state.instances, i, id, surface);
    let kept = state.instances.filter(told_of(surface));
    assert(state.instances.contains(state.instances[i]));
    lemma_filter_contains(state.instances, told_of(surface), state.instances[i]);
    choose|k: int| 0 <= k < kept.len() && kept[k] == state.instances[i]
}

/// Who is owed a `leave` is remembered.
pub proof fn lemma_owed_is_remembered<Sink>(state: TextInputView<Sink>, live: &Liveness, k: int)
    requires
        0 <= k < state.owed_messages(live).len(),
    ensures
        state.owed_messages(live)[k] matches TextInputMessage::Leave { text_input, surface }
            && remembers(state, text_input, surface),
{
    let surface = state.live_focus(live)->0;
    let kept = state.instances.filter(told_of(surface));
    assert(kept.contains(kept[k]));
    lemma_filter_contains(state.instances, told_of(surface), kept[k]);
    let i = choose|i: int| 0 <= i < state.instances.len() && state.instances[i] == kept[k];
    assert(entered_at(state.instances, i, kept[k].instance, surface));
}

/// Who is remembered is tracked.
pub proof fn lemma_remembered_is_tracked<Sink>(
    state: TextInputView<Sink>,
    id: ObjectId,
    surface: ObjectId,
)
    requires
        remembers(state, id, surface),
    ensures
        state.position(id) is Some,
{
    let i = choose|i: int| entered_at(state.instances, i, id, surface);
    lemma_position(state.instances, id);
}

/// Noting who was told does not change who has the focus.
pub proof fn lemma_marking_keeps_focused(
    a: Seq<Instance<Seq<char>>>,
    b: Seq<Instance<Seq<char>>>,
    surface: ObjectId,
)
    requires
        a.len() == b.len(),
        forall|i: int|
            0 <= i < a.len() ==> (#[trigger] a[i]).instance == b[i].instance && a[i].serial
                == b[i].serial,
    ensures
        a.filter(beside(surface)).map_values(with_surface(surface)) == b.filter(
            beside(surface),
        ).map_values(with_surface(surface)),
    decreases a.len(),
{
    let triple = with_surface(surface);
    reveal(Seq::filter);
    if a.len() > 0 {
        assert forall|i: int| 0 <= i < a.len() - 1 implies (
        #[trigger] a.drop_last()[i]).instance == b.drop_last()[i].instance && a.drop_last()[i].serial
            == b.drop_last()[i].serial by {
            assert(a[i] == a.drop_last()[i]);
        }
        lemma_marking_keeps_focused(a.drop_last(), b.drop_last(), surface);
        assert(a.last() == a[a.len() - 1]);
        let x = a.last();
        let y = b.last();
        let kept_a = a.drop_last().filter(beside(surface));
        let kept_b = b.drop_last().filter(beside(surface));
        assert(kept_a.push(x).map_values(triple) =~= kept_a.map_values(triple).push(triple(x)));
        assert(kept_b.push(y).map_values(triple) =~= kept_b.map_values(triple).push(triple(y)));
    } else {
        assert(a =~= b);
    }
}

/// The requests are ones that set pending state.
pub open spec fn only_set(requests: Seq<Request<Seq<char>>>) -> bool {
    forall|i: int|
        0 <= i < requests.len() ==> !((#[trigger] requests[i]) is Commit) && !(
        requests[i] is Destroy)
}

/// Pending state after requests that set it, oldest first.
pub open spec fn set_all(
    pending: TextInputState<Seq<char>>,
    requests: Seq<Request<Seq<char>>>,
) -> TextInputState<Seq<char>>
    decreases requests.len(),
{
    if requests.len() == 0 {
        pending
    } else {
        with_request(set_all(pending, requests.drop_last()), requests.last())
    }
}

/// Requests on one object, as a history.
pub open spec fn on_object<Sink>(
    resource: ObjectId,
    requests: Seq<Request<Seq<char>>>,
) -> History<Sink> {
    requests.map_values(|request: Request<Seq<char>>| Step::Request { resource, request })
}

/// Requests that set pending state are kept until the commit, and change nothing else.
proof fn lemma_requests_are_kept<Sink>(
    world: World<Sink>,
    resource: ObjectId,
    requests: Seq<Request<Seq<char>>>,
)
    requires
        world.input_method is Some || world.text_input.internal_im is Some,
        world.text_input.client_focused(resource),
        world.text_input.position(resource) is Some,
        only_set(requests),
    ensures
        ({
            let state = world.text_input;
            let after = run(world, on_object(resource, requests));
            let i = state.position(resource)->0;
            &&& after.input_method == world.input_method
            &&& after.text_input.focus == state.focus
            &&& after.text_input.internal_im == state.internal_im
            &&& after.text_input.active_text_input_id == state.active_text_input_id
            &&& after.text_input.position(resource) == state.position(resource)
            &&& after.text_input.instances[i].pending_state == set_all(
                state.instances[i].pending_state,
                requests,
            )
        }),
    decreases requests.len(),
{
    if requests.len() > 0 {
        let init = requests.drop_last();
        lemma_requests_are_kept(world, resource, init);
        let history = on_object::<Sink>(resource, requests);
        assert(history.drop_last() =~= on_object(resource, init));
        assert(history.last() == Step::<Sink>::Request { resource, request: requests.last() });
        let before = run(world, on_object(resource, init));
        lemma_position(before.text_input.instances, resource);
        lemma_after_keeps_objects(
            before.text_input,
            before.input_method is Some,
            resource,
            requests.last(),
        );
    }
}

/// A commit applies what was set: after any requests that set pending state on an object that is
/// heard, the commit passes on exactly what they leave set, later ones replacing earlier ones of
/// their kind. It is dropped only if another text input is active, or if none is and the requests
/// do not say whether to enable it.
pub proof fn law_commit_applies_what_was_set<Sink>(
    world: World<Sink>,
    resource: ObjectId,
    requests: Seq<Request<Seq<char>>>,
)
    requires
        world.input_method is Some || world.text_input.internal_im is Some,
        world.text_input.client_focused(resource),
        world.text_input.position(resource) is Some,
        only_set(requests),
    ensures
        ({
            let state = world.text_input;
            let after = run(world, on_object(resource, requests));
            let set = set_all(
                state.instances[state.position(resource)->0].pending_state,
                requests,
            );
            after.effects(Step::Request { resource, request: Request::Commit }) == if (
            state.active_text_input_id == Some(resource)) || (state.active_text_input_id is None
                && set.enable is Some) {
                commit_effects(state.internal_im is Some, state.focus->0, set)
            } else {
                seq![]
            }
        }),
{
    lemma_requests_are_kept(world, resource, requests);
}

/// The active text input, while it is tracked, has committed at least once.
pub open spec fn active_has_committed<Sink>(state: TextInputView<Sink>) -> bool {
    state.active_text_input_id matches Some(id) ==> (state.position(id) matches Some(i)
        ==> state.instances[i].serial >= 1)
}

/// A serial that discards never matches: the active text input has committed at least once, so
/// its serial is not zero. Whatever happens keeps it so, provided that commits can be counted and
/// that a new object is another one than the active text input.
pub proof fn law_discarding_serial_never_matches<Sink>(
    world: World<Sink>,
    step: Step<Sink>,
    live: &Liveness,
)
    requires
        active_has_committed(world.text_input),
        step matches Step::Request { resource, request } ==> (request is Commit
            ==> world.text_input.can_count(resource)),
        step matches Step::Track(id) ==> world.text_input.active_text_input_id != Some(id),
    ensures
        world.text_input.active(live) matches Some((_, _, serial)) ==> serial != 0,
        active_has_committed(world.after(step).text_input),
{
    let state = world.text_input;
    if let Step::Request { resource, request } = step {
        lemma_after_keeps_objects(state, world.input_method is Some, resource, request);
        lemma_position(state.instances, resource);
    }
    if let Some(id) = state.active_text_input_id {
        lemma_position(state.instances, id);
        if step == Step::<Sink>::Destroy(id) {
            lemma_forgotten(state, id);
        } else if state.position(id) is Some {
            lemma_step_counts(world, step, id);
        } else {
            lemma_stays_untracked(world, step, id);
        }
    }
}

/// An object that is not tracked is not tracked after a step either, unless it is new.
proof fn lemma_stays_untracked<Sink>(world: World<Sink>, step: Step<Sink>, id: ObjectId)
    requires
        world.text_input.position(id) is None,
        step != Step::<Sink>::Track(id),
    ensures
        world.after(step).text_input.position(id) is None,
{
    let state = world.text_input;
    match step {
        Step::Request { resource, request } => {
            lemma_after_keeps_objects(state, world.input_method is Some, resource, request);
        },
        Step::Track(new) => {
            lemma_tracking(state, new, id);
        },
        Step::Destroy(gone) => {
            if gone == id {
                lemma_forgotten(state, id);
            } else {
                lemma_others_stay(state.instances, gone, id);
            }
        },
        Step::Enter(live) => {
            if let Some(surface) = state.live_focus(&live) {
                lemma_marked(state.instances, beside(surface), Some(surface), id);
            }
        },
        Step::Leave(live) => {
            if let Some(surface) = state.live_focus(&live) {
                lemma_marked(state.instances, beside(surface), None, id);
            }
        },
        Step::OwedLeave(live) => {
            if let Some(surface) = state.live_focus(&live) {
                lemma_marked(state.instances, told_of(surface), None, id);
            }
        },
        _ => {},
    }
}

/// An object that was destroyed is not found any more.
proof fn lemma_forgotten<Sink>(state: TextInputView<Sink>, id: ObjectId)
    ensures
        state.without(id).position(id) is None,
{
    let pred = |instance: Instance<Seq<char>>| instance.instance != id;
    let left = state.without(id).instances;
    lemma_position(left, id);
    if let Some(i) = position_of(left, id) {
        state.instances.lemma_filter_pred(pred, i);
    }
}

/// Where other objects are found, they are what they were.
proof fn lemma_others_stay(instances: Seq<Instance<Seq<char>>>, gone: ObjectId, id: ObjectId)
    requires
        id != gone,
    ensures
        ({
            let left = instances.filter(|instance: Instance<Seq<char>>| instance.instance != gone);
            match position_of(left, id) {
                Some(k) => position_of(instances, id) matches Some(i) && left[k] == instances[i],
                None => position_of(instances, id) is None,
            }
        }),
    decreases instances.len(),
{
    let keep = |instance: Instance<Seq<char>>| instance.instance != gone;
    let pred = |instance: Instance<Seq<char>>| instance.instance == id;
    let left = instances.filter(keep);
    reveal(Seq::filter);
    if instances.len() == 0 {
        lemma_position(left, id);
        lemma_position(instances, id);
    } else {
        let init = instances.drop_last();
        let last = instances.last();
        let left_init = init.filter(keep);
        lemma_others_stay(init, gone, id);
        assert(instances =~= init.push(last));
        lemma_position(left, id);
        lemma_position(instances, id);
        lemma_position(left_init, id);
        lemma_position(init, id);
        match position_of(left_init, id) {
            Some(k) => {
                let i = position_of(init, id)->0;
                assert(is_first(init, pred, i));
                assert(is_first(left_init, pred, k));
                lemma_first_stays(init, last, pred, i);
                lemma_first_stays(left_init, last, pred, k);
            },
            None => {
                if last.instance == id {
                    assert(is_first(instances, pred, instances.len() - 1));
                    lemma_first_index_found(instances, pred, instances.len() - 1);
                    assert(left == left_init.push(last));
                    assert(is_first(left, pred, left.len() - 1));
                    lemma_first_index_found(left, pred, left.len() - 1);
                } else {
                    if let Some(i) = position_of(instances, id) {
                        assert(init[i].instance == id);
                    }
                    if let Some(i) = position_of(left, id) {
                        assert(left_init[i].instance == id);
                    }
                }
            },
        }
    }
}

/// What comes first still does when something is added at the end.
proof fn lemma_first_stays<A>(s: Seq<A>, x: A, pred: spec_fn(A) -> bool, i: int)
    requires
        is_first(s, pred, i),
    ensures
        first_index(s.push(x), pred) == Some(i),
        first_index(s, pred) == Some(i),
{
    assert forall|j: int| 0 <= j < i implies !pred(#[trigger] s.push(x)[j]) by {
        assert(!pred(s[j]));
    }
    assert(is_first(s.push(x), pred, i));
    lemma_first_index_found(s.push(x), pred, i);
    lemma_first_index_found(s, pred, i);
}

} // verus!
