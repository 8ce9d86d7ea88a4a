//! What is said of the text-input state comes down to the objects, surfaces and serials themselves.
use crate::objects::{Liveness, ObjectId};
use crate::sequences::{is_first, lemma_filter_push, lemma_map_push};
use crate::text_input::handle::TextInputHandle;
use crate::text_input::protocol::TextInputMessage;
use crate::text_input::request::lemma_position;
use crate::text_input::state::{
    beside, told_of, with_surface, Instance, TextInput, TextInputState, TextInputView,
};
use vstd::prelude::*;

verus! {

/// The object stands at `i`, and not before.
pub open spec fn stands_first(
    instances: Seq<Instance<Seq<char>>>,
    i: int,
    id: ObjectId,
) -> bool {
    &&& 0 <= i < instances.len()
    &&& instances[i].instance == id
    &&& forall|j: int| 0 <= j < i ==> (#[trigger] instances[j]).instance != id
}

/// The state with one more object at the end.
pub open spec fn and_one<Sink>(
    state: TextInputView<Sink>,
    instance: Instance<Seq<char>>,
) -> TextInputView<Sink> {
    TextInputView { instances: state.instances.push(instance), ..state }
}

/// An object is found where it stands first, and not found exactly if it stands nowhere.
pub proof fn law_found_where_it_stands_first<Sink>(
    state: TextInputView<Sink>,
    id: ObjectId,
    i: int,
)
    ensures
        state.position(id) == Some(i) <==> stands_first(state.instances, i, id),
        state.position(id) is None <==> forall|j: int|
            0 <= j < state.instances.len() ==> (#[trigger] state.instances[j]).instance != id,
{
    lemma_position(state.instances, id);
    let pred = |instance: Instance<Seq<char>>| instance.instance == id;
    if let Some(k) = state.position(id) {
        assert(is_first(state.instances, pred, k));
        assert forall|j: int| 0 <= j < k implies (#[trigger] state.instances[j]).instance != id by {
            assert(!pred(state.instances[j]));
        }
        if stands_first(state.instances, i, id) {
            if k < i {
                assert(state.instances[k].instance != id);
            }
            if i < k {
                assert(!pred(state.instances[i]));
            }
        }
    }
}

/// The focus counts for as long as its surface exists.
pub proof fn law_focus_while_it_exists<Sink>(
    state: TextInputView<Sink>,
    live: &Liveness,
    surface: ObjectId,
)
    ensures
        state.live_focus(live) == Some(surface) <==> state.focus == Some(surface)
            && live.objects@.contains(surface),
        state.live_focus(live) is None <==> state.focus is None || !live.objects@.contains(
            state.focus->0,
        ),
{
}

/// The focused objects are found one by one: one more object is one more found, at the end, with the
/// focused surface and its own serial, exactly if that surface exists and has its client.
pub proof fn law_focused_one_by_one<Sink>(
    state: TextInputView<Sink>,
    instance: Instance<Seq<char>>,
    live: &Liveness,
)
    ensures
        state.instances.len() == 0 ==> state.focused(live).len() == 0,
        state.focus is None ==> state.focused(live).len() == 0,
        ({
            let surface = state.focus->0;
            if state.focus is Some && live.objects@.contains(surface) && instance.instance.client
                == surface.client {
                and_one(state, instance).focused(live) == state.focused(live).push(
                    (instance.instance, surface, instance.serial),
                )
            } else {
                and_one(state, instance).focused(live) == state.focused(live)
            }
        }),
{
    reveal(Seq::filter);
    if let Some(surface) = state.live_focus(live) {
        let kept = state.instances.filter(beside(surface));
        lemma_filter_push(state.instances, beside(surface), instance);
        lemma_map_push(kept, with_surface(surface), instance);
    }
}

/// `enter` and `leave` go to the focused objects: as many messages as objects, each to its object
/// and with the focused surface.
pub proof fn law_focused_objects_are_told<Sink>(state: TextInputView<Sink>, live: &Liveness)
    ensures
        state.enter_messages(live).len() == state.focused(live).len(),
        state.leave_messages(live).len() == state.focused(live).len(),
        forall|i: int|
            0 <= i < state.focused(live).len() ==> #[trigger] state.enter_messages(live)[i]
                == (TextInputMessage::Enter {
                text_input: state.focused(live)[i].0,
                surface: state.focus->0,
            }),
        forall|i: int|
            0 <= i < state.focused(live).len() ==> #[trigger] state.leave_messages(live)[i]
                == (TextInputMessage::Leave {
                text_input: state.focused(live)[i].0,
                surface: state.focus->0,
            }),
{
}

/// A `leave` is owed one by one: one more object is one more message, at the end, exactly if the
/// focused surface exists, has its client, and is the one that the object was told `enter` for.
pub proof fn law_owed_one_by_one<Sink>(
    state: TextInputView<Sink>,
    instance: Instance<Seq<char>>,
    live: &Liveness,
)
    ensures
        state.instances.len() == 0 ==> state.owed_messages(live).len() == 0,
        state.focus is None ==> state.owed_messages(live).len() == 0,
        ({
            let surface = state.focus->0;
            if state.focus is Some && live.objects@.contains(surface) && instance.instance.client
                == surface.client && instance.entered == Some(surface) {
                and_one(state, instance).owed_messages(live) == state.owed_messages(live).push(
                    TextInputMessage::Leave { text_input: instance.instance, surface },
                )
            } else {
                and_one(state, instance).owed_messages(live) == state.owed_messages(live)
            }
        }),
{
    reveal(Seq::filter);
    if let Some(surface) = state.live_focus(live) {
        let kept = state.instances.filter(told_of(surface));
        lemma_filter_push(state.instances, told_of(surface), instance);
        assert(and_one(state, instance).owed_messages(live) =~= if told_of(surface)(instance) {
            state.owed_messages(live).push(
                TextInputMessage::Leave { text_input: instance.instance, surface },
            )
        } else {
            state.owed_messages(live)
        });
    }
}

/// The active text input is the one that is enabled, while it is tracked, the focused surface exists
/// and has its client; it comes with that surface and its own serial.
pub proof fn law_active_text_input<Sink>(state: TextInputView<Sink>, live: &Liveness)
    ensures
        state.active(live) matches Some((id, surface, serial)) ==> {
            &&& state.active_text_input_id == Some(id)
            &&& state.focus == Some(surface)
            &&& live.objects@.contains(surface)
            &&& id.client == surface.client
            &&& exists|i: int|
                stands_first(state.instances, i, id) && state.instances[i].serial == serial
        },
        state.active(live) is None ==> {
            ||| state.active_text_input_id is None
            ||| state.focus is None
            ||| !live.objects@.contains(state.focus->0)
            ||| state.active_text_input_id->0.client != state.focus->0.client
            ||| forall|i: int|
                0 <= i < state.instances.len() ==> (#[trigger] state.instances[i]).instance
                    != state.active_text_input_id->0
        },
{
    if let Some(id) = state.active_text_input_id {
        law_found_where_it_stands_first(state, id, 0);
        if let Some(i) = state.position(id) {
            law_found_where_it_stands_first(state, id, i);
        }
    }
}

/// A new object stands last, has been told nothing, has committed never and has nothing pending.
pub proof fn law_new_object<Sink>(state: TextInputView<Sink>, id: ObjectId)
    ensures
        ({
            let after = state.tracking(id);
            let new = after.instances.last();
            &&& after.instances.len() == state.instances.len() + 1
            &&& forall|i: int|
                0 <= i < state.instances.len() ==> #[trigger] after.instances[i]
                    == state.instances[i]
            &&& new.instance == id
            &&& new.entered is None
            &&& new.serial == 0
            &&& new.pending_state.enable is None
            &&& new.pending_state.surrounding_text is None
            &&& new.pending_state.content_type is None
            &&& new.pending_state.cursor_rectangle is None
            &&& new.pending_state.text_change_cause is None
            &&& after.focus == state.focus
            &&& after.active_text_input_id == state.active_text_input_id
            &&& after.internal_im == state.internal_im
        }),
{
}

/// The objects differ in `entered` only.
pub open spec fn same_but_entered(a: Instance<Seq<char>>, b: Instance<Seq<char>>) -> bool {
    &&& a.instance == b.instance
    &&& a.serial == b.serial
    &&& a.pending_state == b.pending_state
}

/// Who is told is noted, and nobody else: after `enter` an object of the client of the focused
/// surface, while that exists, was told `enter` for it; after `leave` it was told `leave`. Where a
/// `leave` is only owed, it is those that were told `enter` for that very surface. `leave` ends the
/// active text input; an owed one does so if it was sent at all.
pub proof fn law_who_is_told_is_noted<Sink>(state: TextInputView<Sink>, live: &Liveness, i: int)
    requires
        0 <= i < state.instances.len(),
    ensures
        ({
            let surface = state.focus->0;
            let before = state.instances[i];
            let beside = state.focus is Some && live.objects@.contains(surface)
                && before.instance.client == surface.client;
            let entered = state.after_enter(live).instances[i];
            let left = state.after_leave(live).instances[i];
            let owed = state.after_owed_leave(live).instances[i];
            &&& same_but_entered(entered, before)
            &&& same_but_entered(left, before)
            &&& same_but_entered(owed, before)
            &&& entered.entered == if beside {
                Some(surface)
            } else {
                before.entered
            }
            &&& left.entered == if beside {
                None
            } else {
                before.entered
            }
            &&& owed.entered == if beside && before.entered == Some(surface) {
                None
            } else {
                before.entered
            }
        }),
{
}

/// Telling the objects leaves the rest of the state alone, but for the active text input.
pub proof fn law_telling_keeps_the_rest<Sink>(state: TextInputView<Sink>, live: &Liveness)
    ensures
        ({
            let entered = state.after_enter(live);
            let left = state.after_leave(live);
            let owed = state.after_owed_leave(live);
            &&& entered.instances.len() == state.instances.len()
            &&& left.instances.len() == state.instances.len()
            &&& owed.instances.len() == state.instances.len()
            &&& entered.focus == state.focus
            &&& left.focus == state.focus
            &&& owed.focus == state.focus
            &&& entered.internal_im == state.internal_im
            &&& left.internal_im == state.internal_im
            &&& owed.internal_im == state.internal_im
            &&& entered.active_text_input_id == state.active_text_input_id
            &&& left.active_text_input_id is None
            &&& state.owed_messages(live).len() > 0 ==> owed.active_text_input_id is None
            &&& state.owed_messages(live).len() == 0 ==> owed.active_text_input_id
                == state.active_text_input_id
        }),
{
}

/// Contracts see every field of the text-input state as it is.
pub proof fn law_state_is_seen_whole<Sink>(
    pending: TextInputState,
    instance: Instance,
    state: TextInput<Sink>,
    handle: TextInputHandle<Sink>,
)
    ensures
        pending@.enable == pending.enable,
        pending@.content_type == pending.content_type,
        pending@.cursor_rectangle == pending.cursor_rectangle,
        pending@.text_change_cause == pending.text_change_cause,
        pending@.surrounding_text is Some <==> pending.surrounding_text is Some,
        pending.surrounding_text matches Some((text, cursor, anchor))
            ==> pending@.surrounding_text == Some((text@, cursor, anchor)),
        instance@.instance == instance.instance,
        instance@.entered == instance.entered,
        instance@.serial == instance.serial,
        instance@.pending_state == instance.pending_state@,
        state@.instances.len() == state.instances@.len(),
        forall|i: int|
            0 <= i < state.instances@.len() ==> #[trigger] state@.instances[i]
                == state.instances@[i]@,
        state@.focus == state.focus,
        state@.active_text_input_id == state.active_text_input_id,
        state@.internal_im == state.internal_im,
        handle@ == handle.inner@,
{
}

} // verus!
