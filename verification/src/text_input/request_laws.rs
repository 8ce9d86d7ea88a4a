//! What is said of requests comes down to the values that they carry.
use crate::objects::ObjectId;
use crate::sequences::{lemma_filter_contains, lemma_filter_push};
use crate::text_input::histories::{only_set, set_all};
use crate::text_input::protocol::{
    effects_view, ChangeCause, ContentHint, ContentPurpose, Effect, InputMethodCall, Request,
    TextInputEvent,
};
use crate::text_input::request::{
    batch_effects, change_cause_effects, commit_effects, content_type_effects,
    cursor_rectangle_effects, lemma_counted, passed_on, surrounding_text_effects, told,
    unsigned_offset, with_request,
};
use crate::text_input::state::{Instance, TextInputState, TextInputView};
use crate::text_input::state_laws::{and_one, law_found_where_it_stands_first, stands_first};
use vstd::prelude::*;

verus! {

/// An offset is read as the unsigned number with the same bits: it differs by a multiple of two to
/// the thirty-second, and is the offset itself unless that is negative.
pub proof fn law_offsets_wrap(offset: i32)
    ensures
        (unsigned_offset(offset) - offset) % 0x1_0000_0000 == 0,
        offset >= 0 ==> unsigned_offset(offset) == offset,
{
}

/// Only zero is the input method; hints lose exactly the bits that are not defined; purposes are
/// numbered from zero, and all that are not defined count as normal.
pub proof fn law_enumerations_by_number(raw: u32)
    ensures
        ChangeCause::of_raw(raw) is InputMethod <==> raw == 0,
        ContentHint::of_raw(raw).bits & 0x1fffu32 == raw & 0x1fffu32,
        ContentHint::of_raw(raw).bits & !0x1fffu32 == 0,
        ContentPurpose::of_raw(raw) is Normal <==> raw == 0 || raw > 13,
        ContentPurpose::of_raw(raw) is Alpha <==> raw == 1,
        ContentPurpose::of_raw(raw) is Digits <==> raw == 2,
        ContentPurpose::of_raw(raw) is Number <==> raw == 3,
        ContentPurpose::of_raw(raw) is Phone <==> raw == 4,
        ContentPurpose::of_raw(raw) is Url <==> raw == 5,
        ContentPurpose::of_raw(raw) is Email <==> raw == 6,
        ContentPurpose::of_raw(raw) is Name <==> raw == 7,
        ContentPurpose::of_raw(raw) is Password <==> raw == 8,
        ContentPurpose::of_raw(raw) is Pin <==> raw == 9,
        ContentPurpose::of_raw(raw) is Date <==> raw == 10,
        ContentPurpose::of_raw(raw) is Time <==> raw == 11,
        ContentPurpose::of_raw(raw) is Datetime <==> raw == 12,
        ContentPurpose::of_raw(raw) is Terminal <==> raw == 13,
{
    assert((raw & 0x1fffu32) & 0x1fffu32 == raw & 0x1fffu32) by (bit_vector);
    assert((raw & 0x1fffu32) & !0x1fffu32 == 0) by (bit_vector);
}

/// A request that is kept sets its own field to what it carries, whatever that is, and leaves all
/// other fields alone.
pub proof fn law_request_sets_its_field(
    pending: TextInputState<Seq<char>>,
    request: Request<Seq<char>>,
)
    ensures
        ({
            let after = with_request(pending, request);
            &&& request is Enable ==> after.enable == Some(true)
            &&& request is Disable ==> after.enable == Some(false)
            &&& !(request is Enable) && !(request is Disable) ==> after.enable == pending.enable
            &&& request matches Request::SetSurroundingText { text, cursor, anchor } ==> {
                &&& after.surrounding_text matches Some((kept, c, a))
                &&& kept == text
                &&& (c - cursor) % 0x1_0000_0000 == 0
                &&& (a - anchor) % 0x1_0000_0000 == 0
            }
            &&& !(request is SetSurroundingText) ==> after.surrounding_text
                == pending.surrounding_text
            &&& request matches Request::SetTextChangeCause { cause } ==> {
                &&& after.text_change_cause matches Some(kept)
                &&& kept is InputMethod <==> cause == 0
            }
            &&& !(request is SetTextChangeCause) ==> after.text_change_cause
                == pending.text_change_cause
            &&& request matches Request::SetContentType { hint, purpose } ==> {
                &&& after.content_type matches Some((kept, what))
                &&& kept.bits & 0x1fffu32 == hint & 0x1fffu32
                &&& kept.bits & !0x1fffu32 == 0
                &&& what == ContentPurpose::of_raw(purpose)
            }
            &&& !(request is SetContentType) ==> after.content_type == pending.content_type
            &&& request matches Request::SetCursorRectangle { x, y, width, height } ==> {
                &&& after.cursor_rectangle matches Some(rect)
                &&& rect.x == x
                &&& rect.y == y
                &&& rect.width == width
                &&& rect.height == height
            }
            &&& !(request is SetCursorRectangle) ==> after.cursor_rectangle
                == pending.cursor_rectangle
        }),
{
    if let Request::SetContentType { hint, .. } = request {
        law_enumerations_by_number(hint);
    }
}

/// The last request of its sort wins: what requests leave set is what the last one that sets it
/// carried, and what none of them sets stays as it was.
pub proof fn law_last_request_wins(
    pending: TextInputState<Seq<char>>,
    requests: Seq<Request<Seq<char>>>,
    k: int,
)
    requires
        0 <= k < requests.len(),
        only_set(requests),
    ensures
        ({
            let set = set_all(pending, requests);
            let last = with_request(pending, requests[k]);
            let later = requests.skip(k + 1);
            &&& (requests[k] is Enable || requests[k] is Disable) && (forall|j: int|
                0 <= j < later.len() ==> !((#[trigger] later[j]) is Enable) && !(
                later[j] is Disable)) ==> set.enable == last.enable
            &&& requests[k] is SetSurroundingText && (forall|j: int|
                0 <= j < later.len() ==> !((#[trigger] later[j]) is SetSurroundingText))
                ==> set.surrounding_text == last.surrounding_text
            &&& requests[k] is SetTextChangeCause && (forall|j: int|
                0 <= j < later.len() ==> !((#[trigger] later[j]) is SetTextChangeCause))
                ==> set.text_change_cause == last.text_change_cause
            &&& requests[k] is SetContentType && (forall|j: int|
                0 <= j < later.len() ==> !((#[trigger] later[j]) is SetContentType))
                ==> set.content_type == last.content_type
            &&& requests[k] is SetCursorRectangle && (forall|j: int|
                0 <= j < later.len() ==> !((#[trigger] later[j]) is SetCursorRectangle))
                ==> set.cursor_rectangle == last.cursor_rectangle
        }),
    decreases requests.len(),
{
    let init = requests.drop_last();
    let last = requests.last();
    law_request_sets_its_field(set_all(pending, init), last);
    if k < requests.len() - 1 {
        assert forall|i: int| 0 <= i < init.len() implies !((#[trigger] init[i]) is Commit) && !(
        init[i] is Destroy) by {
            assert(requests[i] == init[i]);
        }
        law_last_request_wins(pending, init, k);
        let later = requests.skip(k + 1);
        assert(later[later.len() - 1] == last);
        assert forall|j: int| 0 <= j < init.skip(k + 1).len() implies #[trigger] init.skip(
            k + 1,
        )[j] == later[j] by {}
        assert(init[k] == requests[k]);
    }
}

/// What nobody sets stays.
pub proof fn law_unset_stays(
    pending: TextInputState<Seq<char>>,
    requests: Seq<Request<Seq<char>>>,
)
    ensures
        ({
            let set = set_all(pending, requests);
            &&& (forall|j: int|
                0 <= j < requests.len() ==> !((#[trigger] requests[j]) is Enable) && !(
                requests[j] is Disable)) ==> set.enable == pending.enable
            &&& (forall|j: int|
                0 <= j < requests.len() ==> !((#[trigger] requests[j]) is SetSurroundingText))
                ==> set.surrounding_text == pending.surrounding_text
            &&& (forall|j: int|
                0 <= j < requests.len() ==> !((#[trigger] requests[j]) is SetTextChangeCause))
                ==> set.text_change_cause == pending.text_change_cause
            &&& (forall|j: int|
                0 <= j < requests.len() ==> !((#[trigger] requests[j]) is SetContentType))
                ==> set.content_type == pending.content_type
            &&& (forall|j: int|
                0 <= j < requests.len() ==> !((#[trigger] requests[j]) is SetCursorRectangle))
                ==> set.cursor_rectangle == pending.cursor_rectangle
        }),
    decreases requests.len(),
{
    if requests.len() > 0 {
        let init = requests.drop_last();
        law_unset_stays(pending, init);
        law_request_sets_its_field(set_all(pending, init), requests.last());
        assert(requests[requests.len() - 1] == requests.last());
        assert forall|j: int| 0 <= j < init.len() implies #[trigger] init[j] == requests[j] by {}
    }
}

/// There is an input method, and the client of the object has the focus.
pub open spec fn is_heard<Sink>(
    state: TextInputView<Sink>,
    input_method: bool,
    resource: ObjectId,
) -> bool {
    &&& input_method || state.internal_im is Some
    &&& state.focus is Some
    &&& state.focus->0.client == resource.client
}

/// What becomes of a request: it is discarded exactly if there is no input method, the client does
/// not have the focus, or the object stands nowhere. Otherwise a commit is applied exactly if its
/// object is active, or none is and it says whether to enable it; and all others are kept, but for
/// the destruction of the object.
pub proof fn law_what_becomes_of_a_request<Sink>(
    state: TextInputView<Sink>,
    input_method: bool,
    resource: ObjectId,
    request: Request<Seq<char>>,
    i: int,
)
    ensures
        ({
            let what = state.disposition(input_method, resource, request);
            let active = state.active_text_input_id;
            let enable = state.instances[i].pending_state.enable;
            &&& what is NoInputMethod <==> !input_method && state.internal_im is None
            &&& what is UnfocusedClient <==> (input_method || state.internal_im is Some) && !(
            state.focus is Some && state.focus->0.client == resource.client)
            &&& what is Untracked <==> is_heard(state, input_method, resource) && forall|j: int|
                0 <= j < state.instances.len() ==> (#[trigger] state.instances[j]).instance
                    != resource
            &&& is_heard(state, input_method, resource) && stands_first(
                state.instances,
                i,
                resource,
            ) ==> {
                &&& what is Nothing <==> request is Destroy
                &&& what is Pending <==> !(request is Destroy) && !(request is Commit)
                &&& what is OtherActive <==> request is Commit && active is Some && active->0
                    != resource
                &&& what is NotEnabled <==> request is Commit && active is None && enable is None
                &&& what is Committed <==> request is Commit && (active == Some(resource) || (
                active is None && enable is Some))
            }
        }),
{
    law_found_where_it_stands_first(state, resource, i);
    if let Some(k) = state.position(resource) {
        law_found_where_it_stands_first(state, resource, k);
    }
}

/// What a request changes: the object that it is on, where that stands first, and nothing else but
/// which text input is active. A commit is counted whatever becomes of it; one that is heard takes
/// the pending state, and one that is applied decides which text input is active. Any other request
/// that is heard sets the pending state.
pub proof fn law_what_a_request_changes<Sink>(
    state: TextInputView<Sink>,
    input_method: bool,
    resource: ObjectId,
    request: Request<Seq<char>>,
    i: int,
)
    ensures
        ({
            let after = state.after(input_method, resource, request);
            let before = state.instances[i];
            let heard = is_heard(state, input_method, resource);
            &&& after.focus == state.focus
            &&& after.internal_im == state.internal_im
            &&& after.instances.len() == state.instances.len()
            &&& forall|j: int|
                0 <= j < state.instances.len() && !stands_first(state.instances, j, resource)
                    ==> #[trigger] after.instances[j] == state.instances[j]
            &&& stands_first(state.instances, i, resource) ==> {
                &&& after.instances[i].instance == resource
                &&& after.instances[i].entered == before.entered
                &&& request is Commit && before.serial < u32::MAX ==> after.instances[i].serial
                    == before.serial + 1
                &&& !(request is Commit) ==> after.instances[i].serial == before.serial
                &&& !heard || request is Destroy ==> after.instances[i].pending_state
                    == before.pending_state
                &&& heard && request is Commit ==> {
                    let pending = after.instances[i].pending_state;
                    &&& pending.enable is None
                    &&& pending.surrounding_text is None
                    &&& pending.content_type is None
                    &&& pending.cursor_rectangle is None
                    &&& pending.text_change_cause is None
                }
                &&& heard && !(request is Commit) && !(request is Destroy)
                    ==> after.instances[i].pending_state == with_request(
                    before.pending_state,
                    request,
                )
                &&& heard && request is Commit && (state.active_text_input_id is None
                    || state.active_text_input_id == Some(resource)) ==> {
                    &&& before.pending_state.enable == Some(true) ==> after.active_text_input_id
                        == Some(resource)
                    &&& before.pending_state.enable == Some(false)
                        ==> after.active_text_input_id is None
                    &&& before.pending_state.enable is None ==> after.active_text_input_id
                        == state.active_text_input_id
                }
            }
            &&& !heard || !(request is Commit) || (state.active_text_input_id is Some
                && state.active_text_input_id->0 != resource) || (forall|j: int|
                0 <= j < state.instances.len() ==> (#[trigger] state.instances[j]).instance
                    != resource) ==> after.active_text_input_id == state.active_text_input_id
        }),
{
    lemma_counted(state, resource);
    law_found_where_it_stands_first(state, resource, i);
    if let Some(k) = state.position(resource) {
        law_found_where_it_stands_first(state, resource, k);
        assert forall|j: int|
            0 <= j < state.instances.len() && !stands_first(
                state.instances,
                j,
                resource,
            ) implies #[trigger] state.after(input_method, resource, request).instances[j]
            == state.instances[j] by {
            assert(j != k);
        }
    }
}

/// One more commit of an object can be counted exactly if its serial is not the largest.
pub proof fn law_can_count<Sink>(state: TextInputView<Sink>, id: ObjectId)
    ensures
        state.can_count(id) <==> forall|i: int| #[trigger]
            stands_first(state.instances, i, id) ==> state.instances[i].serial < u32::MAX,
{
    law_found_where_it_stands_first(state, id, 0);
    if let Some(k) = state.position(id) {
        law_found_where_it_stands_first(state, id, k);
        assert forall|i: int| #[trigger] stands_first(state.instances, i, id) implies i == k by {
            law_found_where_it_stands_first(state, id, i);
        }
    } else {
        assert forall|i: int| !#[trigger] stands_first(state.instances, i, id) by {
            law_found_where_it_stands_first(state, id, i);
        }
    }
}

/// Counting a commit adds one to the serial of its object, where that stands first, and changes
/// nothing else.
pub proof fn law_counting<Sink>(state: TextInputView<Sink>, id: ObjectId, i: int)
    requires
        0 <= i < state.instances.len(),
    ensures
        ({
            let after = state.counted(id);
            &&& after.focus == state.focus
            &&& after.internal_im == state.internal_im
            &&& after.active_text_input_id == state.active_text_input_id
            &&& after.instances.len() == state.instances.len()
            &&& after.instances[i].instance == state.instances[i].instance
            &&& after.instances[i].entered == state.instances[i].entered
            &&& after.instances[i].pending_state == state.instances[i].pending_state
            &&& stands_first(state.instances, i, id) && state.instances[i].serial < u32::MAX
                ==> after.instances[i].serial == state.instances[i].serial + 1
            &&& !stands_first(state.instances, i, id) ==> after.instances[i].serial
                == state.instances[i].serial
        }),
{
    lemma_counted(state, id);
    law_found_where_it_stands_first(state, id, i);
    if let Some(k) = state.position(id) {
        law_found_where_it_stands_first(state, id, k);
    }
}

/// The place of an effect of a commit: what enables or disables text input comes first, the call
/// before the event; then each thing that was set, the event before the call; the end comes last.
pub open spec fn place(effect: Effect<Seq<char>>) -> int {
    match effect {
        Effect::InputMethod(InputMethodCall::Activate { .. }) => 0,
        Effect::InputMethod(InputMethodCall::Deactivate) => 0,
        Effect::Notify(TextInputEvent::Enabled) => 1,
        Effect::Notify(TextInputEvent::Disabled) => 1,
        Effect::Notify(TextInputEvent::SurroundingText { .. }) => 2,
        Effect::InputMethod(InputMethodCall::SurroundingText { .. }) => 3,
        Effect::Notify(TextInputEvent::TextChangeCause(_)) => 4,
        Effect::InputMethod(InputMethodCall::TextChangeCause(_)) => 5,
        Effect::Notify(TextInputEvent::ContentType { .. }) => 6,
        Effect::InputMethod(InputMethodCall::ContentType { .. }) => 7,
        Effect::Notify(TextInputEvent::CursorRectangle(_)) => 8,
        Effect::InputMethod(InputMethodCall::SetTextInputRectangle(_)) => 9,
        Effect::Notify(TextInputEvent::Done) => 10,
        Effect::InputMethod(InputMethodCall::Done) => 11,
    }
}

/// Effects stand in the order of their places, no place twice.
pub open spec fn in_place(effects: Seq<Effect<Seq<char>>>) -> bool {
    forall|i: int, j: int|
        0 <= i < j < effects.len() ==> place(#[trigger] effects[i]) < place(#[trigger] effects[j])
}

/// The effect belongs to the commit of what is pending, with the focus on `surface`: a call says
/// what was set, or how it was enabled or disabled, and an event says so if there is somebody to
/// hand it to. Nothing that was set counts where text input is disabled.
pub open spec fn belongs(
    effect: Effect<Seq<char>>,
    notify: bool,
    surface: ObjectId,
    pending: TextInputState<Seq<char>>,
) -> bool {
    let counts = pending.enable != Some(false);
    match effect {
        Effect::InputMethod(call) => match call {
            InputMethodCall::Activate { surface: s } => pending.enable == Some(true) && s
                == surface,
            InputMethodCall::Deactivate => pending.enable == Some(false),
            InputMethodCall::SurroundingText { text, cursor, anchor } => counts
                && pending.surrounding_text == Some((text, cursor, anchor)),
            InputMethodCall::TextChangeCause(cause) => counts && pending.text_change_cause == Some(
                cause,
            ),
            InputMethodCall::ContentType { hint, purpose } => counts && pending.content_type
                == Some((hint, purpose)),
            InputMethodCall::SetTextInputRectangle(rect) => counts && pending.cursor_rectangle
                == Some(rect),
            InputMethodCall::Done => counts,
        },
        Effect::Notify(event) => notify && match event {
            TextInputEvent::Enabled => pending.enable == Some(true),
            TextInputEvent::Disabled => pending.enable == Some(false),
            TextInputEvent::SurroundingText { text, cursor, anchor } => counts
                && pending.surrounding_text == Some((text, cursor, anchor)),
            TextInputEvent::TextChangeCause(cause) => counts && pending.text_change_cause == Some(
                cause,
            ),
            TextInputEvent::ContentType { hint, purpose } => counts && pending.content_type
                == Some((hint, purpose)),
            TextInputEvent::CursorRectangle(rect) => counts && pending.cursor_rectangle == Some(
                rect,
            ),
            TextInputEvent::Done => true,
        },
    }
}

/// All effects lie between two places and stand in order.
spec fn within(effects: Seq<Effect<Seq<char>>>, low: int, high: int) -> bool {
    &&& in_place(effects)
    &&& forall|i: int| 0 <= i < effects.len() ==> low <= place(#[trigger] effects[i]) < high
}

/// Effects put behind others that all come before them stand in order, and are what both were.
proof fn lemma_within_concat(
    a: Seq<Effect<Seq<char>>>,
    b: Seq<Effect<Seq<char>>>,
    low: int,
    mid: int,
    high: int,
)
    requires
        within(a, low, mid),
        within(b, mid, high),
        low <= mid <= high,
    ensures
        within(a + b, low, high),
        forall|x: Effect<Seq<char>>| #[trigger]
            (a + b).contains(x) <==> a.contains(x) || b.contains(x),
{
    let both = a + b;
    assert forall|x: Effect<Seq<char>>| #[trigger] both.contains(x) <==> a.contains(x)
        || b.contains(x) by {
        if both.contains(x) {
            let i = choose|i: int| 0 <= i < both.len() && both[i] == x;
            if i < a.len() {
                assert(a[i] == x);
            } else {
                assert(b[i - a.len()] == x);
            }
        }
        if a.contains(x) {
            let i = choose|i: int| 0 <= i < a.len() && a[i] == x;
            assert(both[i] == x);
        }
        if b.contains(x) {
            let i = choose|i: int| 0 <= i < b.len() && b[i] == x;
            assert(both[a.len() + i] == x);
        }
    }
}

/// One event, or none, and nothing else.
proof fn lemma_told_contains(notify: bool, event: TextInputEvent<Seq<char>>)
    ensures
        within(
            told(notify, event),
            place(Effect::Notify(event)),
            place(Effect::Notify(event)) + 1,
        ),
        forall|x: Effect<Seq<char>>| #[trigger]
            told(notify, event).contains(x) <==> notify && x == Effect::Notify(event),
{
    if notify {
        assert(told(notify, event)[0] == Effect::Notify(event));
    }
}

/// One call and nothing else.
proof fn lemma_call_contains(call: InputMethodCall<Seq<char>>)
    ensures
        within(
            seq![Effect::InputMethod(call)],
            place(Effect::InputMethod(call)),
            place(Effect::InputMethod(call)) + 1,
        ),
        forall|x: Effect<Seq<char>>| #[trigger]
            seq![Effect::InputMethod(call)].contains(x) <==> x == Effect::InputMethod(call),
{
    assert(seq![Effect::InputMethod(call)][0] == Effect::InputMethod(call));
}

/// An event, if there is somebody to hand it to, the call, and nothing else.
proof fn lemma_passed_on_contains(
    notify: bool,
    event: TextInputEvent<Seq<char>>,
    call: InputMethodCall<Seq<char>>,
)
    requires
        place(Effect::Notify(event)) + 1 == place(Effect::InputMethod(call)),
    ensures
        within(
            passed_on(notify, event, call),
            place(Effect::Notify(event)),
            place(Effect::Notify(event)) + 2,
        ),
        forall|x: Effect<Seq<char>>| #[trigger]
            passed_on(notify, event, call).contains(x) <==> (notify && x == Effect::Notify(event))
                || x == Effect::InputMethod(call),
{
    lemma_told_contains(notify, event);
    lemma_call_contains(call);
    let low = place(Effect::Notify(event));
    lemma_within_concat(
        told(notify, event),
        seq![Effect::InputMethod(call)],
        low,
        low + 1,
        low + 2,
    );
    assert(passed_on(notify, event, call) =~= told(notify, event) + seq![
        Effect::InputMethod(call),
    ]);
}

/// The effects are those of a batch that belong between two places, in order.
spec fn covers(
    effects: Seq<Effect<Seq<char>>>,
    low: int,
    high: int,
    notify: bool,
    surface: ObjectId,
    pending: TextInputState<Seq<char>>,
) -> bool {
    &&& within(effects, low, high)
    &&& forall|x: Effect<Seq<char>>| #[trigger]
        effects.contains(x) <==> low <= place(x) < high && belongs(
            x,
            notify,
            surface,
            TextInputState { enable: None, ..pending },
        )
}

/// Two stretches of a batch, one behind the other, are the stretch that they cover together.
proof fn lemma_covers_concat(
    a: Seq<Effect<Seq<char>>>,
    b: Seq<Effect<Seq<char>>>,
    low: int,
    mid: int,
    high: int,
    notify: bool,
    surface: ObjectId,
    pending: TextInputState<Seq<char>>,
)
    requires
        covers(a, low, mid, notify, surface, pending),
        covers(b, mid, high, notify, surface, pending),
        low <= mid <= high,
    ensures
        covers(a + b, low, high, notify, surface, pending),
{
    lemma_within_concat(a, b, low, mid, high);
}

/// The surrounding text of a batch.
proof fn lemma_surrounding_text_covers(
    notify: bool,
    surface: ObjectId,
    pending: TextInputState<Seq<char>>,
)
    ensures
        covers(surrounding_text_effects(notify, pending), 2, 4, notify, surface, pending),
{
    if let Some((text, cursor, anchor)) = pending.surrounding_text {
        lemma_passed_on_contains(
            notify,
            TextInputEvent::SurroundingText { text, cursor, anchor },
            InputMethodCall::SurroundingText { text, cursor, anchor },
        );
    }
}

/// The change cause of a batch.
proof fn lemma_change_cause_covers(
    notify: bool,
    surface: ObjectId,
    pending: TextInputState<Seq<char>>,
)
    ensures
        covers(change_cause_effects(notify, pending), 4, 6, notify, surface, pending),
{
    if let Some(cause) = pending.text_change_cause {
        lemma_passed_on_contains(
            notify,
            TextInputEvent::TextChangeCause(cause),
            InputMethodCall::TextChangeCause(cause),
        );
    }
}

/// The content type of a batch.
proof fn lemma_content_type_covers(
    notify: bool,
    surface: ObjectId,
    pending: TextInputState<Seq<char>>,
)
    ensures
        covers(content_type_effects(notify, pending), 6, 8, notify, surface, pending),
{
    if let Some((hint, purpose)) = pending.content_type {
        lemma_passed_on_contains(
            notify,
            TextInputEvent::ContentType { hint, purpose },
            InputMethodCall::ContentType { hint, purpose },
        );
    }
}

/// The cursor rectangle of a batch.
proof fn lemma_cursor_rectangle_covers(
    notify: bool,
    surface: ObjectId,
    pending: TextInputState<Seq<char>>,
)
    ensures
        covers(cursor_rectangle_effects(notify, pending), 8, 10, notify, surface, pending),
{
    if let Some(rect) = pending.cursor_rectangle {
        lemma_passed_on_contains(
            notify,
            TextInputEvent::CursorRectangle(rect),
            InputMethodCall::SetTextInputRectangle(rect),
        );
    }
}

/// The effects of a batch stand in order, and are what was set and the end.
proof fn lemma_batch_contains(notify: bool, surface: ObjectId, pending: TextInputState<Seq<char>>)
    ensures
        covers(batch_effects(notify, pending), 2, 12, notify, surface, pending),
{
    let a = surrounding_text_effects(notify, pending);
    let b = change_cause_effects(notify, pending);
    let c = content_type_effects(notify, pending);
    let d = cursor_rectangle_effects(notify, pending);
    let e = passed_on(notify, TextInputEvent::Done, InputMethodCall::Done);
    lemma_surrounding_text_covers(notify, surface, pending);
    lemma_change_cause_covers(notify, surface, pending);
    lemma_content_type_covers(notify, surface, pending);
    lemma_cursor_rectangle_covers(notify, surface, pending);
    assert(covers(e, 10, 12, notify, surface, pending)) by {
        lemma_passed_on_contains(notify, TextInputEvent::Done, InputMethodCall::Done);
    }
    lemma_covers_concat(a, b, 2, 4, 6, notify, surface, pending);
    lemma_covers_concat(a + b, c, 2, 6, 8, notify, surface, pending);
    lemma_covers_concat(a + b + c, d, 2, 8, 10, notify, surface, pending);
    lemma_covers_concat(a + b + c + d, e, 2, 10, 12, notify, surface, pending);
}

/// What precedes a batch that enables text input: the call, and the event.
proof fn lemma_enabling_contains(notify: bool, surface: ObjectId)
    ensures
        ({
            let start = seq![
                Effect::InputMethod(InputMethodCall::<Seq<char>>::Activate { surface }),
            ] + told(notify, TextInputEvent::Enabled);
            &&& within(start, 0, 2)
            &&& forall|x: Effect<Seq<char>>| #[trigger]
                start.contains(x) <==> x == Effect::InputMethod(
                    InputMethodCall::<Seq<char>>::Activate { surface },
                ) || (notify && x == Effect::Notify(TextInputEvent::<Seq<char>>::Enabled))
        }),
{
    let on = seq![Effect::InputMethod(InputMethodCall::<Seq<char>>::Activate { surface })];
    lemma_call_contains(InputMethodCall::Activate { surface });
    lemma_told_contains(notify, TextInputEvent::Enabled);
    lemma_within_concat(on, told(notify, TextInputEvent::Enabled), 0, 1, 2);
}

/// What disables text input: the call, the event, and the end.
proof fn lemma_disabling_contains(notify: bool)
    ensures
        ({
            let all = seq![Effect::InputMethod(InputMethodCall::<Seq<char>>::Deactivate)] + told(
                notify,
                TextInputEvent::Disabled,
            ) + told(notify, TextInputEvent::Done);
            &&& within(all, 0, 11)
            &&& forall|x: Effect<Seq<char>>| #[trigger]
                all.contains(x) <==> x == Effect::InputMethod(
                    InputMethodCall::<Seq<char>>::Deactivate,
                ) || (notify && (x == Effect::Notify(TextInputEvent::<Seq<char>>::Disabled) || x
                    == Effect::Notify(TextInputEvent::<Seq<char>>::Done)))
        }),
{
    let off = seq![Effect::InputMethod(InputMethodCall::<Seq<char>>::Deactivate)];
    let disabled = told(notify, TextInputEvent::Disabled);
    lemma_call_contains(InputMethodCall::Deactivate);
    lemma_told_contains(notify, TextInputEvent::Disabled);
    lemma_told_contains(notify, TextInputEvent::Done);
    lemma_within_concat(off, disabled, 0, 1, 2);
    assert(within(off + disabled, 0, 10));
    lemma_within_concat(off + disabled, told(notify, TextInputEvent::Done), 0, 10, 11);
}

/// The effects of a commit stand in order, and are exactly those that belong to it.
proof fn lemma_commit_contains(
    notify: bool,
    surface: ObjectId,
    pending: TextInputState<Seq<char>>,
)
    ensures
        in_place(commit_effects(notify, surface, pending)),
        forall|x: Effect<Seq<char>>| #[trigger]
            commit_effects(notify, surface, pending).contains(x) <==> belongs(
                x,
                notify,
                surface,
                pending,
            ),
{
    match pending.enable {
        Some(true) => {
            lemma_batch_contains(notify, surface, pending);
            lemma_enabling_contains(notify, surface);
            let start = seq![
                Effect::InputMethod(InputMethodCall::<Seq<char>>::Activate { surface }),
            ] + told(notify, TextInputEvent::Enabled);
            lemma_within_concat(start, batch_effects(notify, pending), 0, 2, 12);
        },
        Some(false) => {
            lemma_disabling_contains(notify);
        },
        None => {
            lemma_batch_contains(notify, surface, pending);
        },
    }
}

/// What a request leads to: nothing, unless it is a commit that is applied. Then it leads to exactly
/// the events and calls that belong to what is pending on its object, each once, in their order, the
/// events only if there is an internal input method.
pub proof fn law_what_a_request_leads_to<Sink>(
    state: TextInputView<Sink>,
    input_method: bool,
    resource: ObjectId,
    request: Request<Seq<char>>,
    i: int,
)
    requires
        stands_first(state.instances, i, resource),
    ensures
        ({
            let effects = state.effects(input_method, resource, request);
            let pending = state.instances[i].pending_state;
            let active = state.active_text_input_id;
            let applied = request is Commit && is_heard(state, input_method, resource) && (active
                == Some(resource) || (active is None && pending.enable is Some));
            &&& in_place(effects)
            &&& forall|x: Effect<Seq<char>>| #[trigger]
                effects.contains(x) <==> applied && belongs(
                    x,
                    state.internal_im is Some,
                    state.focus->0,
                    pending,
                )
        }),
{
    law_what_becomes_of_a_request(state, input_method, resource, request, i);
    law_found_where_it_stands_first(state, resource, i);
    lemma_commit_contains(
        state.internal_im is Some,
        state.focus->0,
        state.instances[i].pending_state,
    );
}

/// A request on an object that stands nowhere leads to nothing.
pub proof fn law_untracked_leads_to_nothing<Sink>(
    state: TextInputView<Sink>,
    input_method: bool,
    resource: ObjectId,
    request: Request<Seq<char>>,
)
    requires
        forall|j: int|
            0 <= j < state.instances.len() ==> (#[trigger] state.instances[j]).instance
                != resource,
    ensures
        state.effects(input_method, resource, request).len() == 0,
{
    law_what_becomes_of_a_request(state, input_method, resource, request, 0);
    law_found_where_it_stands_first(state, resource, 0);
}

/// A destroyed object is dropped wherever it stands, and all others stay in their order; nothing
/// else changes.
pub proof fn law_destroyed_one_by_one<Sink>(
    state: TextInputView<Sink>,
    instance: Instance<Seq<char>>,
    gone: ObjectId,
)
    ensures
        state.instances.len() == 0 ==> state.without(gone).instances.len() == 0,
        instance.instance == gone ==> and_one(state, instance).without(gone).instances
            == state.without(gone).instances,
        instance.instance != gone ==> and_one(state, instance).without(gone).instances
            == state.without(gone).instances.push(instance),
        state.without(gone).focus == state.focus,
        state.without(gone).active_text_input_id == state.active_text_input_id,
        state.without(gone).internal_im == state.internal_im,
{
    reveal(Seq::filter);
    let pred = |instance: Instance<Seq<char>>| instance.instance != gone;
    lemma_filter_push(state.instances, pred, instance);
}

/// The destruction of an object deactivates the input method, once and nothing else, exactly if its
/// client has the focus or nothing has, and all objects that are left belong to other clients.
pub proof fn law_last_object_of_the_client<Sink>(state: TextInputView<Sink>, gone: ObjectId)
    ensures
        ({
            let effects = state.destroyed_effects(gone);
            let focused = state.focus is None || state.focus->0.client == gone.client;
            let none_left = forall|i: int|
                0 <= i < state.instances.len() && (#[trigger] state.instances[i]).instance != gone
                    ==> state.instances[i].instance.client != gone.client;
            &&& effects.len() == if focused && none_left {
                1nat
            } else {
                0nat
            }
            &&& focused && none_left ==> effects[0] == Effect::<Seq<char>>::InputMethod(
                InputMethodCall::Deactivate,
            )
        }),
{
    let pred = |instance: Instance<Seq<char>>| instance.instance != gone;
    let left = state.without(gone).instances;
    assert forall|i: int| 0 <= i < left.len() implies state.instances.contains(
        #[trigger] left[i],
    ) && left[i].instance != gone by {
        assert(left.contains(left[i]));
        lemma_filter_contains(state.instances, pred, left[i]);
    }
    assert forall|i: int|
        0 <= i < state.instances.len() && (#[trigger] state.instances[i]).instance
            != gone implies left.contains(state.instances[i]) by {
        assert(state.instances.contains(state.instances[i]));
        lemma_filter_contains(state.instances, pred, state.instances[i]);
    }
    let none_left = forall|i: int|
        0 <= i < state.instances.len() && (#[trigger] state.instances[i]).instance != gone
            ==> state.instances[i].instance.client != gone.client;
    if state.without(gone).serves(gone) {
        let i = choose|i: int|
            0 <= i < left.len() && (#[trigger] left[i]).instance.client == gone.client;
        let k = choose|k: int|
            0 <= k < state.instances.len() && state.instances[k] == left[i];
        assert(state.instances[k].instance != gone);
        assert(!none_left);
    } else if !none_left {
        let i = choose|i: int|
            0 <= i < state.instances.len() && (#[trigger] state.instances[i]).instance != gone
                && state.instances[i].instance.client == gone.client;
        assert(left.contains(state.instances[i]));
        let k = choose|k: int| 0 <= k < left.len() && left[k] == state.instances[i];
        assert(left[k].instance.client == gone.client);
    }
}

/// Contracts see requests, events and calls as they are.
pub proof fn law_effects_are_seen_whole(
    request: Request,
    event: TextInputEvent,
    call: InputMethodCall,
    effects: Seq<Effect>,
)
    ensures
        request is Destroy <==> request@ is Destroy,
        request is Enable <==> request@ is Enable,
        request is Disable <==> request@ is Disable,
        request is Commit <==> request@ is Commit,
        request matches Request::SetSurroundingText { text, cursor, anchor } ==> request@
            == (Request::SetSurroundingText { text: text@, cursor, anchor }),
        request matches Request::SetTextChangeCause { cause } ==> request@ == (Request::<
            Seq<char>,
        >::SetTextChangeCause { cause }),
        request matches Request::SetContentType { hint, purpose } ==> request@ == (Request::<
            Seq<char>,
        >::SetContentType { hint, purpose }),
        request matches Request::SetCursorRectangle { x, y, width, height } ==> request@
            == (Request::<Seq<char>>::SetCursorRectangle { x, y, width, height }),
        event is Enabled <==> event@ is Enabled,
        event is Disabled <==> event@ is Disabled,
        event is Done <==> event@ is Done,
        event matches TextInputEvent::SurroundingText { text, cursor, anchor } ==> event@
            == (TextInputEvent::SurroundingText { text: text@, cursor, anchor }),
        event matches TextInputEvent::TextChangeCause(cause) ==> event@ == (TextInputEvent::<
            Seq<char>,
        >::TextChangeCause(cause)),
        event matches TextInputEvent::ContentType { hint, purpose } ==> event@
            == (TextInputEvent::<Seq<char>>::ContentType { hint, purpose }),
        event matches TextInputEvent::CursorRectangle(rect) ==> event@ == (TextInputEvent::<
            Seq<char>,
        >::CursorRectangle(rect)),
        call is Deactivate <==> call@ is Deactivate,
        call is Done <==> call@ is Done,
        call matches InputMethodCall::Activate { surface } ==> call@ == (InputMethodCall::<
            Seq<char>,
        >::Activate { surface }),
        call matches InputMethodCall::SurroundingText { text, cursor, anchor } ==> call@
            == (InputMethodCall::SurroundingText { text: text@, cursor, anchor }),
        call matches InputMethodCall::TextChangeCause(cause) ==> call@ == (InputMethodCall::<
            Seq<char>,
        >::TextChangeCause(cause)),
        call matches InputMethodCall::ContentType { hint, purpose } ==> call@
            == (InputMethodCall::<Seq<char>>::ContentType { hint, purpose }),
        call matches InputMethodCall::SetTextInputRectangle(rect) ==> call@ == (InputMethodCall::<
            Seq<char>,
        >::SetTextInputRectangle(rect)),
        Effect::Notify(event)@ == Effect::Notify(event@),
        Effect::InputMethod(call)@ == Effect::InputMethod(call@),
        effects_view(effects).len() == effects.len(),
        forall|i: int|
            0 <= i < effects.len() ==> #[trigger] effects_view(effects)[i] == effects[i]@,
{
}

} // verus!
