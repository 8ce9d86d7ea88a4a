use wayland_seat::objects::{ClientId, Liveness, ObjectId};
use wayland_seat::text_input::handle::TextInputHandle;
use wayland_seat::text_input::protocol::{
    ChangeCause, ContentHint, ContentPurpose, Effect, InputMethodCall, Rectangle, Request,
    TextInputEvent, TextInputMessage,
};
use wayland_seat::text_input::request::{
    Disposition, InputMethodHandle, TextInputManagerState, TextInputUserData,
};

const SURFACE: ObjectId = ObjectId { client: ClientId(1), object: 1 };
const FIRST: ObjectId = ObjectId { client: ClientId(1), object: 2 };
const SECOND: ObjectId = ObjectId { client: ClientId(1), object: 3 };
const FOREIGN: ObjectId = ObjectId { client: ClientId(2), object: 4 };
const INPUT_METHOD: ObjectId = ObjectId { client: ClientId(3), object: 5 };

fn live() -> Liveness {
    Liveness { objects: vec![SURFACE], clients: Vec::new(), seats: Vec::new() }
}

fn data(sink: Option<u8>, input_method: Option<ObjectId>) -> TextInputUserData<u8> {
    let mut handle = TextInputHandle::default();
    handle.add_instance(FIRST);
    handle.add_instance(FOREIGN);
    handle.add_instance(SECOND);
    handle.set_focus(Some(SURFACE));
    handle.set_internal_input_method(sink);
    TextInputUserData { handle, input_method_handle: InputMethodHandle { instance: input_method } }
}

fn ask(data: &mut TextInputUserData<u8>, id: ObjectId, request: Request) -> Disposition {
    let (disposition, effects) = TextInputManagerState::request(data, id, request);
    assert_eq!(effects, Vec::<Effect>::new());
    disposition
}

fn commit(data: &mut TextInputUserData<u8>, id: ObjectId) -> (Disposition, Vec<Effect>) {
    TextInputManagerState::request(data, id, Request::Commit)
}

fn enable(data: &mut TextInputUserData<u8>, id: ObjectId) {
    assert_eq!(ask(data, id, Request::Enable), Disposition::Pending);
    assert_eq!(commit(data, id).0, Disposition::Committed);
}

fn serial_of(data: &TextInputUserData<u8>, id: ObjectId) -> u32 {
    let i = data.handle.inner.find(&id).unwrap();
    data.handle.inner.instances[i].serial
}

fn set_everything(data: &mut TextInputUserData<u8>, id: ObjectId) {
    // Not in the order in which a commit applies them.
    let rect = Request::SetCursorRectangle { x: 1, y: -2, width: 3, height: 4 };
    assert_eq!(ask(data, id, rect), Disposition::Pending);
    let content = Request::SetContentType { hint: 0x41, purpose: 8 };
    assert_eq!(ask(data, id, content), Disposition::Pending);
    let cause = Request::SetTextChangeCause { cause: 0 };
    assert_eq!(ask(data, id, cause), Disposition::Pending);
    let text = Request::SetSurroundingText { text: "abc".to_string(), cursor: 2, anchor: 1 };
    assert_eq!(ask(data, id, text), Disposition::Pending);
}

fn all_events() -> Vec<TextInputEvent> {
    vec![
        TextInputEvent::SurroundingText { text: "abc".to_string(), cursor: 2, anchor: 1 },
        TextInputEvent::TextChangeCause(ChangeCause::InputMethod),
        TextInputEvent::ContentType {
            hint: ContentHint { bits: 0x41 },
            purpose: ContentPurpose::Password,
        },
        TextInputEvent::CursorRectangle(Rectangle { x: 1, y: -2, width: 3, height: 4 }),
        TextInputEvent::Done,
    ]
}

fn all_calls() -> Vec<InputMethodCall> {
    vec![
        InputMethodCall::SurroundingText { text: "abc".to_string(), cursor: 2, anchor: 1 },
        InputMethodCall::TextChangeCause(ChangeCause::InputMethod),
        InputMethodCall::ContentType {
            hint: ContentHint { bits: 0x41 },
            purpose: ContentPurpose::Password,
        },
        InputMethodCall::SetTextInputRectangle(Rectangle { x: 1, y: -2, width: 3, height: 4 }),
        InputMethodCall::Done,
    ]
}

#[test]
fn a_commit_is_passed_on_in_order() {
    let mut data = data(Some(0), Some(INPUT_METHOD));
    set_everything(&mut data, FIRST);
    assert_eq!(ask(&mut data, FIRST, Request::Enable), Disposition::Pending);
    let (disposition, effects) = commit(&mut data, FIRST);
    assert_eq!(disposition, Disposition::Committed);
    let mut expected = vec![
        Effect::InputMethod(InputMethodCall::Activate { surface: SURFACE }),
        Effect::Notify(TextInputEvent::Enabled),
    ];
    for (event, call) in all_events().into_iter().zip(all_calls()) {
        expected.push(Effect::Notify(event));
        expected.push(Effect::InputMethod(call));
    }
    assert_eq!(effects, expected);
    assert_eq!(data.handle.inner.active_text_input_id, Some(FIRST));
}

#[test]
fn without_internal_input_method_there_are_no_events() {
    let mut data = data(None, Some(INPUT_METHOD));
    enable(&mut data, FIRST);
    set_everything(&mut data, FIRST);
    let (_, effects) = commit(&mut data, FIRST);
    let expected: Vec<Effect> = all_calls().into_iter().map(Effect::InputMethod).collect();
    assert_eq!(effects, expected);
}

#[test]
fn a_commit_takes_the_pending_state() {
    let mut data = data(Some(0), None);
    set_everything(&mut data, FIRST);
    enable(&mut data, FIRST);
    assert_eq!(
        commit(&mut data, FIRST).1,
        vec![
            Effect::Notify(TextInputEvent::Done),
            Effect::InputMethod(InputMethodCall::Done),
        ]
    );
}

#[test]
fn later_requests_replace_earlier_ones() {
    let mut data = data(Some(0), None);
    ask(&mut data, FIRST, Request::Disable);
    ask(&mut data, FIRST, Request::SetTextChangeCause { cause: 0 });
    ask(&mut data, FIRST, Request::SetTextChangeCause { cause: 1 });
    ask(&mut data, FIRST, Request::Enable);
    let (_, effects) = commit(&mut data, FIRST);
    assert_eq!(effects[1], Effect::Notify(TextInputEvent::Enabled));
    assert_eq!(
        effects[2],
        Effect::Notify(TextInputEvent::TextChangeCause(ChangeCause::Other))
    );
    assert_eq!(effects.len(), 6);
}

#[test]
fn disabling_tells_that_and_ends_the_batch() {
    let mut data = data(Some(0), Some(INPUT_METHOD));
    enable(&mut data, FIRST);
    set_everything(&mut data, FIRST);
    ask(&mut data, FIRST, Request::Disable);
    assert_eq!(
        commit(&mut data, FIRST),
        (
            Disposition::Committed,
            vec![
                Effect::InputMethod(InputMethodCall::Deactivate),
                Effect::Notify(TextInputEvent::Disabled),
                Effect::Notify(TextInputEvent::Done),
            ]
        )
    );
    assert_eq!(data.handle.inner.active_text_input_id, None);
    // Nothing applies until the next `Enabled`.
    set_everything(&mut data, FIRST);
    assert_eq!(commit(&mut data, FIRST), (Disposition::NotEnabled, Vec::new()));
}

#[test]
fn requests_without_input_method_are_discarded() {
    let mut data = data(None, None);
    assert_eq!(ask(&mut data, FIRST, Request::Enable), Disposition::NoInputMethod);
    assert_eq!(commit(&mut data, FIRST), (Disposition::NoInputMethod, Vec::new()));
    // The serial counts commits all the same.
    assert_eq!(serial_of(&data, FIRST), 1);
    data.handle.set_internal_input_method(Some(0));
    assert!(data.handle.has_internal_input_method());
    assert_eq!(data.handle.internal_sink(), Some(&0));
    assert_eq!(commit(&mut data, FIRST), (Disposition::NotEnabled, Vec::new()));
    assert_eq!(serial_of(&data, FIRST), 2);
}

#[test]
fn requests_of_unfocused_clients_are_discarded() {
    let mut data = data(Some(0), None);
    assert_eq!(ask(&mut data, FOREIGN, Request::Enable), Disposition::UnfocusedClient);
    data.handle.set_focus(None);
    assert_eq!(ask(&mut data, FIRST, Request::Enable), Disposition::UnfocusedClient);
    assert_eq!(commit(&mut data, FIRST), (Disposition::UnfocusedClient, Vec::new()));
    assert_eq!(serial_of(&data, FIRST), 1);
}

#[test]
fn requests_of_untracked_objects_are_discarded() {
    let mut data = data(Some(0), None);
    let stranger = ObjectId { client: ClientId(1), object: 99 };
    assert_eq!(ask(&mut data, stranger, Request::Commit), Disposition::Untracked);
}

#[test]
fn only_one_text_input_is_active() {
    let mut data = data(Some(0), None);
    enable(&mut data, FIRST);
    ask(&mut data, SECOND, Request::Enable);
    assert_eq!(commit(&mut data, SECOND), (Disposition::OtherActive, Vec::new()));
    assert_eq!(data.handle.inner.active_text_input_id, Some(FIRST));
    // The pending state of the other one is gone.
    ask(&mut data, FIRST, Request::Disable);
    commit(&mut data, FIRST);
    assert_eq!(commit(&mut data, SECOND), (Disposition::NotEnabled, Vec::new()));
}

#[test]
fn destroy_requests_do_nothing() {
    let mut data = data(Some(0), None);
    assert_eq!(ask(&mut data, FIRST, Request::Destroy), Disposition::Nothing);
}

#[test]
fn negative_offsets_wrap() {
    let mut data = data(Some(0), None);
    let text = Request::SetSurroundingText { text: String::new(), cursor: -1, anchor: i32::MIN };
    ask(&mut data, FIRST, text);
    ask(&mut data, FIRST, Request::Enable);
    let (_, effects) = commit(&mut data, FIRST);
    assert_eq!(
        effects[2],
        Effect::Notify(TextInputEvent::SurroundingText {
            text: String::new(),
            cursor: u32::MAX,
            anchor: 0x8000_0000,
        })
    );
}

#[test]
fn unknown_enumerations_fall_back() {
    assert_eq!(ChangeCause::from_raw(0), ChangeCause::InputMethod);
    assert_eq!(ChangeCause::from_raw(1), ChangeCause::Other);
    assert_eq!(ChangeCause::from_raw(2), ChangeCause::Other);
    assert_eq!(ChangeCause::from_raw(u32::MAX), ChangeCause::Other);
    assert_eq!(ContentHint::from_raw(0xffff_ffff), ContentHint { bits: 0x1fff });
    assert_eq!(ContentHint::from_raw(0x2041), ContentHint { bits: 0x41 });
    assert_eq!(ContentHint::from_raw(0), ContentHint { bits: 0 });
    let purposes = [
        ContentPurpose::Normal,
        ContentPurpose::Alpha,
        ContentPurpose::Digits,
        ContentPurpose::Number,
        ContentPurpose::Phone,
        ContentPurpose::Url,
        ContentPurpose::Email,
        ContentPurpose::Name,
        ContentPurpose::Password,
        ContentPurpose::Pin,
        ContentPurpose::Date,
        ContentPurpose::Time,
        ContentPurpose::Datetime,
        ContentPurpose::Terminal,
    ];
    for (raw, purpose) in purposes.iter().enumerate() {
        assert_eq!(ContentPurpose::from_raw(raw as u32), *purpose);
    }
    assert_eq!(ContentPurpose::from_raw(14), ContentPurpose::Normal);
}

#[test]
fn done_carries_the_serial_or_one_that_cannot_match() {
    let mut data = data(Some(0), None);
    assert_eq!(data.handle.done(false, &live()), None);
    enable(&mut data, FIRST);
    commit(&mut data, FIRST);
    assert_eq!(
        data.handle.done(false, &live()),
        Some(TextInputMessage::Done { text_input: FIRST, serial: 2 })
    );
    assert_eq!(
        data.handle.done(true, &live()),
        Some(TextInputMessage::Done { text_input: FIRST, serial: 0 })
    );
    assert_eq!(data.handle.active_text_input_serial_or_default(7, &live()), 2);
    let nothing = Liveness { objects: Vec::new(), ..live() };
    assert_eq!(data.handle.done(false, &nothing), None);
    assert_eq!(data.handle.active_text_input_serial_or_default(7, &nothing), 7);
}

#[test]
fn the_active_text_input_must_belong_to_the_focused_client() {
    let mut data = data(Some(0), None);
    enable(&mut data, FIRST);
    assert_eq!(data.handle.with_active_text_input(&live()), Some((FIRST, SURFACE)));
    let elsewhere = ObjectId { client: ClientId(2), object: 50 };
    data.handle.set_focus(Some(elsewhere));
    let alive = Liveness { objects: vec![elsewhere], ..live() };
    assert_eq!(data.handle.with_active_text_input(&alive), None);
    assert_eq!(data.handle.with_focused_text_input(&alive), vec![(FOREIGN, elsewhere)]);
}

#[test]
fn enter_and_leave_go_to_all_objects_of_the_client() {
    let mut data = data(Some(0), None);
    enable(&mut data, FIRST);
    assert_eq!(
        data.handle.enter(&live()),
        vec![
            TextInputMessage::Enter { text_input: FIRST, surface: SURFACE },
            TextInputMessage::Enter { text_input: SECOND, surface: SURFACE },
        ]
    );
    assert_eq!(
        data.handle.with_focused_text_input(&live()),
        vec![(FIRST, SURFACE), (SECOND, SURFACE)]
    );
    assert_eq!(
        data.handle.leave(&live()),
        vec![
            TextInputMessage::Leave { text_input: FIRST, surface: SURFACE },
            TextInputMessage::Leave { text_input: SECOND, surface: SURFACE },
        ]
    );
    assert_eq!(data.handle.inner.active_text_input_id, None);
    // A focused surface that is gone is told nothing.
    let nothing = Liveness { objects: Vec::new(), ..live() };
    assert_eq!(data.handle.enter(&nothing), Vec::<TextInputMessage>::new());
    assert_eq!(data.handle.focus(), Some(SURFACE));
}

#[test]
fn the_last_object_of_the_focused_client_takes_the_input_method_with_it() {
    let mut data = data(Some(0), Some(INPUT_METHOD));
    let deactivate = vec![Effect::InputMethod(InputMethodCall::Deactivate)];
    assert_eq!(TextInputManagerState::destroyed(&mut data, FOREIGN), Vec::new());
    assert_eq!(TextInputManagerState::destroyed(&mut data, FIRST), Vec::new());
    assert_eq!(data.handle.inner.find(&FIRST), None);
    assert_eq!(TextInputManagerState::destroyed(&mut data, SECOND), deactivate);
    assert!(data.handle.inner.instances.is_empty());
    data.handle.add_instance(FOREIGN);
    data.handle.set_focus(None);
    assert_eq!(TextInputManagerState::destroyed(&mut data, FOREIGN), deactivate);
}

#[test]
fn every_batch_ends_with_done() {
    let mut data = data(Some(0), None);
    let mut log: Vec<TextInputEvent> = Vec::new();
    for request in [
        Request::Enable,
        Request::Commit,
        Request::Disable,
        Request::Commit,
        Request::Disable,
        Request::Commit,
    ] {
        for effect in TextInputManagerState::request(&mut data, FIRST, request).1 {
            if let Effect::Notify(event) = effect {
                log.push(event);
            }
        }
    }
    assert_eq!(
        log,
        vec![
            TextInputEvent::Enabled,
            TextInputEvent::Done,
            TextInputEvent::Disabled,
            TextInputEvent::Done,
            TextInputEvent::Disabled,
            TextInputEvent::Done,
        ]
    );
}

#[test]
fn disabling_without_internal_input_method_is_one_call() {
    let mut data = data(None, Some(INPUT_METHOD));
    enable(&mut data, FIRST);
    ask(&mut data, FIRST, Request::Disable);
    assert_eq!(
        commit(&mut data, FIRST).1,
        vec![Effect::InputMethod(InputMethodCall::Deactivate)]
    );
}

#[test]
fn an_enter_is_remembered_until_leave() {
    let mut data = data(Some(0), None);
    assert_eq!(data.handle.leave_entered(&live()), Vec::<TextInputMessage>::new());
    data.handle.enter(&live());
    let late = ObjectId { client: ClientId(1), object: 30 };
    data.handle.add_instance(late);
    data.handle.inner.active_text_input_id = Some(FIRST);
    // With the focus elsewhere, nothing is owed there, and the active text input stays.
    data.handle.set_focus(Some(FOREIGN));
    assert_eq!(data.handle.leave_entered(&live()), Vec::<TextInputMessage>::new());
    assert_eq!(data.handle.inner.active_text_input_id, Some(FIRST));
    data.handle.set_focus(Some(SURFACE));
    assert_eq!(
        data.handle.leave_entered(&live()),
        vec![
            TextInputMessage::Leave { text_input: FIRST, surface: SURFACE },
            TextInputMessage::Leave { text_input: SECOND, surface: SURFACE },
        ]
    );
    assert_eq!(data.handle.inner.active_text_input_id, None);
    assert_eq!(data.handle.leave_entered(&live()), Vec::<TextInputMessage>::new());
}

#[test]
fn an_enter_that_nobody_heard_or_that_was_taken_back_is_not_remembered() {
    let mut data = data(Some(0), None);
    let nothing = Liveness { objects: Vec::new(), ..live() };
    data.handle.enter(&nothing);
    assert_eq!(data.handle.leave_entered(&live()), Vec::<TextInputMessage>::new());
    data.handle.enter(&live());
    data.handle.leave(&live());
    assert_eq!(data.handle.leave_entered(&live()), Vec::<TextInputMessage>::new());
}

#[test]
fn serials_survive_whatever_happens_to_others() {
    let mut data = data(Some(0), None);
    enable(&mut data, SECOND);
    TextInputManagerState::destroyed(&mut data, FIRST);
    data.handle.enter(&live());
    data.handle.set_internal_input_method(None);
    assert_eq!(commit(&mut data, SECOND).0, Disposition::NoInputMethod);
    data.handle.leave(&live());
    data.handle.set_focus(None);
    assert_eq!(serial_of(&data, SECOND), 2);
}
